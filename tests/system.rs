use std::sync::{Arc, Mutex};

use ani_core::iisa::{interpret_op_list, DstSrc, DstSrcSrc, Instr, Op, Pred, RegisterFile, R, Src, SrcSrcSrc, SrcSrcTarget, Cond};
use ani_core::mem::{Access, Answer, BusMatrix, BusSlave, ReadResult, WriteResult};
use ani_core::mips::{self, REG_AT};
use ani_core::{
    Arch, CpuReg, Error, ExitReason, Hook, System, TraceExitHint, CPU_ENDIAN_BIG, CPU_ENDIAN_LITTLE,
    PROT_ALL, PROT_READ,
};

const ROM_BASE: u64 = 0x1FC00000;
const ROM_SIZE: u64 = 256 * 1024;
const ROM_VIRT: u64 = ROM_BASE + 0xA0000000;

#[derive(Clone)]
struct NoSlave;

impl BusSlave for NoSlave {
    // The relation is only read by the verifier; this slave is not verified.
    fn served(&self, _new: Self, _access: Access, _answer: Answer) -> bool {
        true
    }

    fn read_u8(&mut self, _addr: u64) -> ReadResult<u8> {
        ReadResult::BusError
    }

    fn read_u16(&mut self, _addr: u64) -> ReadResult<u16> {
        ReadResult::BusError
    }

    fn read_u32(&mut self, _addr: u64) -> ReadResult<u32> {
        ReadResult::BusError
    }

    fn read_u64(&mut self, _addr: u64) -> ReadResult<u64> {
        ReadResult::BusError
    }

    fn write_u8(&mut self, _addr: u64, _data: u8) -> WriteResult {
        WriteResult::BusError
    }

    fn write_u16(&mut self, _addr: u64, _data: u16) -> WriteResult {
        WriteResult::BusError
    }

    fn write_u32(&mut self, _addr: u64, _data: u32) -> WriteResult {
        WriteResult::BusError
    }

    fn write_u64(&mut self, _addr: u64, _data: u64) -> WriteResult {
        WriteResult::BusError
    }
}

/// Records every call and answers as it was told to.
#[derive(Clone)]
struct Tracer {
    calls: Arc<Mutex<Vec<(u64, u64)>>>,
    answer: TraceExitHint,
}

impl Tracer {
    fn new(answer: TraceExitHint) -> Tracer {
        Tracer { calls: Arc::new(Mutex::new(Vec::new())), answer }
    }

    fn calls(&self) -> Vec<(u64, u64)> {
        self.calls.lock().unwrap().clone()
    }
}

impl Hook for Tracer {
    fn call(&self, pc: u64, size: u64) -> TraceExitHint {
        self.calls.lock().unwrap().push((pc, size));
        self.answer
    }
}

fn at() -> CpuReg {
    CpuReg::CpuSpecific(REG_AT)
}

fn r2000() -> Arch {
    Arch::Mips(mips::Arch::R2000)
}

fn run_ori(opt: u8, code: &[u8]) {
    let mut system: System<NoSlave, Tracer> = System::new();
    system.add_mappable_range(PROT_ALL, ROM_BASE, ROM_SIZE).unwrap();
    system.set_range(code, ROM_BASE).unwrap();
    let cpu = system.register_cpu(opt, r2000()).unwrap();
    system.set_cpu_reg(&cpu, at(), 0x6789).unwrap();
    system.set_cpu_reg(&cpu, CpuReg::Pc, ROM_VIRT).unwrap();
    let blocks = Tracer::new(TraceExitHint::ContinueExecution);
    let stop = Tracer::new(TraceExitHint::StopExecution);
    system.add_block_hook_all(blocks.clone()).unwrap();
    system.add_code_hook_single(ROM_VIRT, stop.clone()).unwrap();

    assert_eq!(Ok(ExitReason::CodeHookSignalledStop), system.execute(&cpu));
    assert_eq!(Ok(0x77DF), system.get_cpu_reg(&cpu, at()));
    assert_eq!(Ok(ROM_VIRT + 4), system.get_cpu_reg(&cpu, CpuReg::Pc));
    assert_eq!(vec![(ROM_VIRT, 4)], blocks.calls());
    assert_eq!(vec![(ROM_VIRT, 4)], stop.calls());
}

#[test]
fn big_endian_ori() {
    run_ori(CPU_ENDIAN_BIG, &[0x34, 0x21, 0x34, 0x56]);
}

#[test]
fn little_endian_ori() {
    run_ori(CPU_ENDIAN_LITTLE, &[0x56, 0x34, 0x21, 0x34]);
}

#[test]
fn code_hook_stops_after_its_instruction() {
    let mut system: System<NoSlave, Tracer> = System::new();
    system.add_mappable_range(PROT_ALL, ROM_BASE, ROM_SIZE).unwrap();
    // addiu at, zero, 1; addiu at, at, 2; addiu at, at, 4
    system
        .set_range(&[0x24, 0x01, 0x00, 0x01, 0x24, 0x21, 0x00, 0x02, 0x24, 0x21, 0x00, 0x04], ROM_BASE)
        .unwrap();
    let cpu = system.register_cpu(CPU_ENDIAN_BIG, r2000()).unwrap();
    system.set_cpu_reg(&cpu, CpuReg::Pc, ROM_VIRT).unwrap();
    let stop = Tracer::new(TraceExitHint::StopExecution);
    system.add_code_hook_single(ROM_VIRT + 4, stop.clone()).unwrap();

    assert_eq!(Ok(ExitReason::CodeHookSignalledStop), system.execute(&cpu));
    assert_eq!(Ok(3), system.get_cpu_reg(&cpu, at()));
    assert_eq!(Ok(ROM_VIRT + 8), system.get_cpu_reg(&cpu, CpuReg::Pc));
    assert_eq!(vec![(ROM_VIRT + 4, 4)], stop.calls());
}

#[test]
fn leaving_the_window_stops_execution() {
    let mut system: System<NoSlave, Tracer> = System::new();
    system.add_mappable_range(PROT_ALL, ROM_BASE, ROM_SIZE).unwrap();
    // addiu at, zero, 1; addiu at, at, 2; addiu at, at, 4
    system
        .set_range(&[0x24, 0x01, 0x00, 0x01, 0x24, 0x21, 0x00, 0x02, 0x24, 0x21, 0x00, 0x04], ROM_BASE)
        .unwrap();
    let cpu = system.register_cpu(CPU_ENDIAN_BIG, r2000()).unwrap();
    system.set_cpu_reg(&cpu, CpuReg::Pc, ROM_VIRT).unwrap();
    assert_eq!(Ok(ExitReason::PcOutOfRange(ROM_VIRT + 8)), system.execute_within(&cpu, ROM_VIRT, ROM_VIRT + 8));
    assert_eq!(Ok(3), system.get_cpu_reg(&cpu, at()));
    // A later plain execution is not bound by the old window.
    system.add_code_hook_single(ROM_VIRT + 8, Tracer::new(TraceExitHint::StopExecution)).unwrap();
    assert_eq!(Ok(ExitReason::CodeHookSignalledStop), system.execute(&cpu));
    assert_eq!(Ok(7), system.get_cpu_reg(&cpu, at()));
    assert_eq!(Err(Error::InvalidCpuCookie), System::<NoSlave, Tracer>::new().execute_within(&cpu, 0, 1));
}

#[test]
fn execution_stops_at_an_unknown_instruction() {
    let mut system: System<NoSlave, Tracer> = System::new();
    system.add_mappable_range(PROT_ALL, ROM_BASE, ROM_SIZE).unwrap();
    system.set_range(&[0x34, 0x21, 0x34, 0x56], ROM_BASE).unwrap();
    let cpu = system.register_cpu(CPU_ENDIAN_BIG, r2000()).unwrap();
    system.set_cpu_reg(&cpu, CpuReg::Pc, ROM_VIRT).unwrap();
    // The word after the ori is zero, which this translator does not know.
    assert!(matches!(system.execute(&cpu), Err(Error::Unimplemented(_))));
    assert_eq!(Ok(0x3456), system.get_cpu_reg(&cpu, at()));
    assert_eq!(Ok(ROM_VIRT + 4), system.get_cpu_reg(&cpu, CpuReg::Pc));
}

#[test]
fn code_loaded_after_registration_is_seen() {
    let mut system: System<NoSlave, Tracer> = System::new();
    let cpu = system.register_cpu(CPU_ENDIAN_BIG, r2000()).unwrap();
    system.add_mappable_range(PROT_ALL, ROM_BASE, ROM_SIZE).unwrap();
    system.set_range(&[0x34, 0x21, 0x34, 0x56], ROM_BASE).unwrap();
    system.set_cpu_reg(&cpu, CpuReg::Pc, ROM_VIRT).unwrap();
    system.add_code_hook_single(ROM_VIRT, Tracer::new(TraceExitHint::StopExecution)).unwrap();
    assert_eq!(Ok(ExitReason::CodeHookSignalledStop), system.execute(&cpu));
    assert_eq!(Ok(0x3456), system.get_cpu_reg(&cpu, at()));
}

#[test]
fn delay_slot_runs_before_the_branch() {
    let mut system: System<NoSlave, Tracer> = System::new();
    system.add_mappable_range(PROT_ALL, 0, 0x1000).unwrap();
    // beq zero, zero, +3; addiu at, zero, 7; ...; at target: ori at, at, 0x10
    let mut code = vec![0u8; 0x20];
    code[0..4].copy_from_slice(&0x10000003u32.to_be_bytes());
    code[4..8].copy_from_slice(&0x24010007u32.to_be_bytes());
    code[16..20].copy_from_slice(&0x34210010u32.to_be_bytes());
    system.set_range(&code, 0).unwrap();
    let cpu = system.register_cpu(CPU_ENDIAN_BIG, r2000()).unwrap();
    system.set_cpu_reg(&cpu, CpuReg::Pc, 0x80000000).unwrap();
    let blocks = Tracer::new(TraceExitHint::ContinueExecution);
    system.add_block_hook_all(blocks.clone()).unwrap();
    system.add_code_hook_single(0x80000010, Tracer::new(TraceExitHint::StopExecution)).unwrap();
    assert_eq!(Ok(ExitReason::CodeHookSignalledStop), system.execute(&cpu));
    assert_eq!(Ok(0x17), system.get_cpu_reg(&cpu, at()));
    assert_eq!(Ok(0x80000014), system.get_cpu_reg(&cpu, CpuReg::Pc));
    // Two basic blocks were entered: the branch, and its target.
    assert_eq!(vec![(0x80000000, 8), (0x80000010, 4)], blocks.calls());
}

#[test]
fn store_word_reaches_memory() {
    let mut system: System<NoSlave, Tracer> = System::new();
    system.add_mappable_range(PROT_ALL, 0, 0x1000).unwrap();
    // lui at, 0x8000; ori v0, zero, 0x1234; sw v0, 0x100(zero); lui v1, 0xabcd
    let words: [u32; 4] = [0x3c018000, 0x34021234, 0xac020100, 0x3c03abcd];
    let mut code = Vec::new();
    for w in words.iter() {
        code.extend_from_slice(&w.to_le_bytes());
    }
    system.set_range(&code, 0).unwrap();
    let cpu = system.register_cpu(CPU_ENDIAN_LITTLE, r2000()).unwrap();
    system.set_cpu_reg(&cpu, CpuReg::Pc, 0x80000000).unwrap();
    system.add_code_hook_single(0x8000000c, Tracer::new(TraceExitHint::StopExecution)).unwrap();
    assert_eq!(Ok(ExitReason::CodeHookSignalledStop), system.execute(&cpu));
    assert_eq!(Ok(0x80000000), system.get_cpu_reg(&cpu, at()));
    assert_eq!(Ok(0x1234), system.get_cpu_reg(&cpu, CpuReg::CpuSpecific(2)));
    assert_eq!(Ok(0xabcd0000), system.get_cpu_reg(&cpu, CpuReg::CpuSpecific(3)));
    assert_eq!(Ok(0x80000010), system.get_cpu_reg(&cpu, CpuReg::Pc));
}

#[test]
fn store_addresses_are_physical() {
    let mut system: System<NoSlave, Tracer> = System::new();
    system.add_mappable_range(PROT_ALL, 0, 0x1000).unwrap();
    // lui at, 0x8000; sw zero, 0x100(at)
    system.set_range(&[0x3c, 0x01, 0x80, 0x00, 0xac, 0x20, 0x01, 0x00], 0).unwrap();
    let cpu = system.register_cpu(CPU_ENDIAN_BIG, r2000()).unwrap();
    system.set_cpu_reg(&cpu, CpuReg::Pc, 0x80000000).unwrap();
    assert_eq!(Err(Error::UnableToFindRange(0x80000100, 4)), system.execute(&cpu));
    assert_eq!(Ok(0x80000004), system.get_cpu_reg(&cpu, CpuReg::Pc));
}

#[test]
fn store_to_read_only_memory_fails() {
    let mut system: System<NoSlave, Tracer> = System::new();
    system.add_mappable_range(PROT_READ, 0, 0x1000).unwrap();
    // sw zero, 0x100(zero)
    system.set_range(&0xac000100u32.to_be_bytes(), 0).unwrap();
    let cpu = system.register_cpu(CPU_ENDIAN_BIG, r2000()).unwrap();
    system.set_cpu_reg(&cpu, CpuReg::Pc, 0x80000000).unwrap();
    assert_eq!(Err(Error::UnableToFindRange(0x100, 4)), system.execute(&cpu));
    assert_eq!(Ok(0x80000000), system.get_cpu_reg(&cpu, CpuReg::Pc));
}

#[test]
fn unmapped_pc_is_reported() {
    let mut system: System<NoSlave, Tracer> = System::new();
    let cpu = system.register_cpu(CPU_ENDIAN_BIG, r2000()).unwrap();
    system.set_cpu_reg(&cpu, CpuReg::Pc, 0x00401234).unwrap();
    assert_eq!(Err(Error::VirtualAddrNotMappable(0x00401000)), system.execute(&cpu));
    system.set_cpu_reg(&cpu, CpuReg::Pc, 0xc0000000).unwrap();
    assert_eq!(Err(Error::VirtualAddrNotMappable(0xc0000000)), system.execute(&cpu));
    system.set_cpu_reg(&cpu, CpuReg::Pc, 0x80002004).unwrap();
    assert_eq!(Err(Error::UnableToFindRange(0x2000, 4096)), system.execute(&cpu));
}

#[test]
fn register_round_trip() {
    let mut system: System<NoSlave, Tracer> = System::new();
    let cpu = system.register_cpu(CPU_ENDIAN_BIG, r2000()).unwrap();
    for n in 1..32u32 {
        let v = 0xffff_ffffu64 - n as u64;
        system.set_cpu_reg(&cpu, CpuReg::CpuSpecific(n), v).unwrap();
        assert_eq!(Ok(v), system.get_cpu_reg(&cpu, CpuReg::CpuSpecific(n)));
    }
    system.set_cpu_reg(&cpu, CpuReg::CpuSpecific(0), 5).unwrap();
    assert_eq!(Ok(0), system.get_cpu_reg(&cpu, CpuReg::CpuSpecific(0)));
    assert_eq!(Ok(0xffff_fffe), system.get_cpu_reg(&cpu, at()));
}

#[test]
fn later_setting_wins() {
    let mut system: System<NoSlave, Tracer> = System::new();
    let cpu = system.register_cpu(CPU_ENDIAN_BIG, r2000()).unwrap();
    system.set_cpu_reg(&cpu, at(), 1).unwrap();
    system.set_cpu_reg(&cpu, at(), 2).unwrap();
    assert_eq!(Ok(2), system.get_cpu_reg(&cpu, at()));
}

#[test]
fn register_errors() {
    let mut system: System<NoSlave, Tracer> = System::new();
    let cpu = system.register_cpu(CPU_ENDIAN_BIG, r2000()).unwrap();
    assert_eq!(
        Err(Error::SetRegValueOutOfRange(at(), 0x1_0000_0000)),
        system.set_cpu_reg(&cpu, at(), 0x1_0000_0000)
    );
    assert_eq!(
        Err(Error::SetRegValueOutOfRange(CpuReg::Pc, 0x1_0000_0000)),
        system.set_cpu_reg(&cpu, CpuReg::Pc, 0x1_0000_0000)
    );
    assert_eq!(
        Err(Error::SetRegUnknownReg(CpuReg::CpuSpecific(32), 1)),
        system.set_cpu_reg(&cpu, CpuReg::CpuSpecific(32), 1)
    );
    assert_eq!(
        Err(Error::GetRegUnknownReg(CpuReg::CpuSpecific(40))),
        system.get_cpu_reg(&cpu, CpuReg::CpuSpecific(40))
    );
    assert_eq!(Ok(0), system.get_cpu_reg(&cpu, at()));
}

#[test]
fn cookies_name_their_own_cpu() {
    let mut first: System<NoSlave, Tracer> = System::new();
    let mut second: System<NoSlave, Tracer> = System::new();
    let a = first.register_cpu(CPU_ENDIAN_BIG, r2000()).unwrap();
    let b = first.register_cpu(CPU_ENDIAN_LITTLE, Arch::Mips(mips::Arch::Sys161)).unwrap();
    first.set_cpu_reg(&a, at(), 1).unwrap();
    first.set_cpu_reg(&b, at(), 2).unwrap();
    assert_eq!(Ok(1), first.get_cpu_reg(&a, at()));
    assert_eq!(Ok(2), first.get_cpu_reg(&b, at()));
    assert_eq!(Err(Error::InvalidCpuCookie), second.get_cpu_reg(&a, at()));
    assert_eq!(Err(Error::InvalidCpuCookie), second.set_cpu_reg(&a, at(), 1));
    assert_eq!(Err(Error::InvalidCpuCookie), second.execute(&a));
}

#[test]
fn registration_errors() {
    let mut system: System<NoSlave, Tracer> = System::new();
    assert_eq!(
        Err(Error::UnimplementedArchitecture),
        system.register_cpu(CPU_ENDIAN_BIG, Arch::Mips(mips::Arch::Mips4Kc)).map(|_| ())
    );
    assert_eq!(
        Err(Error::UnimplementedArchitecture),
        system.register_cpu(0x02, Arch::Mips(mips::Arch::Mips4Kc)).map(|_| ())
    );
    let cpu = system.register_cpu(CPU_ENDIAN_BIG, Arch::Mips(mips::Arch::VR4300)).unwrap();
    system.add_mappable_range(PROT_ALL, 0, 0x1000).unwrap();
    system.set_range(&[0x34, 0x21, 0x34, 0x56], 0).unwrap();
    system.set_cpu_reg(&cpu, CpuReg::Pc, 0x80000000).unwrap();
    assert!(matches!(system.execute(&cpu), Err(Error::Unimplemented(_))));
}

#[test]
fn undefined_option_bits_are_ignored() {
    let mut system: System<NoSlave, Tracer> = System::new();
    system.add_mappable_range(PROT_ALL, ROM_BASE, ROM_SIZE).unwrap();
    // ori at, at, 0x3456, little-endian
    system.set_range(&[0x56, 0x34, 0x21, 0x34], ROM_BASE).unwrap();
    let cpu = system.register_cpu(0x02, r2000()).unwrap();
    system.set_cpu_reg(&cpu, CpuReg::Pc, ROM_VIRT).unwrap();
    system.add_code_hook_single(ROM_VIRT, Tracer::new(TraceExitHint::StopExecution)).unwrap();
    assert_eq!(Ok(ExitReason::CodeHookSignalledStop), system.execute(&cpu));
    assert_eq!(Ok(0x3456), system.get_cpu_reg(&cpu, at()));
}

#[test]
fn set_range_needs_mapped_memory() {
    let mut system: System<NoSlave, Tracer> = System::new();
    assert_eq!(Err(Error::UnableToFindRange(0x1000, 2)), system.set_range(&[1, 2], 0x1000));
    system.add_mappable_range(PROT_ALL, 0x1000, 0x10).unwrap();
    assert_eq!(Err(Error::UnableToFindRange(0x100f, 2)), system.set_range(&[1, 2], 0x100f));
    assert_eq!(Ok(()), system.set_range(&[1, 2], 0x100e));
}

#[test]
fn interpreter_runs_a_block() {
    let mut regs = RegisterFile::new();
    let mut bus: BusMatrix<NoSlave> = BusMatrix::new();
    bus.add_mappable_range(0x0, 0x100, PROT_ALL).unwrap();
    let block = vec![
        Instr { op: Op::Ld(DstSrc { dst: R::W(4), src: Src::ImmU32(0xfffffff0) }), pred: Pred::Always, exc: 0, size: 4 },
        Instr { op: Op::Add(DstSrcSrc { dst: R::W(5), src: [Src::Reg(R::W(4)), Src::ImmI16(0x20)] }), pred: Pred::Always, exc: 0, size: 4 },
        Instr { op: Op::Sub(DstSrcSrc { dst: R::W(6), src: [Src::ImmU32(1), Src::ImmU32(2)] }), pred: Pred::Always, exc: 0, size: 4 },
        Instr { op: Op::Sra(DstSrcSrc { dst: R::W(7), src: [Src::Reg(R::W(6)), Src::ImmU8(33)] }), pred: Pred::Always, exc: 0, size: 4 },
        Instr { op: Op::Srl(DstSrcSrc { dst: R::W(8), src: [Src::Reg(R::W(6)), Src::ImmU8(28)] }), pred: Pred::Always, exc: 0, size: 4 },
        Instr { op: Op::Nor(DstSrcSrc { dst: R::W(9), src: [Src::ImmU32(0xf0f0), Src::ImmU32(0x0f00)] }), pred: Pred::Always, exc: 0, size: 4 },
        Instr { op: Op::Sw(SrcSrcSrc { src: [Src::Reg(R::W(5)), Src::ImmI16(-4), Src::Reg(R::W(5))] }), pred: Pred::Always, exc: 0, size: 4 },
        Instr { op: Op::Add(DstSrcSrc { dst: R::Discard, src: [Src::ImmU32(1), Src::ImmU32(2)] }), pred: Pred::Always, exc: 0, size: 4 },
    ];
    assert_eq!(Ok(()), interpret_op_list(&block, &mut regs, &mut bus));
    assert_eq!(0xfffffff0, regs.read_u32(4));
    assert_eq!(0x10, regs.read_u32(5));
    assert_eq!(0xffffffff, regs.read_u32(6));
    assert_eq!(0xffffffff, regs.read_u32(7));
    assert_eq!(0xf, regs.read_u32(8));
    assert_eq!(0xffff000f, regs.read_u32(9));
    assert_eq!(ReadResult::Success(0x10), bus.read_u32(0xc));
    assert_eq!(32, regs.pc);
}

#[test]
fn interpreter_branches() {
    let mut regs = RegisterFile::new();
    let mut bus: BusMatrix<NoSlave> = BusMatrix::new();
    regs.pc = 0x100;
    regs.write_u32(1, 5);
    let not_taken = vec![Instr {
        op: Op::B(Cond::Eq, SrcSrcTarget { src: [Src::Reg(R::W(1)), Src::ImmU32(4)], target: Src::Addr(0x200) }),
        pred: Pred::Always,
        exc: 2,
        size: 8,
    }];
    assert_eq!(Ok(()), interpret_op_list(&not_taken, &mut regs, &mut bus));
    assert_eq!(0x108, regs.pc);
    let taken = vec![Instr {
        op: Op::B(Cond::Lt, SrcSrcTarget { src: [Src::ImmI16(-1), Src::Reg(R::W(1))], target: Src::Addr(0x200) }),
        pred: Pred::Always,
        exc: 2,
        size: 8,
    }];
    assert_eq!(Ok(()), interpret_op_list(&taken, &mut regs, &mut bus));
    assert_eq!(0x200, regs.pc);
}

#[test]
fn interpreter_refuses_what_it_does_not_know() {
    let mut regs = RegisterFile::new();
    let mut bus: BusMatrix<NoSlave> = BusMatrix::new();
    let block = vec![
        Instr { op: Op::Ld(DstSrc { dst: R::W(1), src: Src::ImmU32(3) }), pred: Pred::Always, exc: 0, size: 4 },
        Instr { op: Op::Divu(DstSrcSrc { dst: R::W(2), src: [Src::ImmU32(1), Src::ImmU32(0)] }), pred: Pred::Always, exc: 0, size: 4 },
        Instr { op: Op::Ld(DstSrc { dst: R::W(3), src: Src::ImmU32(3) }), pred: Pred::Always, exc: 0, size: 4 },
    ];
    assert!(matches!(interpret_op_list(&block, &mut regs, &mut bus), Err(Error::Unimplemented(_))));
    assert_eq!(3, regs.read_u32(1));
    assert_eq!(0, regs.read_u32(3));
    assert_eq!(4, regs.pc);
    let guarded = vec![Instr { op: Op::Nop, pred: Pred::Pred(R::P(0)), exc: 0, size: 4 }];
    assert!(matches!(interpret_op_list(&guarded, &mut regs, &mut bus), Err(Error::Unimplemented(_))));
    let wide = vec![Instr { op: Op::Ld(DstSrc { dst: R::X(1), src: Src::ImmU32(3) }), pred: Pred::Always, exc: 0, size: 4 }];
    assert!(matches!(interpret_op_list(&wide, &mut regs, &mut bus), Err(Error::Unimplemented(_))));
}

#[test]
fn register_file_lanes_are_little_endian() {
    let mut regs = RegisterFile::new();
    regs.write_u32(1023, 0x11223344);
    assert_eq!(0x11223344, regs.read_u32(1023));
    assert_eq!(vec![0x44, 0x33, 0x22, 0x11], regs.bytes[4092..4096].to_vec());
    assert_eq!(0, regs.read_u32(1022));
}

/// Logs its calls, under its name, in a log shared by several hooks.
#[derive(Clone)]
struct Named {
    name: u8,
    log: Arc<Mutex<Vec<(u8, u64, u64)>>>,
    answer: TraceExitHint,
}

impl Hook for Named {
    fn call(&self, pc: u64, size: u64) -> TraceExitHint {
        self.log.lock().unwrap().push((self.name, pc, size));
        self.answer
    }
}

#[test]
fn hooks_run_in_installation_order() {
    let log = Arc::new(Mutex::new(Vec::new()));
    let hook = |name: u8, answer: TraceExitHint| Named { name, log: log.clone(), answer };
    let mut system: System<NoSlave, Named> = System::new();
    system.add_mappable_range(PROT_ALL, ROM_BASE, ROM_SIZE).unwrap();
    // addiu at, zero, 1; addiu at, at, 2
    system.set_range(&[0x24, 0x01, 0x00, 0x01, 0x24, 0x21, 0x00, 0x02], ROM_BASE).unwrap();
    let cpu = system.register_cpu(CPU_ENDIAN_BIG, r2000()).unwrap();
    system.set_cpu_reg(&cpu, CpuReg::Pc, ROM_VIRT).unwrap();
    system.add_code_hook_single(ROM_VIRT + 4, hook(1, TraceExitHint::StopExecution)).unwrap();
    system.add_block_hook_all(hook(2, TraceExitHint::ContinueExecution)).unwrap();
    system.add_code_hook_single(ROM_VIRT + 4, hook(3, TraceExitHint::ContinueExecution)).unwrap();
    system.add_code_hook_single(ROM_VIRT, hook(4, TraceExitHint::ContinueExecution)).unwrap();
    assert_eq!(Ok(ExitReason::CodeHookSignalledStop), system.execute(&cpu));
    assert_eq!(Ok(ROM_VIRT + 8), system.get_cpu_reg(&cpu, CpuReg::Pc));
    assert_eq!(
        vec![(2, ROM_VIRT, 4), (4, ROM_VIRT, 4), (1, ROM_VIRT + 4, 4), (3, ROM_VIRT + 4, 4)],
        *log.lock().unwrap()
    );
}

#[test]
fn host_range_reaches_every_cpu() {
    let mut system: System<NoSlave, Tracer> = System::new();
    let cpu = system.register_cpu(CPU_ENDIAN_BIG, r2000()).unwrap();
    // ori at, at, 0x3456, in a page of its own
    let mut page = vec![0u8; 4096];
    page[0..4].copy_from_slice(&[0x34, 0x21, 0x34, 0x56]);
    assert_eq!(Ok(()), system.add_host_range(PROT_ALL, 0, 4096, page));
    system.set_cpu_reg(&cpu, CpuReg::Pc, 0x80000000).unwrap();
    system.add_code_hook_single(0x80000000, Tracer::new(TraceExitHint::StopExecution)).unwrap();
    assert_eq!(Ok(ExitReason::CodeHookSignalledStop), system.execute(&cpu));
    assert_eq!(Ok(0x3456), system.get_cpu_reg(&cpu, at()));
}
