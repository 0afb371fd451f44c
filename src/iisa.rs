//! The intermediate instruction set: the value vocabulary that translators
//! decode guest code into, and the per-CPU register file it acts upon.

use vstd::prelude::*;

use crate::mem::{same_layout, le_u32_at, lemma_put_u32_read_back, put_u32, BusMatrix, BusSlave, WriteResult};
use crate::{CpuReg, Error};

verus! {

/// A register of the intermediate instruction set.
#[derive(Clone, Copy, Debug, PartialEq, Eq, Structural)]
pub enum R {
    Ip,
    Discard,
    Zero,
    P(u8),
    Pred(u64),
    B(u16),
    H(u16),
    W(u16),
    X(u16),
    TP(u8),
    TPred(u64),
    TB(u16),
    TH(u16),
    TW(u16),
    TX(u16),
}

/// A source operand.
#[derive(Clone, Copy, Debug, PartialEq, Eq)]
pub enum Src {
    Reg(R),
    ImmU8(u8),
    ImmU16(u16),
    ImmU32(u32),
    ImmU64(u64),
    ImmI8(i8),
    ImmI16(i16),
    ImmI32(i32),
    ImmI64(i64),
    Addr(u64),
}

#[derive(Clone, Copy, Debug, PartialEq, Eq)]
pub struct DstSrcSrc {
    pub dst: R,
    pub src: [Src; 2],
}

#[derive(Clone, Copy, Debug, PartialEq, Eq)]
pub struct SrcSrcSrc {
    pub src: [Src; 3],
}

#[derive(Clone, Copy, Debug, PartialEq, Eq)]
pub struct DstSrc {
    pub dst: R,
    pub src: Src,
}

#[derive(Clone, Copy, Debug, PartialEq, Eq)]
pub struct SrcSrcTarget {
    pub src: [Src; 2],
    pub target: Src,
}

#[derive(Clone, Copy, Debug, PartialEq, Eq)]
pub enum Cond {
    Ne,
    Eq,
    Ge,
    Gt,
    Le,
    Lt,
}

#[derive(Clone, Copy, Debug, PartialEq, Eq)]
pub enum Op {
    Nop,
    Add(DstSrcSrc),
    Sub(DstSrcSrc),
    Div(DstSrcSrc),
    Divu(DstSrcSrc),
    Mod(DstSrcSrc),
    Modu(DstSrcSrc),
    And(DstSrcSrc),
    Or(DstSrcSrc),
    Nor(DstSrcSrc),
    Sll(DstSrcSrc),
    Sra(DstSrcSrc),
    Srl(DstSrcSrc),
    Xor(DstSrcSrc),
    SetIf(Cond, DstSrcSrc),
    Lb(DstSrcSrc),
    Lbs(DstSrcSrc),
    Lh(DstSrcSrc),
    Lw(DstSrcSrc),
    Sb(SrcSrcSrc),
    Sh(SrcSrcSrc),
    Sw(SrcSrcSrc),
    Ld(DstSrc),
    Call(Src),
    B(Cond, SrcSrcTarget),
    Exc,
    J(Src),
}

/// The guard of an instruction.
#[derive(Clone, Copy, Debug, PartialEq, Eq, Structural)]
pub enum Pred {
    Always,
    Pred(R),
    NotPred(R),
}

/// One decoded instruction: `exc` flags delay-slot semantics and `size` is
/// what the program counter advances by once the instruction retires.
#[derive(Clone, Copy, Debug, PartialEq, Eq)]
pub struct Instr {
    pub op: Op,
    pub pred: Pred,
    pub exc: u8,
    pub size: u8,
}

pub open spec fn ends_block(op: Op) -> bool {
    op is Call || op is B || op is Exc || op is J
}

/// Whether `op` transfers control and so closes a basic block.
pub fn is_end_of_block(op: &Op) -> (r: bool)
    ensures
        r == ends_block(*op),
{
    match *op {
        Op::Call(_) => true,
        Op::B(_, _) => true,
        Op::Exc => true,
        Op::J(_) => true,
        _ => false,
    }
}

/// Number of bytes of lane storage in a register file.
pub const REG_FILE_BYTES: usize = 4096;

/// Number of 32-bit lanes in a register file.
pub const REG_FILE_LANES: u16 = 1024;

/// Per-CPU guest register storage: 32-bit lanes kept little-endian in a
/// fixed block of bytes, plus the program counter.
pub struct RegisterFile {
    pub bytes: Vec<u8>,
    pub pc: u64,
}

impl RegisterFile {
    pub open spec fn bytes_view(&self) -> Seq<u8> {
        self.bytes@
    }

    pub open spec fn wf(&self) -> bool {
        self.bytes_view().len() == REG_FILE_BYTES
    }

    /// The value of 32-bit lane `reg`.
    pub open spec fn lane(&self, reg: int) -> u32 {
        le_u32_at(self.bytes_view(), 4 * reg)
    }

    pub fn new() -> (r: RegisterFile)
        ensures
            r.wf(),
            r.pc == 0,
            forall|i: int| 0 <= i < REG_FILE_LANES ==> #[trigger] r.lane(i) == 0,
    {
        let mut bytes: Vec<u8> = Vec::new();
        let mut i: usize = 0;
        while i < REG_FILE_BYTES
            invariant
                i <= REG_FILE_BYTES,
                bytes@.len() == i,
                forall|j: int| 0 <= j < i ==> bytes@[j] == 0,
            decreases REG_FILE_BYTES - i,
        {
            bytes.push(0);
            i = i + 1;
        }
        let r = RegisterFile { bytes, pc: 0 };
        assert forall|i: int| 0 <= i < REG_FILE_LANES implies #[trigger] r.lane(i) == 0 by {
            assert(0u8 as u32 | ((0u8 as u32) << 8u32) | ((0u8 as u32) << 16u32) | ((0u8 as u32)
                << 24u32) == 0) by (bit_vector);
        }
        r
    }

    /// Stores `value` in lane `reg`; every other lane and the program
    /// counter keep their values.
    pub fn write_u32(&mut self, reg: u16, value: u32)
        requires
            old(self).wf(),
            reg < REG_FILE_LANES,
        ensures
            final(self).wf(),
            final(self).pc == old(self).pc,
            final(self).lane(reg as int) == value,
            forall|i: int|
                0 <= i < REG_FILE_LANES && i != reg ==> #[trigger] final(self).lane(i) == old(
                    self,
                ).lane(i),
    {
        let off: usize = (reg as usize) * 4;
        self.bytes.set(off, (value & 0xff) as u8);
        self.bytes.set(off + 1, ((value >> 8u32) & 0xff) as u8);
        self.bytes.set(off + 2, ((value >> 16u32) & 0xff) as u8);
        self.bytes.set(off + 3, ((value >> 24u32) & 0xff) as u8);
        let ghost b = self.bytes@;
        proof {
            assert(b == put_u32(old(self).bytes@, off as int, value));
            lemma_put_u32_read_back(old(self).bytes@, off as int, value);
        }
        assert forall|i: int|
            0 <= i < REG_FILE_LANES && i != reg implies #[trigger] self.lane(i) == old(self).lane(
            i,
        ) by {
            assert(b[4 * i] == old(self).bytes@[4 * i]);
            assert(b[4 * i + 1] == old(self).bytes@[4 * i + 1]);
            assert(b[4 * i + 2] == old(self).bytes@[4 * i + 2]);
            assert(b[4 * i + 3] == old(self).bytes@[4 * i + 3]);
        }
    }

    /// The value of lane `reg`.
    pub fn read_u32(&self, reg: u16) -> (r: u32)
        requires
            self.wf(),
            reg < REG_FILE_LANES,
        ensures
            r == self.lane(reg as int),
    {
        let off: usize = (reg as usize) * 4;
        (self.bytes[off] as u32) | ((self.bytes[off + 1] as u32) << 8u32) | ((self.bytes[off
            + 2] as u32) << 16u32) | ((self.bytes[off + 3] as u32) << 24u32)
    }
}

/// The 32-bit value of a source operand: a lane, zero, or an immediate
/// zero- or sign-extended to 32 bits; `None` for operands that are no
/// 32-bit value.
pub open spec fn src_value(regs: RegisterFile, s: Src) -> Option<u32> {
    match s {
        Src::Reg(R::W(n)) => if n < REG_FILE_LANES {
            Some(regs.lane(n as int))
        } else {
            None
        },
        Src::Reg(R::Zero) => Some(0),
        Src::ImmU8(v) => Some(v as u32),
        Src::ImmU16(v) => Some(v as u32),
        Src::ImmU32(v) => Some(v),
        Src::ImmI8(v) => Some(v as i32 as u32),
        Src::ImmI16(v) => Some(v as i32 as u32),
        Src::ImmI32(v) => Some(v as u32),
        _ => None,
    }
}

/// The operands of a two-source arithmetic or logic operation.
pub open spec fn alu_operands(op: Op) -> Option<DstSrcSrc> {
    match op {
        Op::Add(d) => Some(d),
        Op::Sub(d) => Some(d),
        Op::And(d) => Some(d),
        Op::Or(d) => Some(d),
        Op::Nor(d) => Some(d),
        Op::Xor(d) => Some(d),
        Op::Sll(d) => Some(d),
        Op::Srl(d) => Some(d),
        Op::Sra(d) => Some(d),
        _ => None,
    }
}

/// The result of a two-source operation on 32-bit lanes: arithmetic wraps
/// in two's complement, shifts take the low five bits of their amount.
pub open spec fn alu(op: Op, a: u32, b: u32) -> u32 {
    match op {
        Op::Add(_) => ((a as int + b as int) % 0x1_0000_0000) as u32,
        Op::Sub(_) => ((a as int - b as int + 0x1_0000_0000) % 0x1_0000_0000) as u32,
        Op::And(_) => a & b,
        Op::Or(_) => a | b,
        Op::Nor(_) => !(a | b),
        Op::Xor(_) => a ^ b,
        Op::Sll(_) => a << (b & 31),
        Op::Srl(_) => a >> (b & 31),
        _ => ((a as i32) >> (b & 31)) as u32,
    }
}

/// Whether a branch condition holds of two lanes, compared as signed
/// numbers for the orderings.
pub open spec fn cond_holds(c: Cond, a: u32, b: u32) -> bool {
    match c {
        Cond::Ne => a != b,
        Cond::Eq => a == b,
        Cond::Ge => (a as i32) >= (b as i32),
        Cond::Gt => (a as i32) > (b as i32),
        Cond::Le => (a as i32) <= (b as i32),
        Cond::Lt => (a as i32) < (b as i32),
    }
}

/// What one instruction does to the machine.
pub enum Effect {
    /// Lane `n` takes a value.
    SetLane(u16, u32),
    /// Nothing but the advance of the program counter.
    Advance,
    /// A 32-bit store on the bus.
    Store(u64, u32),
    /// Control moves to an address.
    Jump(u64),
    /// The instruction is beyond this interpreter.
    Fault,
}

/// Writing `v` to the destination `d`.
pub open spec fn dest_effect(d: R, v: u32) -> Effect {
    match d {
        R::W(n) => if n < REG_FILE_LANES {
            Effect::SetLane(n, v)
        } else {
            Effect::Fault
        },
        R::Discard => Effect::Advance,
        _ => Effect::Fault,
    }
}

/// What instruction `i` does when run on `regs`.
pub open spec fn effect(i: Instr, regs: RegisterFile) -> Effect {
    if i.pred != Pred::Always {
        Effect::Fault
    } else {
        match i.op {
            Op::Nop => Effect::Advance,
            Op::Ld(d) => match src_value(regs, d.src) {
                Some(v) => dest_effect(d.dst, v),
                None => Effect::Fault,
            },
            Op::Sw(s) => match (
                src_value(regs, s.src[0]),
                src_value(regs, s.src[1]),
                src_value(regs, s.src[2]),
            ) {
                (Some(v), Some(off), Some(base)) => Effect::Store(
                    ((base as int + off as int) % 0x1_0000_0000) as u64,
                    v,
                ),
                _ => Effect::Fault,
            },
            Op::B(c, t) => match (src_value(regs, t.src[0]), src_value(regs, t.src[1]), t.target) {
                (Some(a), Some(b), Src::Addr(x)) => if cond_holds(c, a, b) {
                    Effect::Jump(x)
                } else {
                    Effect::Advance
                },
                _ => Effect::Fault,
            },
            _ => match alu_operands(i.op) {
                Some(d) => match (src_value(regs, d.src[0]), src_value(regs, d.src[1])) {
                    (Some(a), Some(b)) => dest_effect(d.dst, alu(i.op, a, b)),
                    _ => Effect::Fault,
                },
                None => Effect::Fault,
            },
        }
    }
}

/// The program counter `pc` advanced by `size` bytes.
pub open spec fn advanced(pc: u64, size: u8) -> u64 {
    ((pc as int + size as int) % 0x1_0000_0000_0000_0000) as u64
}

/// `new` is `old` with only the program counter moved to `pc`.
pub open spec fn moved_to(old: RegisterFile, new: RegisterFile, pc: u64) -> bool {
    new.bytes@ == old.bytes@ && new.pc == pc
}

/// Running instruction `i` took registers `r0` and bus `b0` to `r1` and
/// `b1`, and answered `res`.
pub open spec fn stepped<S: BusSlave>(
    i: Instr,
    r0: RegisterFile,
    r1: RegisterFile,
    b0: BusMatrix<S>,
    b1: BusMatrix<S>,
    res: Result<(), Error>,
) -> bool {
    match effect(i, r0) {
        Effect::Fault => res is Err && res->Err_0 is Unimplemented && r1 == r0 && b1 == b0,
        Effect::Advance => res is Ok && moved_to(r0, r1, advanced(r0.pc, i.size)) && b1 == b0,
        Effect::Jump(x) => res is Ok && moved_to(r0, r1, x) && b1 == b0,
        Effect::SetLane(n, v) => {
            &&& res is Ok
            &&& r1.wf()
            &&& r1.pc == advanced(r0.pc, i.size)
            &&& r1.lane(n as int) == v
            &&& forall|j: int| 0 <= j < REG_FILE_LANES && j != n ==> #[trigger] r1.lane(j) == r0.lane(j)
            &&& b1 == b0
        },
        Effect::Store(addr, v) => if res is Ok {
            moved_to(r0, r1, advanced(r0.pc, i.size)) && BusMatrix::write_u32_done(
                b0,
                b1,
                addr,
                v,
                WriteResult::Success,
            )
        } else {
            &&& res == Err::<(), Error>(Error::UnableToFindRange(addr, 4))
            &&& r1 == r0
            &&& (BusMatrix::write_u32_done(b0, b1, addr, v, WriteResult::BusError)
                || BusMatrix::write_u32_done(b0, b1, addr, v, WriteResult::Unaligned))
        },
    }
}

/// The first `k` instructions of `instrs` ran without error through the
/// states `regs` and `buses`.
pub open spec fn ran<S: BusSlave>(
    instrs: Seq<Instr>,
    regs: Seq<RegisterFile>,
    buses: Seq<BusMatrix<S>>,
    k: int,
) -> bool {
    &&& 0 <= k <= instrs.len()
    &&& regs.len() == k + 1
    &&& buses.len() == k + 1
    &&& forall|j: int|
        0 <= j < k ==> stepped(instrs[j], #[trigger] regs[j], regs[j + 1], buses[j], buses[j + 1], Ok(()))
}

fn advance(pc: u64, size: u8) -> (r: u64)
    ensures
        r == advanced(pc, size),
{
    let n = size as u64;
    if pc <= u64::MAX - n {
        pc + n
    } else {
        pc - (u64::MAX - n) - 1
    }
}

/// Running the block `instrs` took `r0` and `b0` to `r1` and `b1` and
/// answered `res`: every instruction ran in order, or a prefix ran and the
/// next one failed with `res`.
pub open spec fn block_ran<S: BusSlave>(
    instrs: Seq<Instr>,
    r0: RegisterFile,
    r1: RegisterFile,
    b0: BusMatrix<S>,
    b1: BusMatrix<S>,
    res: Result<(), Error>,
) -> bool {
    &&& res is Ok ==> exists|rs: Seq<RegisterFile>, bs: Seq<BusMatrix<S>>|
        #[trigger] ran(instrs, rs, bs, instrs.len() as int) && rs[0] == r0 && bs[0] == b0
            && rs.last() == r1 && bs.last() == b1
    &&& res is Err ==> exists|rs: Seq<RegisterFile>, bs: Seq<BusMatrix<S>>, k: int|
        #[trigger] ran(instrs, rs, bs, k) && k < instrs.len() && rs[0] == r0 && bs[0] == b0
            && stepped(instrs[k], rs[k], r1, bs[k], b1, res)
}

fn read_src(regs: &RegisterFile, s: Src) -> (r: Option<u32>)
    requires
        regs.wf(),
    ensures
        r == src_value(*regs, s),
{
    match s {
        Src::Reg(R::W(n)) => if n < REG_FILE_LANES {
            Some(regs.read_u32(n))
        } else {
            None
        },
        Src::Reg(R::Zero) => Some(0),
        Src::ImmU8(v) => Some(v as u32),
        Src::ImmU16(v) => Some(v as u32),
        Src::ImmU32(v) => Some(v),
        Src::ImmI8(v) => Some(v as i32 as u32),
        Src::ImmI16(v) => Some(v as i32 as u32),
        Src::ImmI32(v) => Some(v as u32),
        _ => None,
    }
}

fn alu_exec(op: &Op, a: u32, b: u32) -> (r: u32)
    requires
        alu_operands(*op) is Some,
    ensures
        r == alu(*op, a, b),
{
    match op {
        Op::Add(_) => ((a as u64 + b as u64) % 0x1_0000_0000) as u32,
        Op::Sub(_) => ((a as u64 + 0x1_0000_0000 - b as u64) % 0x1_0000_0000) as u32,
        Op::And(_) => a & b,
        Op::Or(_) => a | b,
        Op::Nor(_) => !(a | b),
        Op::Xor(_) => a ^ b,
        Op::Sll(_) => {
            assert(b & 31 < 32) by (bit_vector);
            a << (b & 31)
        },
        Op::Srl(_) => {
            assert(b & 31 < 32) by (bit_vector);
            a >> (b & 31)
        },
        _ => {
            assert(b & 31 < 32) by (bit_vector);
            ((a as i32) >> (b & 31)) as u32
        },
    }
}

fn cond_exec(c: Cond, a: u32, b: u32) -> (r: bool)
    ensures
        r == cond_holds(c, a, b),
{
    match c {
        Cond::Ne => a != b,
        Cond::Eq => a == b,
        Cond::Ge => (a as i32) >= (b as i32),
        Cond::Gt => (a as i32) > (b as i32),
        Cond::Le => (a as i32) <= (b as i32),
        Cond::Lt => (a as i32) < (b as i32),
    }
}

fn unimplemented_instr() -> (e: Error)
    ensures
        e is Unimplemented,
{
    Error::Unimplemented("unknown iisa instruction".to_owned())
}

/// Writes `v` to the destination `d` and advances the program counter by
/// `size`.
fn write_dest(d: R, v: u32, size: u8, regs: &mut RegisterFile) -> (r: Result<(), Error>)
    requires
        old(regs).wf(),
    ensures
        match dest_effect(d, v) {
            Effect::SetLane(n, x) => {
                &&& r is Ok
                &&& final(regs).wf()
                &&& final(regs).pc == advanced(old(regs).pc, size)
                &&& final(regs).lane(n as int) == x
                &&& forall|j: int|
                    0 <= j < REG_FILE_LANES && j != n ==> #[trigger] final(regs).lane(j) == old(
                        regs,
                    ).lane(j)
            },
            Effect::Advance => r is Ok && moved_to(
                *old(regs),
                *final(regs),
                advanced(old(regs).pc, size),
            ),
            _ => r is Err && r->Err_0 is Unimplemented && *final(regs) == *old(regs),
        },
{
    match d {
        R::W(n) => {
            if n >= REG_FILE_LANES {
                return Err(unimplemented_instr());
            }
            regs.write_u32(n, v);
            let ghost mid = *regs;
            regs.pc = advance(regs.pc, size);
            assert forall|j: int| 0 <= j < REG_FILE_LANES implies #[trigger] regs.lane(j) == mid.lane(j) by {
                assert(regs.bytes@ == mid.bytes@);
            }
            return Ok(());
        },
        R::Discard => {},
        _ => {
            return Err(unimplemented_instr());
        },
    }
    regs.pc = advance(regs.pc, size);
    Ok(())
}

fn exec_load<S: BusSlave>(instr: &Instr, d: DstSrc, regs: &mut RegisterFile, bus: &BusMatrix<S>) -> (r:
    Result<(), Error>)
    requires
        old(regs).wf(),
        instr.pred == Pred::Always,
        instr.op == Op::Ld(d),
    ensures
        final(regs).wf(),
        stepped(*instr, *old(regs), *final(regs), *bus, *bus, r),
{
    match read_src(regs, d.src) {
        Some(v) => write_dest(d.dst, v, instr.size, regs),
        None => Err(unimplemented_instr()),
    }
}

fn exec_store<S: BusSlave>(
    instr: &Instr,
    s: SrcSrcSrc,
    regs: &mut RegisterFile,
    bus: &mut BusMatrix<S>,
) -> (r: Result<(), Error>)
    requires
        old(regs).wf(),
        old(bus).wf(),
        instr.pred == Pred::Always,
        instr.op == Op::Sw(s),
    ensures
        final(regs).wf(),
        final(bus).wf(),
        same_layout(old(bus)@, final(bus)@),
        stepped(*instr, *old(regs), *final(regs), *old(bus), *final(bus), r),
{
    let v = read_src(regs, s.src[0]);
    let off = read_src(regs, s.src[1]);
    let base = read_src(regs, s.src[2]);
    match (v, off, base) {
        (Some(v), Some(off), Some(base)) => {
            let addr = ((base as u64 + off as u64) % 0x1_0000_0000) as u64;
            assert(effect(*instr, *regs) == Effect::Store(addr, v));
            let w = bus.write_u32(addr, v);
            match w {
                WriteResult::Success => {
                    regs.pc = advance(regs.pc, instr.size);
                    Ok(())
                },
                _ => Err(Error::UnableToFindRange(addr, 4)),
            }
        },
        _ => Err(unimplemented_instr()),
    }
}

fn exec_branch<S: BusSlave>(
    instr: &Instr,
    c: Cond,
    t: SrcSrcTarget,
    regs: &mut RegisterFile,
    bus: &BusMatrix<S>,
) -> (r: Result<(), Error>)
    requires
        old(regs).wf(),
        instr.pred == Pred::Always,
        instr.op == Op::B(c, t),
    ensures
        final(regs).wf(),
        stepped(*instr, *old(regs), *final(regs), *bus, *bus, r),
{
    let a = read_src(regs, t.src[0]);
    let b = read_src(regs, t.src[1]);
    match (a, b, t.target) {
        (Some(a), Some(b), Src::Addr(x)) => {
            if cond_exec(c, a, b) {
                regs.pc = x;
            } else {
                regs.pc = advance(regs.pc, instr.size);
            }
            Ok(())
        },
        _ => Err(unimplemented_instr()),
    }
}

fn exec_alu<S: BusSlave>(instr: &Instr, d: DstSrcSrc, regs: &mut RegisterFile, bus: &BusMatrix<S>) -> (r:
    Result<(), Error>)
    requires
        old(regs).wf(),
        instr.pred == Pred::Always,
        alu_operands(instr.op) == Some(d),
        !(instr.op is Nop || instr.op is Ld || instr.op is Sw || instr.op is B),
    ensures
        final(regs).wf(),
        stepped(*instr, *old(regs), *final(regs), *bus, *bus, r),
{
    let a = read_src(regs, d.src[0]);
    let b = read_src(regs, d.src[1]);
    match (a, b) {
        (Some(a), Some(b)) => {
            let v = alu_exec(&instr.op, a, b);
            write_dest(d.dst, v, instr.size, regs)
        },
        _ => Err(unimplemented_instr()),
    }
}

/// Runs one instruction.
fn interpret_instr<S: BusSlave>(instr: &Instr, regs: &mut RegisterFile, bus: &mut BusMatrix<S>) -> (r:
    Result<(), Error>)
    requires
        old(regs).wf(),
        old(bus).wf(),
    ensures
        final(regs).wf(),
        final(bus).wf(),
        same_layout(old(bus)@, final(bus)@),
        stepped(*instr, *old(regs), *final(regs), *old(bus), *final(bus), r),
{
    if instr.pred != Pred::Always {
        return Err(unimplemented_instr());
    }
    match instr.op {
        Op::Nop => {
            regs.pc = advance(regs.pc, instr.size);
            Ok(())
        },
        Op::Ld(d) => exec_load(instr, d, regs, bus),
        Op::Sw(s) => exec_store(instr, s, regs, bus),
        Op::B(c, t) => exec_branch(instr, c, t, regs, bus),
        Op::Add(d) | Op::Sub(d) | Op::And(d) | Op::Or(d) | Op::Nor(d) | Op::Xor(d) | Op::Sll(d)
        | Op::Srl(d) | Op::Sra(d) => exec_alu(instr, d, regs, bus),
        _ => Err(unimplemented_instr()),
    }
}

/// Runs a block of instructions in order, each advancing the program
/// counter by its size or transferring control; stops at the first
/// instruction that fails.
pub fn interpret_op_list<S: BusSlave>(
    instrs: &Vec<Instr>,
    regs: &mut RegisterFile,
    bus: &mut BusMatrix<S>,
) -> (r: Result<(), Error>)
    requires
        old(regs).wf(),
        old(bus).wf(),
    ensures
        final(regs).wf(),
        final(bus).wf(),
        same_layout(old(bus)@, final(bus)@),
        block_ran(instrs@, *old(regs), *final(regs), *old(bus), *final(bus), r),
{
    let ghost mut rs: Seq<RegisterFile> = seq![*regs];
    let ghost mut bs: Seq<BusMatrix<S>> = seq![*bus];
    let mut i: usize = 0;
    while i < instrs.len()
        invariant
            regs.wf(),
            bus.wf(),
            i <= instrs@.len(),
            ran(instrs@, rs, bs, i as int),
            rs[0] == *old(regs),
            bs[0] == *old(bus),
            rs.last() == *regs,
            bs.last() == *bus,
            same_layout(old(bus)@, bus@),
        decreases instrs@.len() - i,
    {
        let ghost r0 = *regs;
        let ghost b0 = *bus;
        let res = interpret_instr(&instrs[i], regs, bus);
        if res.is_err() {
            assert(ran(instrs@, rs, bs, i as int));
            return res;
        }
        proof {
            let rs2 = rs.push(*regs);
            let bs2 = bs.push(*bus);
            assert forall|j: int| 0 <= j < i + 1 implies stepped(
                instrs@[j],
                #[trigger] rs2[j],
                rs2[j + 1],
                bs2[j],
                bs2[j + 1],
                Ok(()),
            ) by {
                if j < i {
                    assert(rs2[j] == rs[j] && rs2[j + 1] == rs[j + 1]);
                    assert(bs2[j] == bs[j] && bs2[j + 1] == bs[j + 1]);
                } else {
                    assert(rs2[j] == r0 && bs2[j] == b0);
                }
            }
            rs = rs2;
            bs = bs2;
        }
        i = i + 1;
    }
    Ok(())
}

/// The architecture-specific half of a CPU: decoding guest code into the
/// intermediate instruction set, mapping virtual to physical addresses, and the mapping of
/// named registers onto the register file.
pub trait Translator: Sized {
    /// The block that `decode` yields for the guest code `buffer` found at
    /// `base`, or `None` when it is no instruction this translator knows.
    spec fn spec_decode(&self, base: u64, buffer: Seq<u8>) -> Option<Seq<Instr>>;

    /// The physical address behind the virtual address `addr`, if mapped.
    spec fn spec_virtual_to_phys(&self, addr: u64) -> Option<u64>;

    /// What `get_reg` answers for `reg` on `regs`.
    spec fn spec_get_reg(&self, regs: RegisterFile, reg: CpuReg) -> Result<u64, Error>;

    /// The error that `set_reg` of `value` into `reg` fails with, if any.
    spec fn spec_set_reg_error(&self, reg: CpuReg, value: u64) -> Option<Error>;

    /// `new` is `old` after a successful `set_reg` of `value` into `reg`.
    spec fn spec_set_reg_done(&self, old: RegisterFile, new: RegisterFile, reg: CpuReg, value: u64) -> bool;

    fn decode(&self, base: u64, buffer: &[u8]) -> (r: Result<Vec<Instr>, Error>)
        ensures
            match r {
                Ok(v) => self.spec_decode(base, buffer@) == Some(v@),
                Err(e) => self.spec_decode(base, buffer@) is None && e is Unimplemented,
            },
    ;

    fn virtual_to_phys(&self, registers: &RegisterFile, addr: u64) -> (r: Option<u64>)
        ensures
            r == self.spec_virtual_to_phys(addr),
    ;

    fn set_reg(&mut self, registers: &mut RegisterFile, reg: CpuReg, value: u64) -> (r: Result<
        (),
        Error,
    >)
        requires
            old(registers).wf(),
        ensures
            *final(self) == *old(self),
            final(registers).wf(),
            match old(self).spec_set_reg_error(reg, value) {
                Some(e) => r == Err::<(), Error>(e) && *final(registers) == *old(registers),
                None => r == Ok::<(), Error>(()) && old(self).spec_set_reg_done(
                    *old(registers),
                    *final(registers),
                    reg,
                    value,
                ),
            },
    ;

    fn get_reg(&self, registers: &RegisterFile, reg: CpuReg) -> (r: Result<u64, Error>)
        requires
            registers.wf(),
        ensures
            r == self.spec_get_reg(*registers, reg),
    ;
}

} // verus!
