//! Decoding of MIPS32 code into the intermediate instruction set, and the
//! MIPS view of the register file and of its virtual address map.

use vstd::arithmetic::div_mod::{lemma_add_mod_noop_right, lemma_mod_add_multiples_vanish};
use vstd::prelude::*;

use super::Arch;
use crate::iisa::{
    Cond,
    DstSrc,
    DstSrcSrc,
    Instr,
    Op,
    Pred,
    R,
    RegisterFile,
    Src,
    SrcSrcSrc,
    SrcSrcTarget,
    Translator,
};
use crate::{CpuReg, Error};

verus! {

/// A translator for one MIPS core, fetching instruction words in the given
/// byte order.
#[derive(Clone, Copy, Debug, PartialEq, Eq, Structural)]
pub struct MipsTranslator {
    pub arch: Arch,
    pub big_endian: bool,
}

/// The base instruction set of a core.
#[derive(Clone, Copy, Debug, PartialEq, Eq, Structural)]
enum BaseIsa {
    Mips32,
    Mips64,
}

pub open spec fn is_mips64(arch: Arch) -> bool {
    arch == Arch::VR4300
}

fn isa_for_arch(arch: &Arch) -> (r: BaseIsa)
    ensures
        (r == BaseIsa::Mips64) == is_mips64(*arch),
{
    match *arch {
        Arch::R2000 => BaseIsa::Mips32,
        Arch::Sys161 => BaseIsa::Mips32,
        Arch::VR4300 => BaseIsa::Mips64,
        Arch::Mips4Kc => BaseIsa::Mips32,
    }
}

/// The instruction word held by the four bytes of `b` from `at` on.
pub open spec fn word_at(b: Seq<u8>, at: int, big_endian: bool) -> u32 {
    if big_endian {
        ((b[at] as u32) << 24u32) | ((b[at + 1] as u32) << 16u32) | ((b[at + 2] as u32) << 8u32)
            | (b[at + 3] as u32)
    } else {
        ((b[at + 3] as u32) << 24u32) | ((b[at + 2] as u32) << 16u32) | ((b[at + 1] as u32)
            << 8u32) | (b[at] as u32)
    }
}

/// The fields of an instruction word.
pub open spec fn opcode_of(w: u32) -> u32 {
    w >> 26u32
}

pub open spec fn rs_of(w: u32) -> u8 {
    ((w >> 21u32) & 31) as u8
}

pub open spec fn rt_of(w: u32) -> u8 {
    ((w >> 16u32) & 31) as u8
}

pub open spec fn rd_of(w: u32) -> u8 {
    ((w >> 11u32) & 31) as u8
}

pub open spec fn shamt_of(w: u32) -> u32 {
    (w >> 6u32) & 31
}

pub open spec fn funct_of(w: u32) -> u32 {
    w & 63
}

pub open spec fn imm_of(w: u32) -> u16 {
    (w & 0xffff) as u16
}

/// A general-purpose register as a destination: register 0 discards.
pub open spec fn spec_dest_gpr(n: u8) -> R {
    if n == 0 {
        R::Discard
    } else {
        R::W(n as u16)
    }
}

/// A general-purpose register as a source: register 0 reads as zero.
pub open spec fn spec_src_gpr(n: u8) -> Src {
    if n == 0 {
        Src::ImmU32(0)
    } else {
        Src::Reg(R::W(n as u16))
    }
}

/// `beq rs, rt, offset`.
pub open spec fn is_beq(w: u32) -> bool {
    opcode_of(w) == 4
}

/// The target of a branch at `base` with the 16-bit word offset `imm`:
/// `base + 4 + 4 * imm`, `imm` sign-extended, kept to 32 bits.
pub open spec fn branch_target(base: u64, imm: u16) -> u64 {
    ((base as int + 4 + 4 * (imm as i16) as int) % 0x1_0000_0000) as u64
}

/// The operation of a MIPS32 instruction word other than a branch, if this
/// translator knows it.
pub open spec fn spec_op_of(w: u32) -> Option<Op> {
    let op = opcode_of(w);
    if op == 0x09 {
        Some(
            Op::Add(
                DstSrcSrc {
                    dst: spec_dest_gpr(rt_of(w)),
                    src: [spec_src_gpr(rs_of(w)), Src::ImmI16(imm_of(w) as i16)],
                },
            ),
        )
    } else if op == 0 && funct_of(w) == 0x21 && shamt_of(w) == 0 {
        Some(
            Op::Add(
                DstSrcSrc {
                    dst: spec_dest_gpr(rd_of(w)),
                    src: [spec_src_gpr(rs_of(w)), spec_src_gpr(rt_of(w))],
                },
            ),
        )
    } else if op == 0x0d {
        Some(
            Op::Or(
                DstSrcSrc {
                    dst: spec_dest_gpr(rt_of(w)),
                    src: [spec_src_gpr(rs_of(w)), Src::ImmU16(imm_of(w))],
                },
            ),
        )
    } else if op == 0x0f && rs_of(w) == 0 {
        Some(
            Op::Ld(
                DstSrc {
                    dst: spec_dest_gpr(rt_of(w)),
                    src: Src::ImmU32((imm_of(w) as u32) << 16u32),
                },
            ),
        )
    } else if op == 0x2b {
        Some(
            Op::Sw(
                SrcSrcSrc {
                    src: [
                        spec_src_gpr(rt_of(w)),
                        Src::ImmI16(imm_of(w) as i16),
                        spec_src_gpr(rs_of(w)),
                    ],
                },
            ),
        )
    } else {
        None
    }
}

/// The block for the MIPS32 code `b` at `base`: one instruction of four
/// bytes, or a branch whose delay slot comes first and retires with it
/// under one advance of eight bytes. A branch in a delay slot is refused.
pub open spec fn mips32_block(base: u64, b: Seq<u8>, big_endian: bool) -> Option<Seq<Instr>> {
    if b.len() < 4 {
        None
    } else {
        let w = word_at(b, 0, big_endian);
        if is_beq(w) {
            if b.len() < 8 {
                None
            } else {
                let slot = word_at(b, 4, big_endian);
                if is_beq(slot) {
                    None
                } else {
                    match spec_op_of(slot) {
                        Some(op) => Some(
                            seq![
                                Instr { op, pred: Pred::Always, exc: 1, size: 0 },
                                Instr {
                                    op: Op::B(
                                        Cond::Eq,
                                        SrcSrcTarget {
                                            src: [spec_src_gpr(rs_of(w)), spec_src_gpr(rt_of(w))],
                                            target: Src::Addr(branch_target(base, imm_of(w))),
                                        },
                                    ),
                                    pred: Pred::Always,
                                    exc: 2,
                                    size: 8,
                                },
                            ],
                        ),
                        None => None,
                    }
                }
            }
        } else {
            match spec_op_of(w) {
                Some(op) => Some(seq![Instr { op, pred: Pred::Always, exc: 0, size: 4 }]),
                None => None,
            }
        }
    }
}

fn dest_gpr(gpr_num: u8) -> (r: R)
    ensures
        r == spec_dest_gpr(gpr_num),
{
    match gpr_num {
        0 => R::Discard,
        _ => R::W(gpr_num as u16),
    }
}

fn src_gpr(gpr_num: u8) -> (r: Src)
    ensures
        r == spec_src_gpr(gpr_num),
{
    match gpr_num {
        0 => Src::ImmU32(0),
        _ => Src::Reg(R::W(gpr_num as u16)),
    }
}

fn src_i16(imm: i16) -> (r: Src)
    ensures
        r == Src::ImmI16(imm),
{
    Src::ImmI16(imm)
}

fn src_u16(imm: u16) -> (r: Src)
    ensures
        r == Src::ImmU16(imm),
{
    Src::ImmU16(imm)
}

fn src_u32(imm: u32) -> (r: Src)
    ensures
        r == Src::ImmU32(imm),
{
    Src::ImmU32(imm)
}

/// The value stored by `sw`: register 0 stores zero.
fn sw_src(gpr_num: u8) -> (r: Src)
    ensures
        r == spec_src_gpr(gpr_num),
{
    match gpr_num {
        0 => Src::ImmU32(0),
        _ => Src::Reg(R::W(gpr_num as u16)),
    }
}

fn fetch_word(buffer: &[u8], at: usize, big_endian: bool) -> (w: u32)
    requires
        at + 4 <= buffer@.len(),
    ensures
        w == word_at(buffer@, at as int, big_endian),
{
    let len = buffer.len();
    assert(at + 4 <= len);
    if big_endian {
        ((buffer[at] as u32) << 24u32) | ((buffer[at + 1] as u32) << 16u32) | ((buffer[at + 2]
            as u32) << 8u32) | (buffer[at + 3] as u32)
    } else {
        ((buffer[at + 3] as u32) << 24u32) | ((buffer[at + 2] as u32) << 16u32) | ((buffer[at
            + 1] as u32) << 8u32) | (buffer[at] as u32)
    }
}

/// The operation of an instruction word other than a branch.
fn op_of(w: u32) -> (r: Option<Op>)
    ensures
        r == spec_op_of(w),
{
    let op = w >> 26u32;
    let rs = ((w >> 21u32) & 31) as u8;
    let rt = ((w >> 16u32) & 31) as u8;
    let rd = ((w >> 11u32) & 31) as u8;
    let imm = (w & 0xffff) as u16;
    if op == 0x09 {
        Some(Op::Add(DstSrcSrc { dst: dest_gpr(rt), src: [src_gpr(rs), src_i16(imm as i16)] }))
    } else if op == 0 && (w & 63) == 0x21 && ((w >> 6u32) & 31) == 0 {
        Some(Op::Add(DstSrcSrc { dst: dest_gpr(rd), src: [src_gpr(rs), src_gpr(rt)] }))
    } else if op == 0x0d {
        Some(Op::Or(DstSrcSrc { dst: dest_gpr(rt), src: [src_gpr(rs), src_u16(imm)] }))
    } else if op == 0x0f && rs == 0 {
        Some(Op::Ld(DstSrc { dst: dest_gpr(rt), src: src_u32((imm as u32) << 16u32) }))
    } else if op == 0x2b {
        Some(Op::Sw(SrcSrcSrc { src: [sw_src(rt), src_i16(imm as i16), src_gpr(rs)] }))
    } else {
        None
    }
}

fn unknown_instruction() -> (e: Error)
    ensures
        e is Unimplemented,
{
    Error::Unimplemented("mips32 instruction not implemented".to_owned())
}

/// Decodes the MIPS32 instruction at the start of `buffer`, found at guest
/// address `base`; a branch takes its delay slot along.
fn decode_mips32(base: u64, buffer: &[u8], big_endian: bool) -> (r: Result<Vec<Instr>, Error>)
    ensures
        match r {
            Ok(v) => mips32_block(base, buffer@, big_endian) == Some(v@),
            Err(e) => mips32_block(base, buffer@, big_endian) is None && e is Unimplemented,
        },
{
    if buffer.len() < 4 {
        return Err(Error::Unimplemented("truncated mips32 instruction".to_owned()));
    }
    let w = fetch_word(buffer, 0, big_endian);
    if (w >> 26u32) == 4 {
        if buffer.len() < 8 {
            return Err(Error::Unimplemented("branch without its delay slot".to_owned()));
        }
        let slot = fetch_word(buffer, 4, big_endian);
        if (slot >> 26u32) == 4 {
            return Err(Error::Unimplemented("branch in a delay slot".to_owned()));
        }
        let slot_op = match op_of(slot) {
            Some(op) => op,
            None => {
                return Err(unknown_instruction());
            },
        };
        let rs = ((w >> 21u32) & 31) as u8;
        let rt = ((w >> 16u32) & 31) as u8;
        let imm = (w & 0xffff) as u16;
        let offset: i64 = (imm as i16) as i64 * 4;
        assert(base & 0xffff_ffff == base % 0x1_0000_0000) by (bit_vector);
        let target = ((((base & 0xffff_ffff) as i64) + 4 + offset + 0x1_0000_0000)
            % 0x1_0000_0000) as u64;
        proof {
            let m: int = 0x1_0000_0000;
            let y: int = 4 + offset as int;
            lemma_mod_add_multiples_vanish(base as int % m + y, m);
            lemma_add_mod_noop_right(y, base as int, m);
            assert(target == branch_target(base, imm));
        }
        let branch = Op::B(
            Cond::Eq,
            SrcSrcTarget { src: [src_gpr(rs), src_gpr(rt)], target: Src::Addr(target) },
        );
        let mut v: Vec<Instr> = Vec::new();
        v.push(Instr { op: slot_op, pred: Pred::Always, exc: 1, size: 0 });
        v.push(Instr { op: branch, pred: Pred::Always, exc: 2, size: 8 });
        assert(v@ =~= mips32_block(base, buffer@, big_endian).unwrap());
        return Ok(v);
    }
    match op_of(w) {
        Some(op) => {
            let mut v: Vec<Instr> = Vec::new();
            v.push(Instr { op, pred: Pred::Always, exc: 0, size: 4 });
            assert(v@ =~= mips32_block(base, buffer@, big_endian).unwrap());
            Ok(v)
        },
        None => Err(unknown_instruction()),
    }
}

/// MIPS64 code is not decoded.
fn decode_mips64(base: u64, buffer: &[u8]) -> (r: Result<Vec<Instr>, Error>)
    ensures
        r is Err && r->Err_0 is Unimplemented,
{
    Err(Error::Unimplemented("mips64 decode not implemented".to_owned()))
}

impl MipsTranslator {
    /// The block that this translator decodes from `buffer` at `base`.
    pub open spec fn spec_block(&self, base: u64, buffer: Seq<u8>) -> Option<Seq<Instr>> {
        if is_mips64(self.arch) {
            None
        } else {
            mips32_block(base, buffer, self.big_endian)
        }
    }

    /// Decodes the guest instruction at the start of `buffer`, which sits at
    /// guest address `base`.
    pub fn decode(&self, base: u64, buffer: &[u8]) -> (r: Result<Vec<Instr>, Error>)
        ensures
            match r {
                Ok(v) => self.spec_block(base, buffer@) == Some(v@),
                Err(e) => self.spec_block(base, buffer@) is None && e is Unimplemented,
            },
    {
        match isa_for_arch(&self.arch) {
            BaseIsa::Mips32 => decode_mips32(base, buffer, self.big_endian),
            BaseIsa::Mips64 => decode_mips64(base, buffer),
        }
    }
}

/// The largest value a 32-bit register holds.
pub const U32_MAX: u64 = 0xffff_ffff;

/// KSEG0 and KSEG1, the unmapped kernel segments, alias the low 512 MiB of
/// physical memory; every other segment needs a TLB and is unmapped here.
pub open spec fn kseg_phys(addr: u64) -> Option<u64> {
    if 0x8000_0000 <= addr < 0xc000_0000 {
        Some(addr & 0x1fff_ffff)
    } else {
        None
    }
}

/// Every lane but `n` and the program counter are as in `old`.
pub open spec fn others_kept(old: RegisterFile, new: RegisterFile, n: int) -> bool {
    &&& new.wf()
    &&& new.pc == old.pc
    &&& forall|i: int| 0 <= i < 1024 && i != n ==> #[trigger] new.lane(i) == old.lane(i)
}

impl Translator for MipsTranslator {
    open spec fn spec_decode(&self, base: u64, buffer: Seq<u8>) -> Option<Seq<Instr>> {
        self.spec_block(base, buffer)
    }

    open spec fn spec_virtual_to_phys(&self, addr: u64) -> Option<u64> {
        kseg_phys(addr)
    }

    open spec fn spec_get_reg(&self, regs: RegisterFile, reg: CpuReg) -> Result<u64, Error> {
        match reg {
            CpuReg::Pc => Ok(regs.pc),
            CpuReg::CpuSpecific(n) => if n == 0 {
                Ok(0)
            } else if n <= 31 {
                Ok(regs.lane(n as int) as u64)
            } else {
                Err(Error::GetRegUnknownReg(reg))
            },
        }
    }

    open spec fn spec_set_reg_error(&self, reg: CpuReg, value: u64) -> Option<Error> {
        match reg {
            CpuReg::CpuSpecific(n) if n > 31 => Some(Error::SetRegUnknownReg(reg, value)),
            _ => if value > U32_MAX {
                Some(Error::SetRegValueOutOfRange(reg, value))
            } else {
                None
            },
        }
    }

    open spec fn spec_set_reg_done(
        &self,
        old: RegisterFile,
        new: RegisterFile,
        reg: CpuReg,
        value: u64,
    ) -> bool {
        match reg {
            CpuReg::Pc => new.pc == value && new.bytes@ == old.bytes@,
            CpuReg::CpuSpecific(n) => if n == 0 {
                new == old
            } else {
                others_kept(old, new, n as int) && new.lane(n as int) == value
            },
        }
    }

    fn decode(&self, base: u64, buffer: &[u8]) -> (r: Result<Vec<Instr>, Error>) {
        MipsTranslator::decode(self, base, buffer)
    }

    fn virtual_to_phys(&self, registers: &RegisterFile, addr: u64) -> (r: Option<u64>) {
        if 0x8000_0000 <= addr && addr < 0xc000_0000 {
            Some(addr & 0x1fff_ffff)
        } else {
            None
        }
    }

    fn set_reg(&mut self, registers: &mut RegisterFile, reg: CpuReg, value: u64) -> (r: Result<
        (),
        Error,
    >) {
        match reg {
            CpuReg::Pc => {
                if value > U32_MAX {
                    return Err(Error::SetRegValueOutOfRange(reg, value));
                }
                registers.pc = value;
                Ok(())
            },
            CpuReg::CpuSpecific(n) => {
                if n > 31 {
                    return Err(Error::SetRegUnknownReg(reg, value));
                }
                if value > U32_MAX {
                    return Err(Error::SetRegValueOutOfRange(reg, value));
                }
                if n != 0 {
                    registers.write_u32(n as u16, value as u32);
                }
                Ok(())
            },
        }
    }

    fn get_reg(&self, registers: &RegisterFile, reg: CpuReg) -> (r: Result<u64, Error>) {
        match reg {
            CpuReg::Pc => Ok(registers.pc),
            CpuReg::CpuSpecific(n) => {
                if n == 0 {
                    Ok(0)
                } else if n <= 31 {
                    Ok(registers.read_u32(n as u16) as u64)
                } else {
                    Err(Error::GetRegUnknownReg(reg))
                }
            },
        }
    }
}

/// A value of at most 32 bits written to a general-purpose register other
/// than register 0 reads back unchanged; register 0 always reads as zero.
pub proof fn lemma_gpr_round_trip(
    t: MipsTranslator,
    before: RegisterFile,
    after: RegisterFile,
    n: u32,
    v: u64,
)
    requires
        before.wf(),
        n <= 31,
        v <= U32_MAX,
        t.spec_set_reg_done(before, after, CpuReg::CpuSpecific(n), v),
    ensures
        t.spec_set_reg_error(CpuReg::CpuSpecific(n), v) is None,
        n != 0 ==> t.spec_get_reg(after, CpuReg::CpuSpecific(n)) == Ok::<u64, Error>(v),
        t.spec_get_reg(after, CpuReg::CpuSpecific(0)) == Ok::<u64, Error>(0),
{
}

/// Of two writes to one register, the later is what a read finds.
pub proof fn lemma_latest_write_wins(
    t: MipsTranslator,
    r0: RegisterFile,
    r1: RegisterFile,
    r2: RegisterFile,
    reg: CpuReg,
    v1: u64,
    v2: u64,
)
    requires
        r0.wf(),
        t.spec_set_reg_error(reg, v1) is None,
        t.spec_set_reg_done(r0, r1, reg, v1),
        t.spec_set_reg_error(reg, v2) is None,
        t.spec_set_reg_done(r1, r2, reg, v2),
    ensures
        t.spec_get_reg(r2, reg) == if reg == CpuReg::CpuSpecific(0) {
            Ok::<u64, Error>(0)
        } else {
            Ok::<u64, Error>(v2)
        },
{
}

/// A branch decodes to its delay slot first, flagged and advancing nothing,
/// then the branch itself, carrying the advance of both words.
pub proof fn lemma_delay_slot_first(base: u64, b: Seq<u8>, big_endian: bool)
    requires
        b.len() >= 8,
        is_beq(word_at(b, 0, big_endian)),
        !is_beq(word_at(b, 4, big_endian)),
        spec_op_of(word_at(b, 4, big_endian)) is Some,
    ensures
        mips32_block(base, b, big_endian) is Some,
        mips32_block(base, b, big_endian)->Some_0.len() == 2,
        mips32_block(base, b, big_endian)->Some_0[0] == (Instr {
            op: spec_op_of(word_at(b, 4, big_endian))->Some_0,
            pred: Pred::Always,
            exc: 1,
            size: 0,
        }),
        mips32_block(base, b, big_endian)->Some_0[1].op is B,
        mips32_block(base, b, big_endian)->Some_0[1].exc == 2,
        mips32_block(base, b, big_endian)->Some_0[1].size == 8,
{
}

} // verus!
