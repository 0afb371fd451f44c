//! The MIPS family: its CPU variants and the factory for its CPUs.

use vstd::prelude::*;

pub mod translate;

use self::translate::MipsTranslator;
use crate::executor::{executor, Backend, ExecutionState};
use crate::mem::{replica, BusMatrix, BusMatrixUpdateOp, BusSlave};
use crate::{CpuOpt, Error, Hook, CPU_ENDIAN_BIG};

verus! {

/// The MIPS cores this library knows by name.
#[derive(Clone, Copy, Debug, PartialEq, Eq, Structural)]
pub enum Arch {
    R2000,
    Sys161,
    VR4300,
    Mips4Kc,
}

impl Default for Arch {
    fn default() -> (r: Arch)
        ensures
            r == Arch::R2000,
    {
        Arch::R2000
    }
}

/// The index of the assembler temporary, general-purpose register 1; it is
/// named as `CpuReg::CpuSpecific(REG_AT)`.
pub const REG_AT: u32 = 1;

/// Makes a CPU of the MIPS core `arch`, fetching big-endian when `opts`
/// holds `CPU_ENDIAN_BIG`, with its bus view installed as a child of `fsb`;
/// other option bits are ignored. A core without a translator answers
/// `UnimplementedArchitecture`.
pub fn mips_cpu_factory<S: BusSlave + Clone, H: Hook>(
    opts: CpuOpt,
    arch: Arch,
    fsb: &mut BusMatrix<S>,
) -> (r: Result<Backend<MipsTranslator, S, H>, Error>)
    requires
        old(fsb).wf(),
    ensures
        arch == Arch::Mips4Kc ==> r == Err::<Backend<MipsTranslator, S, H>, Error>(
            Error::UnimplementedArchitecture,
        ),
        r is Err ==> *final(fsb) == *old(fsb),
        arch != Arch::Mips4Kc ==> r is Ok && {
            let b = r->Ok_0;
            &&& final(fsb).wf()
            &&& final(fsb)@ == old(fsb)@
            &&& final(fsb).pending() == old(fsb).pending().push(Seq::empty())
            &&& b.wf()
            &&& b.translator == (MipsTranslator { arch, big_endian: opts & CPU_ENDIAN_BIG == CPU_ENDIAN_BIG })
            &&& b.fsb@.len() == old(fsb)@.len()
            &&& forall|k: int| 0 <= k < old(fsb)@.len() ==> replica(old(fsb)@[k], #[trigger] b.fsb@[k])
            &&& b.fsb.pending() == Seq::<Seq<BusMatrixUpdateOp<S>>>::empty()
            &&& b.registers.pc == 0
            &&& forall|i: int| 0 <= i < 1024 ==> #[trigger] b.registers.lane(i) == 0
            &&& b.hooks_on_all@.len() == 0
            &&& b.code_hooks_on_single@.len() == 0
            &&& b.execution_state == ExecutionState::Paused
            &&& b.block_start
        },
{
    if let Arch::Mips4Kc = arch {
        return Err(Error::UnimplementedArchitecture);
    }
    let translator = MipsTranslator { arch, big_endian: opts & CPU_ENDIAN_BIG == CPU_ENDIAN_BIG };
    Ok(executor(translator, fsb))
}

} // verus!
