//! Core of a guest-code emulator: a bus matrix modelling the physical
//! address space, an intermediate instruction set with a MIPS32 front-end,
//! and an executor that steps a CPU one guest instruction at a time.

use vstd::prelude::*;

pub mod executor;
pub mod iisa;
pub mod mem;
pub mod mips;

use crate::executor::{Backend, ExecutionState, Message, Reply};
use crate::iisa::{RegisterFile, Translator};
use crate::mem::{lemma_same_layout_covers, same_layout, bytes_set, copy_bytes, zeroed, replica, host_bytes, host_prot, no_host_cover, BusMatrix, BusSlave, MemRange};
use crate::mips::translate::MipsTranslator;

verus! {

/// A register named in a machine-independent way.
#[derive(Clone, Copy, Debug, PartialEq, Eq, Structural)]
pub enum CpuReg {
    Pc,
    CpuSpecific(u32),
}

/// Memory protection bits of a mappable range.
pub type MemProt = u8;

pub const PROT_READ: MemProt = 0b0001;
pub const PROT_WRITE: MemProt = 0b0010;
pub const PROT_EXEC: MemProt = 0b0100;
pub const PROT_RW: MemProt = 0b0011;
pub const PROT_ALL: MemProt = 0b0111;

/// Options of a CPU; the only defined bit selects big-endian instruction
/// fetch.
pub type CpuOpt = u8;

pub const CPU_ENDIAN_BIG: CpuOpt = 0b0000_0001;
pub const CPU_ENDIAN_LITTLE: CpuOpt = 0b0000_0000;

/// Why an execution stopped.
#[derive(Clone, Copy, Debug, PartialEq, Eq, Structural)]
pub enum ExitReason {
    /// A hook answered `StopExecution`.
    CodeHookSignalledStop,
    /// The program counter left the window that the execution was given.
    PcOutOfRange(u64),
    /// The execution ran its largest number of steps.
    StepLimitReached,
}

/// What a hook asks of the execution that called it.
#[derive(Clone, Copy, Debug, PartialEq, Eq, Structural)]
pub enum TraceExitHint {
    ContinueExecution,
    StopExecution,
}

/// An observer that an executing CPU calls with a guest address and a size
/// in bytes.
pub trait Hook {
    fn call(&self, pc: u64, size: u64) -> TraceExitHint;
}

/// Every failure the library reports.
#[derive(Clone, Debug, PartialEq, Eq)]
pub enum Error {
    Unimplemented(String),
    MemAllocation,
    UnableToFindRange(u64, usize),
    InvalidCpuCookie,
    OptNotSupported(CpuOpt),
    UnimplementedArchitecture,
    GetRegUnknownReg(CpuReg),
    SetRegValueOutOfRange(CpuReg, u64),
    SetRegUnknownReg(CpuReg, u64),
    InvalidPC,
    VirtualAddrNotMappable(u64),
    PromiseLost,
}

/// The guest architecture of a CPU.
#[derive(Clone, Copy, Debug, PartialEq, Eq, Structural)]
pub enum Arch {
    Mips(mips::Arch),
}

/// Names a CPU registered on a `System`.
#[derive(Clone, Copy, Debug, PartialEq, Eq, Structural)]
pub struct CpuCookie {
    handle: usize,
}

impl CpuCookie {
    /// The registration number of the CPU.
    pub closed spec fn id(&self) -> int {
        self.handle as int
    }
}

/// An emulated machine: the root bus matrix and the CPUs registered on it.
/// Each CPU serves the requests made of it as messages, in the order they
/// are made, and has its own view of the bus: a copy of every range of the
/// root, handed to it as the root gains them. `set_range` writes the root
/// and every view alike; what a CPU stores stays in its own view.
pub struct System<S, H> {
    fsb: BusMatrix<S>,
    cpus: Vec<Backend<MipsTranslator, S, H>>,
}

/// The CPU that `arch` names, made for the root matrix `fsb`.
fn create_cpu<S: BusSlave + Clone, H: Hook>(opts: CpuOpt, arch: Arch, fsb: &mut BusMatrix<S>) -> (r:
    Result<Backend<MipsTranslator, S, H>, Error>)
    requires
        old(fsb).wf(),
    ensures
        match arch {
            Arch::Mips(a) => {
                &&& a == mips::Arch::Mips4Kc ==> r == Err::<
                    Backend<MipsTranslator, S, H>,
                    Error,
                >(Error::UnimplementedArchitecture)
                &&& r is Err ==> *final(fsb) == *old(fsb)
                &&& a != mips::Arch::Mips4Kc ==> r is Ok && {
                    let b = r->Ok_0;
                    &&& final(fsb).wf()
                    &&& final(fsb)@ == old(fsb)@
                    &&& final(fsb).pending() == old(fsb).pending().push(Seq::empty())
                    &&& b.wf()
                    &&& b.translator == (MipsTranslator {
                        arch: a,
                        big_endian: opts & CPU_ENDIAN_BIG == CPU_ENDIAN_BIG,
                    })
                    &&& b.fsb@.len() == old(fsb)@.len()
                    &&& forall|k: int| 0 <= k < old(fsb)@.len() ==> replica(old(fsb)@[k], #[trigger] b.fsb@[k])
                    &&& b.registers.pc == 0
                    &&& forall|i: int| 0 <= i < 1024 ==> #[trigger] b.registers.lane(i) == 0
                    &&& b.hooks_on_all@.len() == 0
                    &&& b.code_hooks_on_single@.len() == 0
                    &&& b.execution_state == ExecutionState::Paused
                }
            },
        },
{
    match arch {
        Arch::Mips(mips_info) => mips::mips_cpu_factory(opts, mips_info, fsb),
    }
}

impl<S: BusSlave + Clone, H: Hook + Clone> System<S, H> {
    /// Every CPU has taken every bus update, and is paused.
    pub closed spec fn wf(&self) -> bool {
        &&& self.fsb.wf()
        &&& self.fsb.pending().len() == self.cpus@.len()
        &&& forall|c: int| 0 <= c < self.cpus@.len() ==> (#[trigger] self.fsb.pending()[c]).len() == 0
        &&& forall|c: int|
            0 <= c < self.cpus@.len() ==> (#[trigger] self.cpus@[c]).wf()
                && self.cpus@[c].execution_state == ExecutionState::Paused
                && same_layout(self.fsb@, self.cpus@[c].fsb@)
    }

    /// The ranges of the root bus matrix.
    pub closed spec fn root(&self) -> Seq<MemRange<S>> {
        self.fsb@
    }

    pub closed spec fn cpu_count(&self) -> nat {
        self.cpus@.len()
    }

    /// `cookie` names a registered CPU.
    pub open spec fn valid(&self, cookie: CpuCookie) -> bool {
        0 <= cookie.id() < self.cpu_count()
    }

    /// The whole state of CPU `c`.
    pub closed spec fn cpu(&self, c: int) -> Backend<MipsTranslator, S, H> {
        self.cpus@[c]
    }

    pub closed spec fn cpu_registers(&self, c: int) -> RegisterFile {
        self.cpus@[c].registers
    }

    pub closed spec fn cpu_translator(&self, c: int) -> MipsTranslator {
        self.cpus@[c].translator
    }

    /// The ranges of CPU `c`'s view of the bus.
    pub closed spec fn cpu_view(&self, c: int) -> Seq<MemRange<S>> {
        self.cpus@[c].fsb@
    }

    /// The number of block hooks of CPU `c`.
    pub closed spec fn block_hook_count(&self, c: int) -> nat {
        self.cpus@[c].hooks_on_all@.len()
    }

    /// The addresses of the code hooks of CPU `c`, in order of installation.
    pub closed spec fn code_hook_bases(&self, c: int) -> Seq<u64> {
        self.cpus@[c].code_hooks_on_single@.map_values(|h: executor::CodeHook<H>| h.base)
    }

    /// CPU `c` is the same in `self` and in `old`.
    pub open spec fn cpu_kept(&self, old: &Self, c: int) -> bool {
        &&& self.cpu_registers(c) == old.cpu_registers(c)
        &&& self.cpu_translator(c) == old.cpu_translator(c)
        &&& self.cpu_view(c) == old.cpu_view(c)
        &&& self.block_hook_count(c) == old.block_hook_count(c)
        &&& self.code_hook_bases(c) == old.code_hook_bases(c)
    }

    /// Nothing that the contracts speak of differs from `old`.
    pub open spec fn same_as(&self, old: &Self) -> bool {
        &&& self.root() == old.root()
        &&& self.cpu_count() == old.cpu_count()
        &&& forall|c: int| 0 <= c < self.cpu_count() ==> #[trigger] self.cpu_kept(old, c)
    }

    /// Only CPU `h` may differ from `old`, and only in its registers and
    /// its view of the bus.
    pub open spec fn only_cpu_ran(&self, old: &Self, h: int) -> bool {
        &&& self.root() == old.root()
        &&& self.cpu_count() == old.cpu_count()
        &&& forall|c: int| 0 <= c < self.cpu_count() && c != h ==> #[trigger] self.cpu_kept(old, c)
        &&& self.cpu_translator(h) == old.cpu_translator(h)
        &&& self.block_hook_count(h) == old.block_hook_count(h)
        &&& self.code_hook_bases(h) == old.code_hook_bases(h)
    }

    /// `new` is `old` after setting `reg` of the CPU `cookie` to `value`
    /// answered `r`.
    pub open spec fn reg_set(
        old: Self,
        new: Self,
        cookie: CpuCookie,
        reg: CpuReg,
        value: u64,
        r: Result<(), Error>,
    ) -> bool {
        &&& new.wf()
        &&& if !old.valid(cookie) {
            r == Err::<(), Error>(Error::InvalidCpuCookie) && new.same_as(&old)
        } else {
            let t = old.cpu_translator(cookie.id());
            &&& new.only_cpu_ran(&old, cookie.id())
            &&& new.cpu_view(cookie.id()) == old.cpu_view(cookie.id())
            &&& match t.spec_set_reg_error(reg, value) {
                Some(e) => r == Err::<(), Error>(e) && new.same_as(&old),
                None => r == Ok::<(), Error>(()) && t.spec_set_reg_done(
                    old.cpu_registers(cookie.id()),
                    new.cpu_registers(cookie.id()),
                    reg,
                    value,
                ),
            }
        }
    }

    /// What reading `reg` of the CPU `cookie` answers.
    pub open spec fn reg_read(s: Self, cookie: CpuCookie, reg: CpuReg) -> Result<u64, Error> {
        if !s.valid(cookie) {
            Err(Error::InvalidCpuCookie)
        } else {
            s.cpu_translator(cookie.id()).spec_get_reg(s.cpu_registers(cookie.id()), reg)
        }
    }

    /// A machine with an empty bus and no CPU.
    pub fn new() -> (r: Self)
        ensures
            r.wf(),
            r.root() == Seq::<MemRange<S>>::empty(),
            r.cpu_count() == 0,
    {
        System { fsb: BusMatrix::new(), cpus: Vec::new() }
    }

    /// `new` is `old` with the host range `[base, base + size)` holding
    /// `contents` under `prot` appended to the root, and a copy of it handed
    /// to every CPU, which is otherwise unchanged.
    pub open spec fn range_added(
        old: Self,
        new: Self,
        base: u64,
        size: u64,
        prot: MemProt,
        contents: Seq<u8>,
    ) -> bool {
        &&& new.cpu_count() == old.cpu_count()
        &&& new.root().len() == old.root().len() + 1
        &&& new.root().subrange(0, old.root().len() as int) == old.root()
        &&& new.root().last().base == base
        &&& new.root().last().size == size
        &&& new.root().last().backing is Mappable
        &&& host_bytes(new.root().last()) == contents
        &&& host_prot(new.root().last()) == prot
        &&& forall|c: int|
            0 <= c < new.cpu_count() ==> {
                &&& (#[trigger] new.cpu_view(c)).len() == old.cpu_view(c).len() + 1
                &&& new.cpu_view(c).subrange(0, old.cpu_view(c).len() as int)
                    == old.cpu_view(c)
                &&& replica(new.root().last(), new.cpu_view(c).last())
                &&& new.cpu_registers(c) == old.cpu_registers(c)
                &&& new.cpu_translator(c) == old.cpu_translator(c)
            }
    }

    /// Maps the host memory `bytes` with protection `prot` at
    /// `[base, base + size)` on the root matrix, and hands the new range to
    /// every CPU.
    pub fn add_host_range(&mut self, prot: MemProt, base: u64, size: u64, bytes: Vec<u8>) -> (r: Result<(), Error>)
        requires
            old(self).wf(),
            bytes@.len() == size,
        ensures
            r is Ok,
            final(self).wf(),
            final(self).cpu_count() == old(self).cpu_count(),
            Self::range_added(*old(self), *final(self), base, size, prot, bytes@),
    {
        let ghost contents = bytes@;
        self.fsb.add_host_range(base, size, prot, bytes);
        let ghost mid = self.fsb;
        let mut c: usize = 0;
        while c < self.cpus.len()
            invariant
                old(self).wf(),
                self.fsb.wf(),
                self.fsb@ == mid@,
                mid.appended(&old(self).fsb),
                self.cpus@.len() == old(self).cpus@.len(),
                self.fsb.pending().len() == self.cpus@.len(),
                c <= self.cpus@.len(),
                forall|d: int| 0 <= d < c ==> (#[trigger] self.fsb.pending()[d]).len() == 0,
                forall|d: int|
                    c <= d < self.cpus@.len() ==> #[trigger] self.fsb.pending()[d] == mid.pending()[d],
                forall|d: int|
                    0 <= d < self.cpus@.len() ==> (#[trigger] self.cpus@[d]).wf()
                        && self.cpus@[d].execution_state == ExecutionState::Paused
                        && self.cpus@[d].registers == old(self).cpus@[d].registers
                        && self.cpus@[d].translator == old(self).cpus@[d].translator
                        && self.cpus@[d].hooks_on_all@ == old(self).cpus@[d].hooks_on_all@
                        && self.cpus@[d].code_hooks_on_single@ == old(self).cpus@[d].code_hooks_on_single@,
                forall|d: int|
                    c <= d < self.cpus@.len() ==> #[trigger] self.cpus@[d].fsb@ == old(self).cpus@[d].fsb@,
                forall|d: int|
                    0 <= d < c ==> {
                        &&& (#[trigger] self.cpus@[d]).fsb@.len() == old(self).cpus@[d].fsb@.len() + 1
                        &&& self.cpus@[d].fsb@.subrange(0, old(self).cpus@[d].fsb@.len() as int)
                            == old(self).cpus@[d].fsb@
                        &&& replica(self.fsb@.last(), self.cpus@[d].fsb@.last())
                    },
            decreases self.cpus@.len() - c,
        {
            let ghost before = self.fsb.pending();
            let ops = self.fsb.take_updates(c);
            assert(old(self).fsb.pending()[c as int].len() == 0);
            assert(ops@.len() == 1);
            assert(ops@[0].added().wf()) by {
                assert(self.fsb@.last().wf());
            }
            self.cpus[c].deliver(ops);
            assert(self.fsb.pending() =~= before.update(c as int, Seq::empty()));
            proof {
                let d = c as int;
                assert(self.cpus@[d].fsb@.subrange(0, old(self).cpus@[d].fsb@.len() as int)
                    =~= old(self).cpus@[d].fsb@);
            }
            c = c + 1;
        }
        proof {
            let n = old(self).fsb@.len() as int;
            assert(self.fsb@.subrange(0, n) == old(self).fsb@);
            assert forall|d: int| 0 <= d < self.cpus@.len() implies same_layout(self.fsb@, #[trigger] self.cpus@[d].fsb@) by {
                let v = self.cpus@[d].fsb@;
                let ov = old(self).cpus@[d].fsb@;
                assert(same_layout(old(self).fsb@, ov));
                assert(v.subrange(0, ov.len() as int) == ov);
                assert forall|k: int| 0 <= k < self.fsb@.len() implies (#[trigger] self.fsb@[k]).base == v[k].base
                    && self.fsb@[k].size == v[k].size
                    && (self.fsb@[k].backing is Mappable) == (v[k].backing is Mappable) by {
                    if k < n {
                        assert(self.fsb@[k] == self.fsb@.subrange(0, n)[k]);
                        assert(v[k] == v.subrange(0, ov.len() as int)[k]);
                    }
                }
            }
        }
        Ok(())
    }

    /// Maps `size` zeroed bytes of host memory with protection `prot` at
    /// `base` on the root matrix, and hands the new range to every CPU.
    /// Fails with `MemAllocation`, changing nothing, when the size does not
    /// fit the host's address space or the host cannot provide the memory.
    pub fn add_mappable_range(&mut self, prot: MemProt, base: u64, size: u64) -> (r: Result<(), Error>)
        requires
            old(self).wf(),
        ensures
            final(self).wf(),
            final(self).cpu_count() == old(self).cpu_count(),
            size > usize::MAX ==> r == Err::<(), Error>(Error::MemAllocation),
            r is Ok ==> Self::range_added(*old(self), *final(self), base, size, prot, Seq::new(size as nat, |k: int| 0u8)),
            r is Err ==> r == Err::<(), Error>(Error::MemAllocation) && *final(self) == *old(self),
    {
        let bytes = match zeroed(size) {
            Ok(bytes) => bytes,
            Err(e) => {
                return Err(e);
            },
        };
        self.add_host_range(prot, base, size, bytes)
    }

    fn register_cpu_no_throw(&mut self, cpu: Backend<MipsTranslator, S, H>) -> (r: CpuCookie)
        requires
            old(self).fsb.wf(),
            old(self).fsb.pending().len() == old(self).cpus@.len() + 1,
            forall|c: int|
                0 <= c < old(self).fsb.pending().len() ==> (#[trigger] old(self).fsb.pending()[c]).len()
                    == 0,
            forall|c: int|
                0 <= c < old(self).cpus@.len() ==> (#[trigger] old(self).cpus@[c]).wf()
                    && old(self).cpus@[c].execution_state == ExecutionState::Paused,
            forall|c: int|
                0 <= c < old(self).cpus@.len() ==> same_layout(old(self).fsb@, (#[trigger] old(self).cpus@[c]).fsb@),
            cpu.wf(),
            cpu.execution_state == ExecutionState::Paused,
            same_layout(old(self).fsb@, cpu.fsb@),
        ensures
            final(self).wf(),
            r.id() == old(self).cpus@.len(),
            final(self).fsb == old(self).fsb,
            final(self).cpus@ == old(self).cpus@.push(cpu),
    {
        let this_handle = self.cpus.len();
        self.cpus.push(cpu);
        CpuCookie { handle: this_handle }
    }

    /// Registers a CPU of the architecture `arch`, fetching big-endian when
    /// `opts` holds `CPU_ENDIAN_BIG`; its view of the bus starts with a copy
    /// of every range of the root. Fails with `UnimplementedArchitecture`,
    /// changing nothing, for a core that has no translator.
    pub fn register_cpu(&mut self, opts: CpuOpt, arch: Arch) -> (r: Result<CpuCookie, Error>)
        requires
            old(self).wf(),
        ensures
            final(self).wf(),
            match arch {
                Arch::Mips(a) => if a == mips::Arch::Mips4Kc {
                    r == Err::<CpuCookie, Error>(Error::UnimplementedArchitecture) && *final(self)
                        == *old(self)
                } else {
                    &&& r is Ok
                    &&& r->Ok_0.id() == old(self).cpu_count()
                    &&& final(self).cpu_count() == old(self).cpu_count() + 1
                    &&& final(self).root() == old(self).root()
                    &&& forall|c: int| 0 <= c < old(self).cpu_count() ==> #[trigger] final(self).cpu_kept(old(self), c)
                    &&& final(self).cpu_translator(r->Ok_0.id()) == (MipsTranslator {
                        arch: a,
                        big_endian: opts & CPU_ENDIAN_BIG == CPU_ENDIAN_BIG,
                    })
                    &&& final(self).cpu_registers(r->Ok_0.id()).pc == 0
                    &&& forall|i: int|
                        0 <= i < 1024 ==> #[trigger] final(self).cpu_registers(r->Ok_0.id()).lane(i) == 0
                    &&& final(self).cpu_view(r->Ok_0.id()).len() == old(self).root().len()
                    &&& forall|k: int|
                        0 <= k < old(self).root().len() ==> replica(
                            old(self).root()[k],
                            #[trigger] final(self).cpu_view(r->Ok_0.id())[k],
                        )
                    &&& final(self).block_hook_count(r->Ok_0.id()) == 0
                    &&& final(self).code_hook_bases(r->Ok_0.id()).len() == 0
                },
            },
    {
        let cpu = match create_cpu(opts, arch, &mut self.fsb) {
            Ok(cpu) => cpu,
            Err(e) => {
                return Err(e);
            },
        };
        assert(same_layout(self.fsb@, cpu.fsb@)) by {
            assert forall|k: int| 0 <= k < self.fsb@.len() implies (#[trigger] self.fsb@[k]).base == cpu.fsb@[k].base
                && self.fsb@[k].size == cpu.fsb@[k].size
                && (self.fsb@[k].backing is Mappable) == (cpu.fsb@[k].backing is Mappable) by {
                assert(replica(old(self).fsb@[k], cpu.fsb@[k]));
            }
        }
        let cookie = self.register_cpu_no_throw(cpu);
        assert forall|c: int| 0 <= c < old(self).cpu_count() implies #[trigger] self.cpu_kept(old(self), c) by {
            assert(self.cpus@[c] == old(self).cpus@[c]);
        }
        Ok(cookie)
    }

    fn get_cpu(&self, cookie: &CpuCookie) -> (r: Result<usize, Error>)
        ensures
            self.valid(*cookie) ==> r == Ok::<usize, Error>(cookie.handle),
            !self.valid(*cookie) ==> r == Err::<usize, Error>(Error::InvalidCpuCookie),
    {
        if cookie.handle < self.cpus.len() {
            Ok(cookie.handle)
        } else {
            Err(Error::InvalidCpuCookie)
        }
    }

    /// Sets `reg` of the CPU `cookie` to `value`.
    pub fn set_cpu_reg(&mut self, cpu_cookie: &CpuCookie, reg: CpuReg, value: u64) -> (r: Result<(), Error>)
        requires
            old(self).wf(),
        ensures
            Self::reg_set(*old(self), *final(self), *cpu_cookie, reg, value, r),
    {
        let i = match self.get_cpu(cpu_cookie) {
            Ok(i) => i,
            Err(e) => {
                return Err(e);
            },
        };
        let (_, reply) = self.cpus[i].process_message(Message::SetReg(reg, value));
        proof {
            assert forall|c: int| 0 <= c < self.cpu_count() && c != i implies #[trigger] self.cpu_kept(old(self), c) by {
                assert(self.cpus@[c] == old(self).cpus@[c]);
            }
            assert forall|c: int| 0 <= c < self.cpus@.len() implies (#[trigger] self.cpus@[c]).wf()
                && self.cpus@[c].execution_state == ExecutionState::Paused by {
                assert(old(self).cpus@[c].wf());
            }
            if self.cpus@[i as int] == old(self).cpus@[i as int] {
                assert forall|c: int| 0 <= c < self.cpu_count() implies #[trigger] self.cpu_kept(old(self), c) by {
                    assert(self.cpus@[c] == old(self).cpus@[c]);
                }
            }
        }
        match reply {
            Some(Reply::Done(result)) => result,
            _ => Err(Error::PromiseLost),
        }
    }

    /// Reads `reg` of the CPU `cookie`.
    pub fn get_cpu_reg(&mut self, cpu_cookie: &CpuCookie, reg: CpuReg) -> (r: Result<u64, Error>)
        requires
            old(self).wf(),
        ensures
            final(self).wf(),
            final(self).same_as(old(self)),
            r == Self::reg_read(*old(self), *cpu_cookie, reg),
    {
        let i = match self.get_cpu(cpu_cookie) {
            Ok(i) => i,
            Err(e) => {
                return Err(e);
            },
        };
        let (_, reply) = self.cpus[i].process_message(Message::GetReg(reg));
        assert(self.cpus@ =~= old(self).cpus@);
        assert forall|c: int| 0 <= c < self.cpu_count() implies #[trigger] self.cpu_kept(old(self), c) by {
            assert(self.cpus@[c] == old(self).cpus@[c]);
        }
        match reply {
            Some(Reply::Value(result)) => result,
            _ => Err(Error::PromiseLost),
        }
    }

    /// Starts the CPU `cookie` with `msg` and runs it until it stops.
    fn run_cpu(&mut self, cpu_cookie: &CpuCookie, msg: Message<S, H>, window: Option<(u64, u64)>) -> (r: Result<
        ExitReason,
        Error,
    >)
        requires
            old(self).wf(),
            msg == Message::<S, H>::Execute && window is None || exists|b: u64, e: u64|
                msg == Message::<S, H>::ExecuteWithin(b, e) && window == Some((b, e)),
        ensures
            final(self).wf(),
            !old(self).valid(*cpu_cookie) ==> r == Err::<ExitReason, Error>(Error::InvalidCpuCookie)
                && *final(self) == *old(self),
            old(self).valid(*cpu_cookie) ==> final(self).only_cpu_ran(old(self), cpu_cookie.id())
                && Backend::executed(
                old(self).cpu(cpu_cookie.id()).started(window),
                final(self).cpu(cpu_cookie.id()),
                u64::MAX,
                r,
            ),
    {
        let i = match self.get_cpu(cpu_cookie) {
            Ok(i) => i,
            Err(e) => {
                return Err(e);
            },
        };
        self.cpus[i].process_message(msg);
        let r = self.cpus[i].execute(u64::MAX);
        proof {
            assert forall|c: int| 0 <= c < self.cpu_count() && c != i implies #[trigger] self.cpu_kept(old(self), c) by {
                assert(self.cpus@[c] == old(self).cpus@[c]);
            }
        }
        r
    }

    /// Runs the CPU `cookie` from its program counter until a hook asks to
    /// stop, an instruction fails, or `u64::MAX` blocks have run. Only that
    /// CPU's registers and view of the bus change.
    pub fn execute(&mut self, cpu_cookie: &CpuCookie) -> (r: Result<ExitReason, Error>)
        requires
            old(self).wf(),
        ensures
            final(self).wf(),
            !old(self).valid(*cpu_cookie) ==> r == Err::<ExitReason, Error>(Error::InvalidCpuCookie)
                && *final(self) == *old(self),
            old(self).valid(*cpu_cookie) ==> final(self).only_cpu_ran(old(self), cpu_cookie.id())
                && Backend::executed(
                old(self).cpu(cpu_cookie.id()).started(None),
                final(self).cpu(cpu_cookie.id()),
                u64::MAX,
                r,
            ),
    {
        self.run_cpu(cpu_cookie, Message::Execute, None)
    }

    /// As `execute`, and also stops with `PcOutOfRange` once a block leaves
    /// the program counter outside `[begin, end)`.
    pub fn execute_within(&mut self, cpu_cookie: &CpuCookie, begin: u64, end: u64) -> (r: Result<
        ExitReason,
        Error,
    >)
        requires
            old(self).wf(),
        ensures
            final(self).wf(),
            !old(self).valid(*cpu_cookie) ==> r == Err::<ExitReason, Error>(Error::InvalidCpuCookie)
                && *final(self) == *old(self),
            old(self).valid(*cpu_cookie) ==> final(self).only_cpu_ran(old(self), cpu_cookie.id())
                && Backend::executed(
                old(self).cpu(cpu_cookie.id()).started(Some((begin, end))),
                final(self).cpu(cpu_cookie.id()),
                u64::MAX,
                r,
            ),
    {
        self.run_cpu(cpu_cookie, Message::ExecuteWithin(begin, end), Some((begin, end)))
    }

    /// Adds `hook` to the block hooks of every registered CPU.
    pub fn add_block_hook_all(&mut self, hook: H) -> (r: Result<(), Error>)
        requires
            old(self).wf(),
        ensures
            r is Ok,
            final(self).wf(),
            final(self).root() == old(self).root(),
            final(self).cpu_count() == old(self).cpu_count(),
            forall|c: int|
                0 <= c < final(self).cpu_count() ==> {
                    &&& final(self).cpu_registers(c) == old(self).cpu_registers(c)
                    &&& final(self).cpu_translator(c) == old(self).cpu_translator(c)
                    &&& final(self).cpu_view(c) == old(self).cpu_view(c)
                    &&& #[trigger] final(self).block_hook_count(c) == old(self).block_hook_count(c) + 1
                    &&& final(self).code_hook_bases(c) == old(self).code_hook_bases(c)
                },
    {
        let mut c: usize = 0;
        while c < self.cpus.len()
            invariant
                old(self).wf(),
                self.fsb == old(self).fsb,
                self.cpus@.len() == old(self).cpus@.len(),
                c <= self.cpus@.len(),
                forall|d: int|
                    0 <= d < self.cpus@.len() ==> (#[trigger] self.cpus@[d]).wf()
                        && self.cpus@[d].execution_state == ExecutionState::Paused
                        && self.cpus@[d].registers == old(self).cpus@[d].registers
                        && self.cpus@[d].translator == old(self).cpus@[d].translator
                        && self.cpus@[d].fsb == old(self).cpus@[d].fsb
                        && self.cpus@[d].code_hooks_on_single@ == old(self).cpus@[d].code_hooks_on_single@,
                forall|d: int|
                    0 <= d < c ==> (#[trigger] self.cpus@[d]).hooks_on_all@.len() == old(
                        self,
                    ).cpus@[d].hooks_on_all@.len() + 1,
                forall|d: int|
                    c <= d < self.cpus@.len() ==> (#[trigger] self.cpus@[d]).hooks_on_all@ == old(
                        self,
                    ).cpus@[d].hooks_on_all@,
            decreases self.cpus@.len() - c,
        {
            self.cpus[c].process_message(Message::AddBlockHookAll(hook.clone()));
            c = c + 1;
        }
        Ok(())
    }

    /// Adds `hook`, bound to the guest address `base`, to the code hooks of
    /// every registered CPU.
    pub fn add_code_hook_single(&mut self, base: u64, hook: H) -> (r: Result<(), Error>)
        requires
            old(self).wf(),
        ensures
            r is Ok,
            final(self).wf(),
            final(self).root() == old(self).root(),
            final(self).cpu_count() == old(self).cpu_count(),
            forall|c: int|
                0 <= c < final(self).cpu_count() ==> {
                    &&& final(self).cpu_registers(c) == old(self).cpu_registers(c)
                    &&& final(self).cpu_translator(c) == old(self).cpu_translator(c)
                    &&& final(self).cpu_view(c) == old(self).cpu_view(c)
                    &&& final(self).block_hook_count(c) == old(self).block_hook_count(c)
                    &&& #[trigger] final(self).code_hook_bases(c) == old(self).code_hook_bases(c).push(base)
                },
    {
        let mut c: usize = 0;
        while c < self.cpus.len()
            invariant
                old(self).wf(),
                self.fsb == old(self).fsb,
                self.cpus@.len() == old(self).cpus@.len(),
                c <= self.cpus@.len(),
                forall|d: int|
                    0 <= d < self.cpus@.len() ==> (#[trigger] self.cpus@[d]).wf()
                        && self.cpus@[d].execution_state == ExecutionState::Paused
                        && self.cpus@[d].registers == old(self).cpus@[d].registers
                        && self.cpus@[d].translator == old(self).cpus@[d].translator
                        && self.cpus@[d].fsb == old(self).cpus@[d].fsb
                        && self.cpus@[d].hooks_on_all@ == old(self).cpus@[d].hooks_on_all@,
                forall|d: int|
                    0 <= d < c ==> (#[trigger] self.cpus@[d]).code_hooks_on_single@.map_values(
                        |h: executor::CodeHook<H>| h.base,
                    ) == old(self).cpus@[d].code_hooks_on_single@.map_values(
                        |h: executor::CodeHook<H>| h.base,
                    ).push(base),
                forall|d: int|
                    c <= d < self.cpus@.len() ==> (#[trigger] self.cpus@[d]).code_hooks_on_single@
                        == old(self).cpus@[d].code_hooks_on_single@,
            decreases self.cpus@.len() - c,
        {
            let ghost before = self.cpus@[c as int].code_hooks_on_single@;
            self.cpus[c].process_message(Message::AddCodeHookSingle(base, hook.clone()));
            assert(self.cpus@[c as int].code_hooks_on_single@.map_values(
                |h: executor::CodeHook<H>| h.base,
            ) =~= before.map_values(|h: executor::CodeHook<H>| h.base).push(base));
            c = c + 1;
        }
        Ok(())
    }

    /// Copies `incoming` into the host memory of the root matrix at
    /// `base`, within the first mappable range that holds all of it, and
    /// into every CPU's view of that memory. Fails with
    /// `UnableToFindRange`, changing nothing, when no mappable range holds
    /// it.
    pub fn set_range(&mut self, incoming: &[u8], base_addr: u64) -> (r: Result<(), Error>)
        requires
            old(self).wf(),
        ensures
            final(self).wf(),
            final(self).cpu_count() == old(self).cpu_count(),
            match r {
                Ok(()) => bytes_set(old(self).root(), final(self).root(), base_addr as int, incoming@),
                Err(e) => e == Error::UnableToFindRange(base_addr, incoming@.len() as usize)
                    && no_host_cover(old(self).root(), base_addr as int, incoming@.len() as int)
                    && *final(self) == *old(self),
            },
            forall|c: int|
                0 <= c < final(self).cpu_count() ==> {
                    &&& #[trigger] final(self).cpu_registers(c) == old(self).cpu_registers(c)
                    &&& final(self).cpu_translator(c) == old(self).cpu_translator(c)
                    &&& r is Ok ==> bytes_set(old(self).cpu_view(c), final(self).cpu_view(c), base_addr as int, incoming@)
                },
    {
        match self.fsb.set_range(incoming, base_addr) {
            Ok(()) => {},
            Err(e) => {
                return Err(e);
            },
        }
        let ghost root = self.fsb;
        let mut c: usize = 0;
        while c < self.cpus.len()
            invariant
                old(self).wf(),
                self.fsb == root,
                same_layout(old(self).fsb@, root@),
                !no_host_cover(old(self).fsb@, base_addr as int, incoming@.len() as int),
                self.cpus@.len() == old(self).cpus@.len(),
                c <= self.cpus@.len(),
                forall|d: int|
                    0 <= d < self.cpus@.len() ==> (#[trigger] self.cpus@[d]).wf()
                        && self.cpus@[d].execution_state == ExecutionState::Paused
                        && self.cpus@[d].registers == old(self).cpus@[d].registers
                        && self.cpus@[d].translator == old(self).cpus@[d].translator
                        && self.cpus@[d].hooks_on_all@ == old(self).cpus@[d].hooks_on_all@
                        && self.cpus@[d].code_hooks_on_single@ == old(self).cpus@[d].code_hooks_on_single@,
                forall|d: int| 0 <= d < c ==> bytes_set(old(self).cpus@[d].fsb@, #[trigger] self.cpus@[d].fsb@, base_addr as int, incoming@),
                forall|d: int| 0 <= d < c ==> same_layout(old(self).cpus@[d].fsb@, #[trigger] self.cpus@[d].fsb@),
                forall|d: int| c <= d < self.cpus@.len() ==> #[trigger] self.cpus@[d] == old(self).cpus@[d],
            decreases self.cpus@.len() - c,
        {
            let bytes = copy_bytes(incoming);
            proof {
                let d = c as int;
                assert(same_layout(old(self).fsb@, old(self).cpus@[d].fsb@));
                lemma_same_layout_covers(old(self).fsb@, old(self).cpus@[d].fsb@, base_addr as int, incoming@.len() as int);
            }
            self.cpus[c].process_message(Message::SetRange(bytes, base_addr));
            c = c + 1;
        }
        proof {
            assert forall|d: int| 0 <= d < self.cpus@.len() implies same_layout(self.fsb@, #[trigger] self.cpus@[d].fsb@) by {
                assert(same_layout(old(self).fsb@, old(self).cpus@[d].fsb@));
                assert(same_layout(old(self).cpus@[d].fsb@, self.cpus@[d].fsb@));
                assert forall|k: int| 0 <= k < self.fsb@.len() implies (#[trigger] self.fsb@[k]).base == self.cpus@[d].fsb@[k].base
                    && self.fsb@[k].size == self.cpus@[d].fsb@[k].size
                    && (self.fsb@[k].backing is Mappable) == (self.cpus@[d].fsb@[k].backing is Mappable) by {
                    assert(old(self).fsb@[k].base == self.fsb@[k].base);
                    assert(old(self).cpus@[d].fsb@[k].base == self.cpus@[d].fsb@[k].base);
                }
            }
        }
        Ok(())
    }
}

/// Setting a general-purpose register of a registered MIPS CPU to a value
/// of at most 32 bits succeeds, and reading it back answers that value;
/// register 0 keeps reading as zero.
pub proof fn lemma_register_round_trip<S: BusSlave + Clone, H: Hook + Clone>(
    s0: System<S, H>,
    s1: System<S, H>,
    cookie: CpuCookie,
    n: u32,
    v: u64,
    r: Result<(), Error>,
)
    requires
        s0.wf(),
        s0.valid(cookie),
        n <= 31,
        v <= mips::translate::U32_MAX,
        System::reg_set(s0, s1, cookie, CpuReg::CpuSpecific(n), v, r),
    ensures
        r is Ok,
        n != 0 ==> System::reg_read(s1, cookie, CpuReg::CpuSpecific(n)) == Ok::<u64, Error>(v),
        System::reg_read(s1, cookie, CpuReg::CpuSpecific(0)) == Ok::<u64, Error>(0),
{
    mips::translate::lemma_gpr_round_trip(
        s0.cpu_translator(cookie.id()),
        s0.cpu_registers(cookie.id()),
        s1.cpu_registers(cookie.id()),
        n,
        v,
    );
}

/// Of two settings of one register of one CPU, the later is what a read of
/// it answers, register 0 of a MIPS core always answering zero.
pub proof fn lemma_ordered_delivery<S: BusSlave + Clone, H: Hook + Clone>(
    s0: System<S, H>,
    s1: System<S, H>,
    s2: System<S, H>,
    cookie: CpuCookie,
    reg: CpuReg,
    v1: u64,
    v2: u64,
)
    requires
        s0.wf(),
        System::reg_set(s0, s1, cookie, reg, v1, Ok(())),
        System::reg_set(s1, s2, cookie, reg, v2, Ok(())),
    ensures
        System::reg_read(s2, cookie, reg) == if reg == CpuReg::CpuSpecific(0) {
            Ok::<u64, Error>(0)
        } else {
            Ok::<u64, Error>(v2)
        },
{
    let h = cookie.id();
    mips::translate::lemma_latest_write_wins(
        s0.cpu_translator(h),
        s0.cpu_registers(h),
        s1.cpu_registers(h),
        s2.cpu_registers(h),
        reg,
        v1,
        v2,
    );
}

} // verus!
