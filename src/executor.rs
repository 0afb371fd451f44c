//! The executor: a CPU as an actor that serves messages in the order they
//! arrive and runs guest code one instruction block at a time.

use vstd::prelude::*;

use crate::iisa::{
    block_ran,
    ends_block,
    interpret_op_list,
    is_end_of_block,
    Instr,
    RegisterFile,
    Translator,
};
use crate::mem::{same_layout, bytes_set, first_host_cover, host_bytes, host_span, no_host_cover, splice, stored, replica, BusMatrix, BusMatrixUpdateOp, BusSlave, MemRange};
use crate::{CpuReg, Error, ExitReason, Hook, TraceExitHint};

verus! {

/// Bytes in a page of guest code.
pub const PAGE_SIZE: usize = 4096;

/// The base of the page that holds `pc`.
pub open spec fn page_of(pc: u64) -> u64 {
    pc & !0xfffu64
}

/// The guest code from `pc` to the end of its page, as the bus view `ranges`
/// holds it at the physical address of the page; or why it cannot be
/// had.
pub open spec fn code_at<T: Translator, S>(t: T, pc: u64, ranges: Seq<MemRange<S>>) -> Result<
    Seq<u8>,
    Error,
> {
    let page = page_of(pc);
    match t.spec_virtual_to_phys(page) {
        None => Err(Error::VirtualAddrNotMappable(page)),
        Some(phys) => if no_host_cover(ranges, phys as int, PAGE_SIZE as int) {
            Err(Error::UnableToFindRange(phys, PAGE_SIZE))
        } else {
            Ok(
                host_span(ranges, phys as int, PAGE_SIZE as int).subrange(
                    pc - page,
                    PAGE_SIZE as int,
                ),
            )
        },
    }
}

/// The bytes that a block advances the program counter by.
pub open spec fn block_size(instrs: Seq<Instr>) -> nat
    decreases instrs.len(),
{
    if instrs.len() == 0 {
        0
    } else {
        (block_size(instrs.drop_last()) + instrs.last().size) as nat
    }
}

/// One page of guest code, copied from the bus, with its guest address.
struct Page {
    base: u64,
    data: Vec<u8>,
}

impl Page {
    fn new(base: u64, data: Vec<u8>) -> (r: Page)
        ensures
            r.base == base,
            r.data@ == data@,
    {
        Page { base, data }
    }

    /// Decodes the block at `pc`; `InvalidPC` when `pc` lies outside this
    /// page.
    fn decode_at<T: Translator>(&self, pc: u64, translator: &T) -> (r: Result<Vec<Instr>, Error>)
        ensures
            !(self.base <= pc < self.base + self.data@.len()) ==> r == Err::<Vec<Instr>, Error>(
                Error::InvalidPC,
            ),
            self.base <= pc < self.base + self.data@.len() ==> match translator.spec_decode(
                pc,
                self.data@.subrange(pc - self.base, self.data@.len() as int),
            ) {
                Some(b) => r is Ok && r->Ok_0@ == b,
                None => r is Err && r->Err_0 is Unimplemented,
            },
    {
        if pc < self.base || pc - self.base >= self.data.len() as u64 {
            return Err(Error::InvalidPC);
        }
        let offset = (pc - self.base) as usize;
        let (_, code) = self.data.as_slice().split_at(offset);
        assert(code@ == self.data@.subrange(offset as int, self.data@.len() as int));
        translator.decode(pc, code)
    }
}

/// A hook bound to one guest address.
pub struct CodeHook<H> {
    pub base: u64,
    pub hook: H,
}

/// A request to a CPU.
pub enum Message<S, H> {
    Shutdown,
    FsbUpdateOp(BusMatrixUpdateOp<S>),
    /// Bytes to store into the host memory of the CPU's view at an address.
    SetRange(Vec<u8>, u64),
    SetReg(CpuReg, u64),
    GetReg(CpuReg),
    AddBlockHookAll(H),
    AddCodeHookSingle(u64, H),
    Execute,
    /// Execute, stopping once the program counter leaves `[begin, end)`.
    ExecuteWithin(u64, u64),
}

/// The answer to a request.
pub enum Reply {
    Done(Result<(), Error>),
    Value(Result<u64, Error>),
}

#[derive(Clone, Copy, Debug, PartialEq, Eq, Structural)]
pub enum ExecutionState {
    Paused,
    Executing,
}

/// The state of one CPU: its translator, its view of the bus, its
/// registers and hooks, and whether it is executing.
pub struct Backend<T, S, H> {
    pub translator: T,
    pub fsb: BusMatrix<S>,
    pub registers: RegisterFile,
    pub hooks_on_all: Vec<H>,
    pub code_hooks_on_single: Vec<CodeHook<H>>,
    pub execution_state: ExecutionState,
    pub block_start: bool,
    /// The addresses `[begin, end)` that an execution may not leave.
    pub window: Option<(u64, u64)>,
    /// The hooks consulted by the latest step, in order, with their answers.
    pub last_calls: Ghost<Seq<HookCall>>,
}

impl<T: Translator, S: BusSlave + Clone, H: Hook> Backend<T, S, H> {
    pub open spec fn wf(&self) -> bool {
        self.fsb.wf() && self.registers.wf()
    }

    /// Only the registers and the bus view may differ from `old`.
    pub open spec fn same_setup(&self, old: &Self) -> bool {
        &&& self.translator == old.translator
        &&& self.hooks_on_all@ == old.hooks_on_all@
        &&& self.code_hooks_on_single@ == old.code_hooks_on_single@
        &&& self.window == old.window
    }

    /// The program counter has left the execution window.
    pub open spec fn left_window(&self) -> bool {
        match self.window {
            Some((begin, end)) => !(begin <= self.registers.pc < end),
            None => false,
        }
    }

    /// Nothing differs from `old` but the execution state.
    pub open spec fn unchanged_but_state(&self, old: &Self) -> bool {
        &&& self.same_setup(old)
        &&& self.registers == old.registers
        &&& self.fsb == old.fsb
        &&& self.block_start == old.block_start
    }

    /// A paused CPU with zeroed registers, an empty bus view and no hooks.
    pub fn new(translator: T) -> (r: Self)
        ensures
            r.wf(),
            r.translator == translator,
            r.fsb@ == Seq::<MemRange<S>>::empty(),
            r.fsb.pending() == Seq::<Seq<BusMatrixUpdateOp<S>>>::empty(),
            r.registers.pc == 0,
            forall|i: int| 0 <= i < 1024 ==> #[trigger] r.registers.lane(i) == 0,
            r.hooks_on_all@.len() == 0,
            r.code_hooks_on_single@.len() == 0,
            r.execution_state == ExecutionState::Paused,
            r.block_start,
            r.window is None,
    {
        Backend {
            translator,
            fsb: BusMatrix::new(),
            registers: RegisterFile::new(),
            hooks_on_all: Vec::new(),
            code_hooks_on_single: Vec::new(),
            execution_state: ExecutionState::Paused,
            block_start: true,
            window: None,
            last_calls: Ghost(Seq::empty()),
        }
    }

    /// The instructions at the program counter, fetched through the
    /// physical address of its page in this CPU's view of the bus.
    fn fetch(&self) -> (r: Result<Vec<Instr>, Error>)
        requires
            self.wf(),
        ensures
            match code_at(self.translator, self.registers.pc, self.fsb@) {
                Err(e) => r == Err::<Vec<Instr>, Error>(e),
                Ok(code) => match self.translator.spec_decode(self.registers.pc, code) {
                    Some(b) => r is Ok && r->Ok_0@ == b,
                    None => r is Err && r->Err_0 is Unimplemented,
                },
            },
    {
        let pc = self.registers.pc;
        let page_virt_base = pc & !0xfffu64;
        let page_phys_base = match self.translator.virtual_to_phys(&self.registers, page_virt_base) {
            Some(phys) => phys,
            None => {
                return Err(Error::VirtualAddrNotMappable(page_virt_base));
            },
        };
        let page_mem = match self.fsb.copy_range(page_phys_base, PAGE_SIZE) {
            Ok(bytes) => bytes,
            Err(err) => {
                return Err(err);
            },
        };
        assert(page_virt_base <= pc && pc - page_virt_base < 4096) by (bit_vector)
            requires
                page_virt_base == pc & !0xfffu64,
        ;
        let page = Page::new(page_virt_base, page_mem);
        page.decode_at(pc, &self.translator)
    }
}

/// The size handed to hooks for a block: its byte count, or the largest
/// `u64` where that does not fit.
pub open spec fn hook_size(instrs: Seq<Instr>) -> u64 {
    if block_size(instrs) <= u64::MAX {
        block_size(instrs) as u64
    } else {
        u64::MAX
    }
}

fn block_bytes(instrs: &Vec<Instr>) -> (r: u64)
    ensures
        r == hook_size(instrs@),
{
    let mut sum: u64 = 0;
    let mut i: usize = 0;
    while i < instrs.len()
        invariant
            i <= instrs@.len(),
            sum == hook_size(instrs@.subrange(0, i as int)),
        decreases instrs@.len() - i,
    {
        let size = instrs[i].size as u64;
        assert(instrs@.subrange(0, i + 1).drop_last() =~= instrs@.subrange(0, i as int));
        if sum > u64::MAX - size {
            sum = u64::MAX;
        } else {
            sum = sum + size;
        }
        i = i + 1;
    }
    assert(instrs@.subrange(0, i as int) =~= instrs@);
    sum
}

/// One consultation of a hook: whether it is a block hook, its place in
/// its list, what it was handed, and what it answered.
#[derive(Clone, Copy, Debug, PartialEq, Eq, Structural)]
pub struct HookCall {
    pub block: bool,
    pub index: usize,
    pub pc: u64,
    pub size: u64,
    pub answer: TraceExitHint,
}

/// The places, in order, of those of the first `n` code hooks that are
/// bound to `pc`.
pub open spec fn code_due<H>(hooks: Seq<CodeHook<H>>, pc: u64, n: int) -> Seq<usize>
    decreases n,
{
    if n <= 0 {
        seq![]
    } else {
        let p = code_due(hooks, pc, n - 1);
        if hooks[n - 1].base == pc {
            p.push((n - 1) as usize)
        } else {
            p
        }
    }
}

/// `calls` consulted, with `(pc, size)`, every block hook in order when a
/// basic block starts, then every code hook bound to `pc` in order.
pub open spec fn calls_due<H>(
    calls: Seq<HookCall>,
    block_start: bool,
    n_block: nat,
    code_hooks: Seq<CodeHook<H>>,
    pc: u64,
    size: u64,
) -> bool {
    let nb: int = if block_start {
        n_block as int
    } else {
        0
    };
    let due = code_due(code_hooks, pc, code_hooks.len() as int);
    &&& calls.len() == nb + due.len()
    &&& forall|m: int|
        0 <= m < nb ==> (#[trigger] calls[m]).block && calls[m].index == m && calls[m].pc == pc
            && calls[m].size == size
    &&& forall|m: int|
        0 <= m < due.len() ==> !(#[trigger] calls[nb + m]).block && calls[nb + m].index == due[m]
            && calls[nb + m].pc == pc && calls[nb + m].size == size
}

/// Some call in `calls` answered `StopExecution`.
pub open spec fn some_stop(calls: Seq<HookCall>) -> bool {
    exists|m: int| 0 <= m < calls.len() && (#[trigger] calls[m]).answer == TraceExitHint::StopExecution
}

impl<T: Translator, S: BusSlave + Clone, H: Hook> Backend<T, S, H> {
    /// `new` is `old` after one step that answered `r`: the block at the
    /// program counter was fetched, decoded and run; the block hooks were
    /// consulted at the start of a basic block and the code hooks bound to
    /// the program counter always; a stop is only asked for by some hook.
    pub open spec fn stepped_once(old: Self, new: Self, r: Result<TraceExitHint, Error>) -> bool {
        let pc = old.registers.pc;
        &&& new.wf()
        &&& new.same_setup(&old)
        &&& new.execution_state == old.execution_state
        &&& same_layout(old.fsb@, new.fsb@)
        &&& match code_at(old.translator, pc, old.fsb@) {
            Err(e) => r == Err::<TraceExitHint, Error>(e) && new.registers == old.registers
                && new.fsb == old.fsb && new.block_start == old.block_start
                && new.last_calls@.len() == 0,
            Ok(code) => match old.translator.spec_decode(pc, code) {
                None => r is Err && r->Err_0 is Unimplemented && new.registers == old.registers
                    && new.fsb == old.fsb && new.block_start == old.block_start
                    && new.last_calls@.len() == 0,
                Some(b) => {
                    &&& r is Err ==> block_ran(
                        b,
                        old.registers,
                        new.registers,
                        old.fsb,
                        new.fsb,
                        Err(r->Err_0),
                    )
                    &&& r is Ok ==> block_ran(
                        b,
                        old.registers,
                        new.registers,
                        old.fsb,
                        new.fsb,
                        Ok(()),
                    ) && (b.len() > 0 ==> new.block_start == ends_block(b.last().op))
                    &&& calls_due(
                        new.last_calls@,
                        old.block_start,
                        old.hooks_on_all@.len(),
                        old.code_hooks_on_single@,
                        pc,
                        hook_size(b),
                    )
                    &&& r is Ok ==> (r == Ok::<TraceExitHint, Error>(TraceExitHint::StopExecution)
                        <==> some_stop(new.last_calls@))
                },
            },
        }
    }

    /// Runs the block at the program counter, consulting the hooks first;
    /// answers whether some hook asked to stop.
    pub fn single_step(&mut self) -> (r: Result<TraceExitHint, Error>)
        requires
            old(self).wf(),
        ensures
            Self::stepped_once(*old(self), *final(self), r),
    {
        let pc = self.registers.pc;
        let instrs = match self.fetch() {
            Ok(instrs) => instrs,
            Err(e) => {
                self.last_calls = Ghost(Seq::empty());
                return Err(e);
            },
        };
        let size = block_bytes(&instrs);
        let mut hint = TraceExitHint::ContinueExecution;
        let ghost mut calls: Seq<HookCall> = Seq::empty();
        let ghost nb: int = if self.block_start {
            self.hooks_on_all@.len() as int
        } else {
            0
        };
        if self.block_start {
            let mut i: usize = 0;
            while i < self.hooks_on_all.len()
                invariant
                    i <= self.hooks_on_all@.len(),
                    calls.len() == i,
                    forall|m: int|
                        0 <= m < i ==> (#[trigger] calls[m]).block && calls[m].index == m
                            && calls[m].pc == pc && calls[m].size == size,
                    (hint == TraceExitHint::StopExecution) == some_stop(calls),
                decreases self.hooks_on_all@.len() - i,
            {
                let answer = self.hooks_on_all[i].call(pc, size);
                if let TraceExitHint::StopExecution = answer {
                    hint = TraceExitHint::StopExecution;
                }
                proof {
                    let call = HookCall { block: true, index: i, pc, size, answer };
                    let old_calls = calls;
                    calls = calls.push(call);
                    if some_stop(old_calls) {
                        let m = choose|m: int| 0 <= m < old_calls.len() && (#[trigger] old_calls[m]).answer == TraceExitHint::StopExecution;
                        assert(calls[m] == old_calls[m]);
                    }
                    if answer == TraceExitHint::StopExecution {
                        assert(calls[i as int] == call);
                    }
                    if some_stop(calls) {
                        let m = choose|m: int| 0 <= m < calls.len() && (#[trigger] calls[m]).answer == TraceExitHint::StopExecution;
                        if m < i {
                            assert(old_calls[m] == calls[m]);
                        }
                    }
                    assert forall|m: int| 0 <= m < i + 1 implies (#[trigger] calls[m]).block && calls[m].index == m
                        && calls[m].pc == pc && calls[m].size == size by {
                        if m < i {
                            assert(calls[m] == old_calls[m]);
                        }
                    }
                }
                i = i + 1;
            }
        }
        let mut k: usize = 0;
        while k < self.code_hooks_on_single.len()
            invariant
                k <= self.code_hooks_on_single@.len(),
                nb == (if self.block_start { self.hooks_on_all@.len() as int } else { 0 }),
                calls.len() == nb + code_due(self.code_hooks_on_single@, pc, k as int).len(),
                forall|m: int|
                    0 <= m < nb ==> (#[trigger] calls[m]).block && calls[m].index == m
                        && calls[m].pc == pc && calls[m].size == size,
                forall|m: int|
                    0 <= m < code_due(self.code_hooks_on_single@, pc, k as int).len() ==> !(#[trigger] calls[nb + m]).block
                        && calls[nb + m].index == code_due(self.code_hooks_on_single@, pc, k as int)[m]
                        && calls[nb + m].pc == pc && calls[nb + m].size == size,
                (hint == TraceExitHint::StopExecution) == some_stop(calls),
            decreases self.code_hooks_on_single@.len() - k,
        {
            let ghost due = code_due(self.code_hooks_on_single@, pc, k as int);
            let hook = &self.code_hooks_on_single[k];
            if hook.base == pc {
                let answer = hook.hook.call(pc, size);
                if let TraceExitHint::StopExecution = answer {
                    hint = TraceExitHint::StopExecution;
                }
                proof {
                    let call = HookCall { block: false, index: k, pc, size, answer };
                    let old_calls = calls;
                    calls = calls.push(call);
                    let due2 = code_due(self.code_hooks_on_single@, pc, k + 1);
                    assert(due2 == due.push(k));
                    if some_stop(old_calls) {
                        let m = choose|m: int| 0 <= m < old_calls.len() && (#[trigger] old_calls[m]).answer == TraceExitHint::StopExecution;
                        assert(calls[m] == old_calls[m]);
                    }
                    if answer == TraceExitHint::StopExecution {
                        assert(calls[old_calls.len() as int] == call);
                    }
                    if some_stop(calls) {
                        let m = choose|m: int| 0 <= m < calls.len() && (#[trigger] calls[m]).answer == TraceExitHint::StopExecution;
                        if m < old_calls.len() {
                            assert(old_calls[m] == calls[m]);
                        }
                    }
                    assert forall|m: int| 0 <= m < nb implies (#[trigger] calls[m]).block && calls[m].index == m
                        && calls[m].pc == pc && calls[m].size == size by {
                        assert(calls[m] == old_calls[m]);
                    }
                    assert forall|m: int| 0 <= m < due2.len() implies !(#[trigger] calls[nb + m]).block
                        && calls[nb + m].index == due2[m] && calls[nb + m].pc == pc && calls[nb + m].size == size by {
                        if m < due.len() {
                            assert(calls[nb + m] == old_calls[nb + m]);
                        }
                    }
                }
            } else {
                assert(code_due(self.code_hooks_on_single@, pc, k + 1) == due);
            }
            k = k + 1;
        }
        self.last_calls = Ghost(calls);
        match interpret_op_list(&instrs, &mut self.registers, &mut self.fsb) {
            Ok(()) => {},
            Err(e) => {
                return Err(e);
            },
        }
        if instrs.len() > 0 {
            self.block_start = is_end_of_block(&instrs[instrs.len() - 1].op);
        }
        Ok(hint)
    }

    /// `self` with its execution state set to `st`.
    pub open spec fn in_state(self, st: ExecutionState) -> Self {
        Backend { execution_state: st, ..self }
    }

    /// `self` set executing within `window`.
    pub open spec fn started(self, window: Option<(u64, u64)>) -> Self {
        Backend { execution_state: ExecutionState::Executing, window, ..self }
    }

    /// `trace` is `n` steps that each ran a block and asked to go on.
    pub open spec fn continued(trace: Seq<Self>, n: int) -> bool {
        &&& trace.len() == n + 1
        &&& forall|j: int|
            0 <= j < n ==> Self::stepped_once(
                #[trigger] trace[j],
                trace[j + 1],
                Ok(TraceExitHint::ContinueExecution),
            )
    }

    /// One step of an executing CPU: runs the block at the program counter
    /// and pauses when a hook asks to stop, the step fails, or the program
    /// counter leaves the execution window, answering why; answers `None`
    /// when execution goes on.
    pub fn run_step(&mut self) -> (r: Option<Result<ExitReason, Error>>)
        requires
            old(self).wf(),
            old(self).execution_state == ExecutionState::Executing,
        ensures
            match r {
                None => Self::stepped_once(*old(self), *final(self), Ok(TraceExitHint::ContinueExecution))
                    && !final(self).left_window(),
                Some(Ok(ExitReason::PcOutOfRange(pc))) => Self::stepped_once(
                    *old(self),
                    final(self).in_state(ExecutionState::Executing),
                    Ok(TraceExitHint::ContinueExecution),
                ) && final(self).left_window() && pc == final(self).registers.pc
                    && final(self).execution_state == ExecutionState::Paused,
                Some(Ok(reason)) => reason == ExitReason::CodeHookSignalledStop && Self::stepped_once(
                    *old(self),
                    final(self).in_state(ExecutionState::Executing),
                    Ok(TraceExitHint::StopExecution),
                ) && final(self).execution_state == ExecutionState::Paused,
                Some(Err(e)) => Self::stepped_once(
                    *old(self),
                    final(self).in_state(ExecutionState::Executing),
                    Err(e),
                ) && final(self).execution_state == ExecutionState::Paused,
            },
    {
        match self.single_step() {
            Ok(TraceExitHint::ContinueExecution) => self.check_window(),
            Ok(TraceExitHint::StopExecution) => {
                self.execution_state = ExecutionState::Paused;
                Some(Ok(ExitReason::CodeHookSignalledStop))
            },
            Err(e) => {
                self.execution_state = ExecutionState::Paused;
                Some(Err(e))
            },
        }
    }

    /// Pauses, answering the program counter, once it is outside the
    /// execution window.
    fn check_window(&mut self) -> (r: Option<Result<ExitReason, Error>>)
        ensures
            r is None ==> *final(self) == *old(self) && !old(self).left_window(),
            r is Some ==> old(self).left_window() && *final(self) == old(self).in_state(
                ExecutionState::Paused,
            ) && r == Some(Ok::<ExitReason, Error>(ExitReason::PcOutOfRange(old(self).registers.pc))),
    {
        if let Some((begin, end)) = self.window {
            let pc = self.registers.pc;
            if !(begin <= pc && pc < end) {
                self.execution_state = ExecutionState::Paused;
                return Some(Ok(ExitReason::PcOutOfRange(pc)));
            }
        }
        None
    }

    /// `new` is `old` after an execution of at most `max_steps` steps that
    /// answered `r`: steps that asked to go on, then the one that stopped
    /// or failed, or `max_steps` of them.
    pub open spec fn executed(old: Self, new: Self, max_steps: u64, r: Result<ExitReason, Error>) -> bool {
        let last = new.in_state(ExecutionState::Executing);
        &&& r == Ok::<ExitReason, Error>(ExitReason::StepLimitReached) ==> exists|t: Seq<Self>|
            #[trigger] Self::continued(t, max_steps as int) && t[0] == old && t.last() == last
        &&& r == Ok::<ExitReason, Error>(ExitReason::CodeHookSignalledStop) ==> exists|
            t: Seq<Self>,
            n: int,
        |
            #[trigger] Self::continued(t, n) && n < max_steps && t[0] == old && Self::stepped_once(
                t[n],
                last,
                Ok(TraceExitHint::StopExecution),
            )
        &&& r is Err ==> exists|t: Seq<Self>, n: int|
            #[trigger] Self::continued(t, n) && n < max_steps && t[0] == old && Self::stepped_once(
                t[n],
                last,
                Err(r->Err_0),
            )
        &&& r matches Ok(ExitReason::PcOutOfRange(pc)) ==> exists|t: Seq<Self>, n: int|
            #[trigger] Self::continued(t, n) && 0 < n <= max_steps && t[0] == old && t.last() == last
                && last.left_window() && pc == last.registers.pc
    }

    /// Steps until a hook asks to stop, a step fails, or `max_steps` steps
    /// have run; then pauses.
    pub fn execute(&mut self, max_steps: u64) -> (r: Result<ExitReason, Error>)
        requires
            old(self).wf(),
            old(self).execution_state == ExecutionState::Executing,
        ensures
            final(self).wf(),
            final(self).execution_state == ExecutionState::Paused,
            final(self).same_setup(old(self)),
            same_layout(old(self).fsb@, final(self).fsb@),
            Self::executed(*old(self), *final(self), max_steps, r),
    {
        let ghost mut t: Seq<Self> = seq![*self];
        let mut steps: u64 = 0;
        while steps < max_steps
            invariant
                self.wf(),
                self.execution_state == ExecutionState::Executing,
                steps <= max_steps,
                Self::continued(t, steps as int),
                t[0] == *old(self),
                t.last() == *self,
                self.same_setup(old(self)),
                same_layout(old(self).fsb@, self.fsb@),
            decreases max_steps - steps,
        {
            let ghost before = *self;
            let res = self.single_step();
            match res {
                Ok(TraceExitHint::ContinueExecution) => {
                    proof {
                        let t2 = t.push(*self);
                        assert forall|j: int| 0 <= j < steps + 1 implies Self::stepped_once(
                            #[trigger] t2[j],
                            t2[j + 1],
                            Ok(TraceExitHint::ContinueExecution),
                        ) by {
                            if j < steps {
                                assert(t2[j] == t[j] && t2[j + 1] == t[j + 1]);
                            } else {
                                assert(t2[j] == before);
                            }
                        }
                        t = t2;
                    }
                    steps = steps + 1;
                    if let Some(exit) = self.check_window() {
                        assert(Self::continued(t, steps as int));
                        return exit;
                    }
                },
                Ok(TraceExitHint::StopExecution) => {
                    self.execution_state = ExecutionState::Paused;
                    assert(Self::continued(t, steps as int));
                    assert(*self == self.in_state(ExecutionState::Paused));
                    return Ok(ExitReason::CodeHookSignalledStop);
                },
                Err(e) => {
                    self.execution_state = ExecutionState::Paused;
                    assert(Self::continued(t, steps as int));
                    return Err(e);
                },
            }
        }
        self.execution_state = ExecutionState::Paused;
        assert(Self::continued(t, max_steps as int));
        Ok(ExitReason::StepLimitReached)
    }

    /// A message is well formed when a range it adds is.
    pub open spec fn message_wf(msg: Message<S, H>) -> bool {
        match msg {
            Message::FsbUpdateOp(op) => op.added().wf(),
            _ => true,
        }
    }

    /// `new` is `old` after serving `msg` with the answer `r`: whether to
    /// keep serving, and the reply owed, if any.
    pub open spec fn processed(
        old: Self,
        new: Self,
        msg: Message<S, H>,
        r: (bool, Option<Reply>),
    ) -> bool {
        let done = Some(Reply::Done(Ok(())));
        match msg {
            Message::Shutdown => r == (false, done) && new == old,
            Message::FsbUpdateOp(op) => {
                &&& r == (true, done)
                &&& new.fsb@ == old.fsb@.push(op.added())
                &&& new.fsb.pending() == old.fsb.pending()
                &&& new == Backend { fsb: new.fsb, ..old }
            },
            Message::SetRange(bytes, base) => {
                &&& new == Backend { fsb: new.fsb, ..old }
                &&& new.fsb.wf()
                &&& new.fsb.pending() == old.fsb.pending()
                &&& same_layout(old.fsb@, new.fsb@)
                &&& if no_host_cover(old.fsb@, base as int, bytes@.len() as int) {
                    r == (true, Some(Reply::Done(Err(Error::UnableToFindRange(base, bytes@.len() as usize)))))
                        && new == old
                } else {
                    r == (true, done) && bytes_set(old.fsb@, new.fsb@, base as int, bytes@)
                }
            },
            Message::GetReg(reg) => r == (true, Some(
                Reply::Value(old.translator.spec_get_reg(old.registers, reg)),
            )) && new == old,
            Message::SetReg(reg, v) => {
                &&& new == Backend { registers: new.registers, ..old }
                &&& new.registers.wf()
                &&& match old.translator.spec_set_reg_error(reg, v) {
                    Some(e) => r == (true, Some(Reply::Done(Err(e)))) && new == old,
                    None => r == (true, done) && old.translator.spec_set_reg_done(
                        old.registers,
                        new.registers,
                        reg,
                        v,
                    ),
                }
            },
            Message::AddBlockHookAll(h) => {
                &&& r == (true, done)
                &&& new.hooks_on_all@ == old.hooks_on_all@.push(h)
                &&& new == Backend { hooks_on_all: new.hooks_on_all, ..old }
            },
            Message::AddCodeHookSingle(base, h) => {
                &&& r == (true, done)
                &&& new.code_hooks_on_single@ == old.code_hooks_on_single@.push(
                    CodeHook { base, hook: h },
                )
                &&& new == Backend { code_hooks_on_single: new.code_hooks_on_single, ..old }
            },
            Message::Execute => r == (true, None::<Reply>) && new == old.started(None),
            Message::ExecuteWithin(begin, end) => r == (true, None::<Reply>) && new == old.started(
                Some((begin, end)),
            ),
        }
    }

    /// Serves one message.
    pub fn process_message(&mut self, msg: Message<S, H>) -> (r: (bool, Option<Reply>))
        requires
            old(self).wf(),
            Self::message_wf(msg),
        ensures
            final(self).wf(),
            Self::processed(*old(self), *final(self), msg, r),
    {
        match msg {
            Message::Shutdown => {
                return (false, Some(Reply::Done(Ok(()))));
            },
            Message::FsbUpdateOp(update_op) => {
                self.fsb.apply_update_op(update_op);
                (true, Some(Reply::Done(Ok(()))))
            },
            Message::SetRange(bytes, base) => {
                let ghost old_fsb = self.fsb;
                let slice = bytes.as_slice();
                assert(slice@ == bytes@);
                let result = match self.fsb.set_range(slice, base) {
                    Ok(()) => Ok(()),
                    Err(e) => Err(e),
                };
                proof {
                    if result is Ok {
                        let i = choose|i: int|
                            first_host_cover(old_fsb@, base as int, bytes@.len() as int, i)
                                && self.fsb@ == old_fsb@.update(i, self.fsb@[i]) && stored(
                                #[trigger] old_fsb@[i],
                                self.fsb@[i],
                                splice(host_bytes(old_fsb@[i]), base - old_fsb@[i].base, bytes@),
                            );
                        assert(!no_host_cover(old_fsb@, base as int, bytes@.len() as int));
                    }
                }
                (true, Some(Reply::Done(result)))
            },
            Message::GetReg(reg) => {
                let value = self.translator.get_reg(&self.registers, reg);
                (true, Some(Reply::Value(value)))
            },
            Message::SetReg(reg, value) => {
                let result = self.translator.set_reg(&mut self.registers, reg, value);
                (true, Some(Reply::Done(result)))
            },
            Message::AddBlockHookAll(hook) => {
                self.hooks_on_all.push(hook);
                (true, Some(Reply::Done(Ok(()))))
            },
            Message::AddCodeHookSingle(base, hook) => {
                self.code_hooks_on_single.push(CodeHook { base, hook });
                (true, Some(Reply::Done(Ok(()))))
            },
            Message::Execute => {
                self.execution_state = ExecutionState::Executing;
                self.window = None;
                (true, None)
            },
            Message::ExecuteWithin(begin, end) => {
                self.execution_state = ExecutionState::Executing;
                self.window = Some((begin, end));
                (true, None)
            },
        }
    }

    /// Serves, in order, the bus update events `ops`.
    pub fn deliver(&mut self, ops: Vec<BusMatrixUpdateOp<S>>)
        requires
            old(self).wf(),
            forall|k: int| 0 <= k < ops@.len() ==> (#[trigger] ops@[k]).added().wf(),
        ensures
            final(self).wf(),
            final(self).fsb@ == old(self).fsb@ + Seq::new(ops@.len(), |k: int| ops@[k].added()),
            final(self).fsb.pending() == old(self).fsb.pending(),
            *final(self) == (Backend { fsb: final(self).fsb, ..*old(self) }),
    {
        let ghost all = ops@;
        let mut ops = ops;
        while ops.len() > 0
            invariant
                self.wf(),
                ops@.len() <= all.len(),
                ops@ == all.subrange(all.len() - ops@.len(), all.len() as int),
                forall|k: int| 0 <= k < ops@.len() ==> (#[trigger] ops@[k]).added().wf(),
                self.fsb@ == old(self).fsb@ + Seq::new(
                    (all.len() - ops@.len()) as nat,
                    |k: int| all[k].added(),
                ),
                self.fsb.pending() == old(self).fsb.pending(),
                *self == (Backend { fsb: self.fsb, ..*old(self) }),
            decreases ops@.len(),
        {
            let ghost before = self.fsb@;
            let ghost done = all.len() - ops@.len();
            assert(ops@[0] == all[done]);
            assert(ops@[0].added().wf());
            let op = ops.remove(0);
            self.process_message(Message::FsbUpdateOp(op));
            assert(ops@ =~= all.subrange(all.len() - ops@.len(), all.len() as int));
            assert(self.fsb@ =~= old(self).fsb@ + Seq::new(
                (all.len() - ops@.len()) as nat,
                |k: int| all[k].added(),
            ));
        }
        assert(Seq::new(all.len(), |k: int| all[k].added()) =~= Seq::new(
            (all.len() - ops@.len()) as nat,
            |k: int| all[k].added(),
        ));
    }
}

/// Makes a paused CPU around `translator`, installs its bus view as a new
/// child of `fsb`, and hands it every range that `fsb` holds.
pub fn executor<T: Translator, S: BusSlave + Clone, H: Hook>(
    translator: T,
    fsb: &mut BusMatrix<S>,
) -> (r: Backend<T, S, H>)
    requires
        old(fsb).wf(),
    ensures
        final(fsb).wf(),
        final(fsb)@ == old(fsb)@,
        final(fsb).pending() == old(fsb).pending().push(Seq::empty()),
        r.wf(),
        r.translator == translator,
        r.fsb@.len() == old(fsb)@.len(),
        forall|k: int| 0 <= k < old(fsb)@.len() ==> replica(old(fsb)@[k], #[trigger] r.fsb@[k]),
        r.fsb.pending() == Seq::<Seq<BusMatrixUpdateOp<S>>>::empty(),
        r.registers.pc == 0,
        forall|i: int| 0 <= i < 1024 ==> #[trigger] r.registers.lane(i) == 0,
        r.hooks_on_all@.len() == 0,
        r.code_hooks_on_single@.len() == 0,
        r.execution_state == ExecutionState::Paused,
        r.block_start,
        r.window is None,
{
    let mut backend = Backend::new(translator);
    let child = fsb.add_child_matrix();
    let ops = fsb.take_updates(child);
    assert forall|k: int| 0 <= k < ops@.len() implies (#[trigger] ops@[k]).added().wf() by {
        assert(replica(old(fsb)@[k], ops@[k].added()));
        assert(old(fsb)@[k].wf());
    }
    backend.deliver(ops);
    proof {
        assert(fsb.pending() =~= old(fsb).pending().push(Seq::empty()));
        assert(backend.fsb@ =~= Seq::new(ops@.len(), |k: int| ops@[k].added()));
    }
    backend
}

} // verus!
