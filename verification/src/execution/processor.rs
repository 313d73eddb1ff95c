//! The processor: a state machine that executes a compiled instruction
//! sequence one step (or jump) at a time against a `Context`, producing
//! output and consuming input as side effects.

use vstd::prelude::*;

use crate::compiler::instruction::{wf_program, Instruction, InstructionList};
use crate::compiler::parser::AddUntilZeroArg;
use crate::execution::context::{Context, InSnapshot};
use crate::execution::memory::{
    spec_add, spec_seek, spec_set, MemSnapshot, Memory, MemoryError,
};

verus! {

/// The program counter, owned exclusively by the processor.
struct Counter {
    val: usize,
}

impl Counter {
    fn new() -> (c: Counter)
        ensures
            c.val == 0,
    {
        Counter { val: 0 }
    }

    fn tick(&mut self)
        requires
            old(self).val < usize::MAX,
        ensures
            final(self).val == old(self).val + 1,
    {
        self.val = self.val + 1;
    }

    fn jump(&mut self, target: usize)
        ensures
            final(self).val == target,
    {
        self.val = target;
    }

    fn get(&self) -> (v: usize)
        ensures
            v == self.val,
    {
        self.val
    }
}

/// The life cycle of one processor: `Halted` and `Failed` are terminal.
#[derive(Clone, Copy, PartialEq, Eq, Structural, Debug)]
pub enum ProcessorState {
    Ready,
    Running,
    Halted,
    Failed,
}

/// An error raised by `step` or `run`.
#[derive(Clone, Copy, PartialEq, Eq, Structural, Debug)]
pub enum ProcessorError {
    /// A memory operation failed; the processor is now `Failed`.
    Memory { source: MemoryError },
    /// The program already ran to completion.
    AlreadyHalted,
    /// A previous error left the processor unusable.
    Failed,
    /// The program holds nothing but the sentinel `Halt`.
    Empty,
}

impl From<MemoryError> for ProcessorError {
    fn from(e: MemoryError) -> (r: Self) {
        ProcessorError::Memory { source: e }
    }
}

impl vstd::std_specs::convert::FromSpecImpl<MemoryError> for ProcessorError {
    open spec fn obeys_from_spec() -> bool {
        true
    }

    open spec fn from_spec(e: MemoryError) -> Self {
        ProcessorError::Memory { source: e }
    }
}

/// The mathematical value of one machine configuration: counter, processor
/// state, tape, and both streams.
#[verifier::ext_equal]
pub ghost struct MachineState {
    pub pc: int,
    pub state: ProcessorState,
    pub mem: MemSnapshot,
    pub input: InSnapshot,
    pub output: Seq<i32>,
}

/// A machine that moved its counter to `pc2`: halted exactly when the new
/// position holds the sentinel, running otherwise.
pub open spec fn with_pc(prog: Seq<Instruction>, s: MachineState, pc2: int) -> MachineState {
    MachineState {
        pc: pc2,
        state: if 0 <= pc2 < prog.len() && prog[pc2] is Halt {
            ProcessorState::Halted
        } else {
            ProcessorState::Running
        },
        ..s
    }
}

/// What executing one `AddUntilZero` redistribution list does to a tape:
/// for each entry in order, seek to the offset, add `v × times`, and seek
/// back, stopping at the first failing operation and leaving the tape in
/// that operation's pre-state.
pub open spec fn spec_distribute(m: MemSnapshot, args: Seq<AddUntilZeroArg>, v: int) -> (
    MemSnapshot,
    Option<MemoryError>,
)
    decreases args.len(),
{
    if args.len() == 0 {
        (m, None)
    } else {
        let a = args[0];
        match spec_seek(m, a.offset as int) {
            Err(e) => (m, Some(e)),
            Ok(m1) => match spec_add(m1, v * (a.times as int)) {
                Err(e) => (m1, Some(e)),
                Ok(m2) => match spec_seek(m2, -(a.offset as int)) {
                    Err(e) => (m2, Some(e)),
                    Ok(m3) => spec_distribute(m3, args.drop_first(), v),
                },
            },
        }
    }
}

/// What one whole `AddUntilZero` instruction does to a tape: a no-op when
/// the current cell is zero, else zero the cell and redistribute its value.
pub open spec fn spec_add_until_zero(m: MemSnapshot, args: Seq<AddUntilZeroArg>) -> (
    MemSnapshot,
    Option<MemoryError>,
) {
    let v = m.cells[m.ptr] as int;
    if v == 0 {
        (m, None)
    } else {
        match spec_set(m, 0) {
            Ok(m0) => spec_distribute(m0, args, v),
            Err(e) => (m, Some(e)),
        }
    }
}

/// One machine step: the instruction under the counter applied to the
/// machine, together with the memory error it raises, if any. Terminal
/// machines and machines whose counter left the program are fixed points.
pub open spec fn spec_step(prog: Seq<Instruction>, s: MachineState) -> (
    MachineState,
    Option<MemoryError>,
) {
    if s.state is Halted || s.state is Failed || !(0 <= s.pc < prog.len()) {
        (s, None)
    } else {
        match prog[s.pc] {
            Instruction::Add { val } => match spec_add(s.mem, val as int) {
                Ok(m) => (with_pc(prog, MachineState { mem: m, ..s }, s.pc + 1), None),
                Err(e) => (MachineState { state: ProcessorState::Failed, ..s }, Some(e)),
            },
            Instruction::Seek { offset } => match spec_seek(s.mem, offset as int) {
                Ok(m) => (with_pc(prog, MachineState { mem: m, ..s }, s.pc + 1), None),
                Err(e) => (MachineState { state: ProcessorState::Failed, ..s }, Some(e)),
            },
            Instruction::Clear => match spec_set(s.mem, 0) {
                Ok(m) => (with_pc(prog, MachineState { mem: m, ..s }, s.pc + 1), None),
                Err(e) => (MachineState { state: ProcessorState::Failed, ..s }, Some(e)),
            },
            Instruction::AddUntilZero { target } => {
                let (m2, e) = spec_add_until_zero(s.mem, target@);
                match e {
                    None => (with_pc(prog, MachineState { mem: m2, ..s }, s.pc + 1), None),
                    Some(err) => (
                        MachineState { state: ProcessorState::Failed, mem: m2, ..s },
                        Some(err),
                    ),
                }
            },
            Instruction::Input => {
                let v = s.input.next();
                let inp2 = s.input.advanced();
                match spec_set(s.mem, v as int) {
                    Ok(m) => (
                        with_pc(prog, MachineState { mem: m, input: inp2, ..s }, s.pc + 1),
                        None,
                    ),
                    Err(e) => (
                        MachineState { state: ProcessorState::Failed, input: inp2, ..s },
                        Some(e),
                    ),
                }
            },
            Instruction::Output => (
                with_pc(
                    prog,
                    MachineState { output: s.output.push(s.mem.cells[s.mem.ptr]), ..s },
                    s.pc + 1,
                ),
                None,
            ),
            Instruction::Jump { target } => (with_pc(prog, s, target as int), None),
            Instruction::JumpIfZero { target } => if s.mem.cells[s.mem.ptr] == 0 {
                (with_pc(prog, s, target as int), None)
            } else {
                (with_pc(prog, s, s.pc + 1), None)
            },
            Instruction::Halt => (s, None),
        }
    }
}

/// The machine after `n` steps.
pub open spec fn spec_iterate(prog: Seq<Instruction>, s: MachineState, n: nat) -> MachineState
    decreases n,
{
    if n == 0 {
        s
    } else {
        spec_step(prog, spec_iterate(prog, s, (n - 1) as nat)).0
    }
}

/// A machine that reached a terminal state stays in it forever.
pub proof fn lemma_iterate_stable(prog: Seq<Instruction>, m0: MachineState, k: nat, j: nat)
    requires
        spec_iterate(prog, m0, k).state is Halted || spec_iterate(prog, m0, k).state is Failed,
    ensures
        spec_iterate(prog, m0, k + j) == spec_iterate(prog, m0, k),
    decreases j,
{
    if j > 0 {
        lemma_iterate_stable(prog, m0, k, (j - 1) as nat);
        assert(k + j == (k + (j - 1) as nat) + 1);
    }
}

/// A context is compatible with its tape when, under a strict overflow
/// policy, every value the input stream can still yield is representable;
/// under the wrap policy any input is acceptable.
pub open spec fn compatible(mem: MemSnapshot, input: InSnapshot) -> bool {
    mem.overflow is Strict ==> {
        &&& 0 <= input.eof <= mem.cell_max
        &&& forall|k: int|
            input.pos <= k < input.data.len() ==> 0 <= #[trigger] input.data[k] <= mem.cell_max
    }
}

/// The mathematical value of a processor: counter, state, and program.
#[verifier::ext_equal]
pub ghost struct ProcSnapshot {
    pub pc: int,
    pub state: ProcessorState,
    pub program: Seq<Instruction>,
}

/// A well-formed processor: a well-formed program, the counter on it, a
/// fresh processor at position zero, and a running one never parked on the
/// sentinel.
pub open spec fn proc_wf(p: ProcSnapshot) -> bool {
    &&& wf_program(p.program)
    &&& 0 <= p.pc < p.program.len()
    &&& p.state is Ready ==> p.pc == 0
    &&& p.state is Running ==> !(p.program[p.pc] is Halt)
}

/// The machine configuration of a processor together with its context.
pub open spec fn mach_of(p: ProcSnapshot, c: Context) -> MachineState {
    MachineState {
        pc: p.pc,
        state: p.state,
        mem: c.memory@,
        input: c.in_stream@,
        output: c.out_stream@,
    }
}

/// Whether a finished `run` reached configuration `mf` with result `r`
/// after exactly `n` steps from `m0`.
pub open spec fn run_reaches(
    prog: Seq<Instruction>,
    m0: MachineState,
    n: nat,
    mf: MachineState,
    r: Result<(), ProcessorError>,
) -> bool {
    let prev = spec_iterate(prog, m0, (n - 1) as nat);
    let (m2, e) = spec_step(prog, prev);
    &&& n >= 1
    &&& mf == m2
    &&& mf.state is Halted || mf.state is Failed
    &&& r == (match e {
        None => Ok::<(), ProcessorError>(()),
        Some(err) => Err(ProcessorError::Memory { source: err }),
    })
}

/// The virtual machine: a counter, the program, and a life-cycle state.
pub struct Processor {
    counter: Counter,
    instructions: InstructionList,
    state: ProcessorState,
}

impl View for Processor {
    type V = ProcSnapshot;

    closed spec fn view(&self) -> ProcSnapshot {
        ProcSnapshot {
            pc: self.counter.val as int,
            state: self.state,
            program: self.instructions.0@,
        }
    }
}

impl Processor {
    /// Loads a well-formed program; the processor starts `Ready` at
    /// position 0.
    pub fn new(instructions: InstructionList) -> (p: Processor)
        requires
            wf_program(instructions.0@),
        ensures
            p@ == (ProcSnapshot {
                pc: 0,
                state: ProcessorState::Ready,
                program: instructions.0@,
            }),
            proc_wf(p@),
    {
        Processor { counter: Counter::new(), instructions, state: ProcessorState::Ready }
    }

    /// The processor's current life-cycle state.
    pub fn state(&self) -> (s: ProcessorState)
        ensures
            s == self@.state,
    {
        self.state
    }

    fn abort(&mut self)
        ensures
            final(self)@ == (ProcSnapshot { state: ProcessorState::Failed, ..old(self)@ }),
    {
        self.state = ProcessorState::Failed;
    }

    fn check_halted(&mut self)
        requires
            0 <= old(self)@.pc < old(self)@.program.len(),
        ensures
            final(self)@ == (ProcSnapshot {
                state: if old(self)@.program[old(self)@.pc] is Halt {
                    ProcessorState::Halted
                } else {
                    ProcessorState::Running
                },
                ..old(self)@
            }),
    {
        let idx = self.counter.get();
        if let Instruction::Halt = &self.instructions.0[idx] {
            self.state = ProcessorState::Halted;
        } else {
            self.state = ProcessorState::Running;
        }
    }

    fn tick(&mut self)
        requires
            old(self)@.pc + 1 < old(self)@.program.len(),
        ensures
            final(self)@ == (ProcSnapshot {
                pc: old(self)@.pc + 1,
                state: if old(self)@.program[old(self)@.pc + 1] is Halt {
                    ProcessorState::Halted
                } else {
                    ProcessorState::Running
                },
                ..old(self)@
            }),
    {
        let n = self.instructions.0.len();
        proof {
            assert(self@.pc + 1 < n);
        }
        self.counter.tick();
        self.check_halted();
    }

    /// Executes the redistribution list of one `AddUntilZero` instruction
    /// against the tape, aborting at the first failing memory operation.
    #[verifier::loop_isolation(false)]
    fn add_while_zero(&self, target: &Vec<AddUntilZeroArg>, memory: &mut Memory) -> (r: Result<
        (),
        MemoryError,
    >)
        requires
            old(memory)@.wf(),
        ensures
            final(memory)@.wf(),
            final(memory)@.cell_max == old(memory)@.cell_max,
            final(memory)@.overflow == old(memory)@.overflow,
            ({
                let (m2, e) = spec_add_until_zero(old(memory)@, target@);
                &&& final(memory)@ == m2
                &&& r == (match e {
                    None => Ok::<(), MemoryError>(()),
                    Some(err) => Err(err),
                })
            }),
    {
        let val = memory.get();
        if val == 0 {
            return Ok(());
        }
        let res0 = memory.set(0);
        proof {
            assert(res0 is Ok);
        }
        let ghost m0 = memory@;
        let ghost v = val as int;
        let mut i: usize = 0;
        proof {
            assert(target@.skip(0) =~= target@);
        }
        while i < target.len()
            invariant
                memory@.wf(),
                memory@.cell_max == old(memory)@.cell_max,
                memory@.overflow == old(memory)@.overflow,
                0 <= i <= target@.len(),
                spec_distribute(m0, target@, v) == spec_distribute(
                    memory@,
                    target@.skip(i as int),
                    v,
                ),
            decreases target@.len() - i,
        {
            proof {
                assert(target@.skip(i as int)[0] == target@[i as int]);
                assert(target@.skip(i as int).drop_first() =~= target@.skip(i + 1));
            }
            let a = target[i];
            if let Err(e) = memory.seek(a.offset as i64) {
                return Err(e);
            }
            proof {
                assert(0 <= val as int <= 0x7fff_ffff);
                assert(-0x8000_0000 <= a.times as int <= 0x7fff_ffff);
                assert(-0x8000_0000_0000_0000 <= (val as int) * (a.times as int)
                    < 0x8000_0000_0000_0000) by (nonlinear_arith)
                    requires
                        0 <= val as int <= 0x7fff_ffff,
                        -0x8000_0000 <= a.times as int <= 0x7fff_ffff,
                ;
            }
            let prod: i64 = (val as i64) * (a.times as i64);
            if let Err(e) = memory.add(prod) {
                return Err(e);
            }
            if let Err(e) = memory.seek(-(a.offset as i64)) {
                return Err(e);
            }
            i = i + 1;
        }
        proof {
            assert(target@.skip(target@.len() as int) =~= Seq::<AddUntilZeroArg>::empty());
        }
        Ok(())
    }

    /// Executes the instruction under the counter. Terminal states reject
    /// the call without touching processor or context; otherwise processor
    /// and context advance by exactly one machine step, and a failing
    /// memory operation moves the processor to `Failed` and reports it.
    fn step(&mut self, context: &mut Context) -> (r: Result<(), ProcessorError>)
        requires
            proc_wf(old(self)@),
            old(context).memory@.wf(),
            old(context).in_stream@.wf(),
            compatible(old(context).memory@, old(context).in_stream@),
            (old(self)@.state is Ready || old(self)@.state is Running) ==> !(old(
                self,
            )@.program[old(self)@.pc] is Halt),
        ensures
            final(self)@.program == old(self)@.program,
            proc_wf(final(self)@),
            final(context).memory@.wf(),
            final(context).in_stream@.wf(),
            compatible(final(context).memory@, final(context).in_stream@),
            match old(self)@.state {
                ProcessorState::Halted => {
                    &&& r == Err::<(), ProcessorError>(ProcessorError::AlreadyHalted)
                    &&& final(self)@ == old(self)@
                    &&& *final(context) == *old(context)
                },
                ProcessorState::Failed => {
                    &&& r == Err::<(), ProcessorError>(ProcessorError::Failed)
                    &&& final(self)@ == old(self)@
                    &&& *final(context) == *old(context)
                },
                _ => {
                    let (m2, e) = spec_step(
                        old(self)@.program,
                        mach_of(old(self)@, *old(context)),
                    );
                    &&& mach_of(final(self)@, *final(context)) == m2
                    &&& r == (match e {
                        None => Ok::<(), ProcessorError>(()),
                        Some(err) => Err(ProcessorError::Memory { source: err }),
                    })
                },
            },
    {
        match self.state {
            ProcessorState::Halted => {
                return Err(ProcessorError::AlreadyHalted);
            },
            ProcessorState::Failed => {
                return Err(ProcessorError::Failed);
            },
            _ => {},
        }
        let idx = self.counter.get();
        let ghost prog = self@.program;
        let ghost pre = mach_of(self@, *context);
        let mut jump_to: Option<usize> = None;
        let mut err: Option<MemoryError> = None;
        match &self.instructions.0[idx] {
            Instruction::Add { val } => {
                if let Err(e) = context.memory.add(*val as i64) {
                    err = Some(e);
                }
            },
            Instruction::Seek { offset } => {
                if let Err(e) = context.memory.seek(*offset as i64) {
                    err = Some(e);
                }
            },
            Instruction::Clear => {
                let res = context.memory.set(0);
                proof {
                    assert(res is Ok);
                }
            },
            Instruction::AddUntilZero { target } => {
                if let Err(e) = self.add_while_zero(target, &mut context.memory) {
                    err = Some(e);
                }
            },
            Instruction::Input => {
                let v = context.in_stream.read();
                let res = context.memory.set(v);
                proof {
                    assert(res is Ok);
                }
            },
            Instruction::Output => {
                let v = context.memory.get();
                context.out_stream.write(v);
            },
            Instruction::Jump { target } => {
                jump_to = Some(*target);
            },
            Instruction::JumpIfZero { target } => {
                if context.memory.get() == 0 {
                    jump_to = Some(*target);
                }
            },
            Instruction::Halt => {
                return unreached();
            },
        }
        match err {
            Some(e) => {
                self.abort();
                proof {
                    assert(mach_of(self@, *context) =~= spec_step(prog, pre).0);
                }
                Err(ProcessorError::from(e))
            },
            None => {
                match jump_to {
                    Some(t) => {
                        proof {
                            assert(instr_jump_ok(prog, idx as int));
                        }
                        self.counter.jump(t);
                        self.check_halted();
                        proof {
                            assert(mach_of(self@, *context) =~= spec_step(prog, pre).0);
                        }
                        Ok(())
                    },
                    None => {
                        proof {
                            assert(idx < prog.len() - 1);
                        }
                        self.tick();
                        proof {
                            assert(mach_of(self@, *context) =~= spec_step(prog, pre).0);
                        }
                        Ok(())
                    },
                }
            },
        }
    }

    /// Runs the program to a terminal state. A `Halted` or `Failed`
    /// processor rejects the call without touching anything, as does a
    /// `Ready` processor holding only the sentinel (`Empty`); otherwise
    /// `step` is repeated until the machine halts (`Ok`) or a memory
    /// operation fails (`Err`), after which this processor is permanently
    /// terminal. A program that performs `usize::MAX` steps without
    /// reaching a terminal state fails the processor instead of spinning
    /// further.
    #[verifier::loop_isolation(false)]
    #[verifier::rlimit(100)]
    pub fn run(&mut self, context: &mut Context) -> (r: Result<(), ProcessorError>)
        requires
            proc_wf(old(self)@),
            old(context).memory@.wf(),
            old(context).in_stream@.wf(),
            compatible(old(context).memory@, old(context).in_stream@),
        ensures
            final(self)@.program == old(self)@.program,
            proc_wf(final(self)@),
            final(context).memory@.wf(),
            final(context).in_stream@.wf(),
            compatible(final(context).memory@, final(context).in_stream@),
            match old(self)@.state {
                ProcessorState::Halted => {
                    &&& r == Err::<(), ProcessorError>(ProcessorError::AlreadyHalted)
                    &&& final(self)@ == old(self)@
                    &&& *final(context) == *old(context)
                },
                ProcessorState::Failed => {
                    &&& r == Err::<(), ProcessorError>(ProcessorError::Failed)
                    &&& final(self)@ == old(self)@
                    &&& *final(context) == *old(context)
                },
                _ => {
                    if old(self)@.state is Ready && old(self)@.program.len() == 1 {
                        &&& r == Err::<(), ProcessorError>(ProcessorError::Empty)
                        &&& final(self)@ == old(self)@
                        &&& *final(context) == *old(context)
                    } else {
                        let budget_end = spec_iterate(
                            old(self)@.program,
                            mach_of(old(self)@, *old(context)),
                            usize::MAX as nat,
                        );
                        if budget_end.state is Halted || budget_end.state is Failed {
                            exists|n: nat| #[trigger] run_reaches(
                                old(self)@.program,
                                mach_of(old(self)@, *old(context)),
                                n,
                                mach_of(final(self)@, *final(context)),
                                r,
                            )
                        } else {
                            &&& mach_of(final(self)@, *final(context)) == (MachineState {
                                state: ProcessorState::Failed,
                                ..budget_end
                            })
                            &&& r == Err::<(), ProcessorError>(ProcessorError::Failed)
                        }
                    }
                },
            },
    {
        match self.state {
            ProcessorState::Ready => {
                if self.instructions.0.len() == 1 {
                    return Err(ProcessorError::Empty);
                }
            },
            ProcessorState::Halted => {
                return Err(ProcessorError::AlreadyHalted);
            },
            ProcessorState::Failed => {
                return Err(ProcessorError::Failed);
            },
            ProcessorState::Running => {},
        }
        let ghost prog = self@.program;
        let ghost m0 = mach_of(self@, *context);
        let ghost mut n: nat = 0;
        let mut fuel: usize = usize::MAX;
        while (self.state == ProcessorState::Ready || self.state == ProcessorState::Running)
            && fuel > 0
            invariant
                proc_wf(self@),
                self@.program == prog,
                context.memory@.wf(),
                context.in_stream@.wf(),
                compatible(context.memory@, context.in_stream@),
                mach_of(self@, *context) == spec_iterate(prog, m0, n),
                n + fuel == usize::MAX as nat,
                self@.state is Ready ==> prog.len() > 1,
                !(self@.state is Failed),
            decreases fuel,
        {
            let ghost prev = mach_of(self@, *context);
            match self.step(context) {
                Ok(()) => {
                    proof {
                        n = n + 1;
                        assert(spec_iterate(prog, m0, n) == spec_step(prog, prev).0);
                        if mach_of(self@, *context).state is Failed {
                            assert(spec_step(prog, prev).1 is Some);
                        }
                    }
                },
                Err(e) => {
                    proof {
                        n = n + 1;
                        assert(spec_iterate(prog, m0, n) == spec_step(prog, prev).0);
                        assert(run_reaches(
                            prog,
                            m0,
                            n,
                            mach_of(self@, *context),
                            Err::<(), ProcessorError>(e),
                        ));
                        lemma_iterate_stable(prog, m0, n, (usize::MAX as nat - n) as nat);
                    }
                    return Err(e);
                },
            }
            fuel = fuel - 1;
        }
        if self.state == ProcessorState::Ready || self.state == ProcessorState::Running {
            self.abort();
            proof {
                assert(n == usize::MAX as nat);
                assert(mach_of(self@, *context) =~= (MachineState {
                    state: ProcessorState::Failed,
                    ..spec_iterate(prog, m0, usize::MAX as nat)
                }));
            }
            return Err(ProcessorError::Failed);
        }
        proof {
            assert(self@.state is Halted);
            if n == 0 {
                assert(mach_of(self@, *context) == m0);
                assert(false);
            }
            let prev = spec_iterate(prog, m0, (n - 1) as nat);
            if spec_step(prog, prev).1 is Some {
                assert(spec_step(prog, prev).0.state is Failed);
                assert(false);
            }
            assert(run_reaches(
                prog,
                m0,
                n,
                mach_of(self@, *context),
                Ok::<(), ProcessorError>(()),
            ));
            lemma_iterate_stable(prog, m0, n, (usize::MAX as nat - n) as nat);
        }
        Ok(())
    }
}

/// Whether the instruction at `k`, if it jumps, jumps to a valid index.
pub open spec fn instr_jump_ok(prog: Seq<Instruction>, k: int) -> bool {
    crate::compiler::instruction::instr_bounded(prog[k], 0, prog.len() - 1)
}

} // verus!
