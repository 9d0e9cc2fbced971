//! The execution engine: a fixed program of commands, a sparse unbounded
//! tape of 32-bit unsigned cells, a signed data pointer, a program counter,
//! and a pending input queue. One `step` executes exactly one command; `run`
//! steps until the program ends, input is needed, or a fault arises.
//!
//! The engine itself performs no input or output: `Output` hands the
//! character to the caller, and `Input` asks the caller for a line, so the
//! engine can be driven by a console as well as by an in-memory harness.

use vstd::prelude::*;
use vstd::hash_map::HashMapWithView;
use crate::command::Command;
use crate::semantics::{
    awaiting_input, cell_read, is_backward_match, is_forward_match, lemma_net_depth_bounds,
    lemma_net_depth_unfold_left, lemma_reaches_snoc, net_depth, reaches, step_ok,
    strip_line_ending, unchanged_state, valid_output, MState,
};

verus! {

/// What a successful step reports back to the caller.
#[derive(Clone, Copy, PartialEq, Eq, Structural, Debug)]
pub enum StepResult {
    /// The command ran and produced no output.
    Stepped,
    /// An `Output` command ran; the caller should write this character.
    Emitted(char),
    /// The command is `Input` and the pending buffer is empty. The engine
    /// changed nothing; the caller must supply a line
    /// (`provide_input_line`) or resolve the exhausted source
    /// (`end_of_input`) before stepping again.
    NeedsInput,
}

/// The fatal faults of a run. None is recoverable: each ends the run
/// deterministically instead of reading past the program or the tape.
#[derive(Clone, Copy, PartialEq, Eq, Structural, Debug)]
pub enum Fault {
    /// `step` was called with the program counter at or past the program's
    /// end: a caller bug, not a runtime condition of the program.
    ProgramCounterOutOfRange,
    /// A pointer move at the very edge of the signed address space.
    DataPointerOverflow,
    /// `Output` found a cell value that denotes no character.
    InvalidOutputValue,
    /// A bracket scan ran past the end of the program: the program is
    /// malformed (an unmatched bracket).
    ScanOutOfRange,
    /// The input source was exhausted at an `Input` command and the chosen
    /// policy treats that as fatal.
    EndOfInput,
}

/// How an `Input` command is resolved once the outside input source is
/// exhausted. The language standard leaves end-of-input undefined, so the
/// engine makes the choice explicit instead of guessing.
#[derive(Clone, Copy, PartialEq, Eq, Structural, Debug)]
pub enum EndOfInputPolicy {
    /// Write zero into the current cell and move on.
    WriteZero,
    /// Leave the current cell as it is and move on.
    LeaveUnchanged,
    /// Treat end of input as the fatal fault `Fault::EndOfInput`.
    Fail,
}

/// How a `run` ended, when it ended without a fault.
#[derive(Clone, Copy, PartialEq, Eq, Structural, Debug)]
pub enum RunStatus {
    /// The program counter reached the program's end: normal termination.
    Halted,
    /// Execution stands at an `Input` command with nothing buffered; feed a
    /// line or apply an end-of-input policy, then run again.
    AwaitingInput,
    /// The step budget ran out before the program ended; run again to
    /// continue. A driver that accepts unbounded execution loops over `step`
    /// or over `run` itself.
    StepLimit,
}

/// The condition under which the engine signals the fault `f` in the state
/// `s`: each fault arises on exactly these inputs and no others.
pub open spec fn fault_condition(prog: Seq<Command>, s: MState, f: Fault) -> bool {
    match f {
        Fault::ProgramCounterOutOfRange => s.pc >= prog.len(),
        Fault::DataPointerOverflow => {
            &&& 0 <= s.pc < prog.len()
            &&& (prog[s.pc] is MoveLeft && s.ptr == i64::MIN || prog[s.pc] is MoveRight
                && s.ptr == i64::MAX)
        },
        Fault::InvalidOutputValue => {
            &&& 0 <= s.pc < prog.len()
            &&& prog[s.pc] is Output
            &&& !valid_output(cell_read(s.tape, s.ptr))
        },
        Fault::ScanOutOfRange => {
            &&& 0 <= s.pc < prog.len()
            &&& ((prog[s.pc] is JumpForward && cell_read(s.tape, s.ptr) == 0 && (forall|c: int|
                !is_forward_match(prog, s.pc, c))) || (prog[s.pc] is JumpBack && cell_read(
                s.tape,
                s.ptr,
            ) != 0 && (forall|o: int| !is_backward_match(prog, s.pc, o))))
        },
        Fault::EndOfInput => awaiting_input(prog, s),
    }
}

/// Relies on `char::from_u32` of the standard library: it returns `Some`
/// exactly for the values that denote a character (below the surrogate
/// range, or between the surrogates and the top of the Unicode range), and
/// the returned character has the given value.
pub assume_specification[ char::from_u32 ](v: u32) -> (r: Option<char>)
    ensures
        r is Some <==> valid_output(v),
        match r {
            Some(c) => c as u32 == v,
            None => true,
        },
;

/// The execution engine. Cells are 32 bits wide and wrap on increment and
/// decrement; addresses span the full signed 64-bit range; unwritten
/// addresses read as zero and occupy no storage.
pub struct TuringMachine {
    ptr: i64,
    ram: HashMapWithView<i64, u32>,
    pc: usize,
    program: Vec<Command>,
    user_input: Vec<char>,
}

impl TuringMachine {
    /// The program being executed, fixed for the machine's lifetime.
    pub closed spec fn spec_program(self) -> Seq<Command> {
        self.program@
    }

    /// The mathematical state: pointer, counter, written cells, pending
    /// input.
    pub closed spec fn st(self) -> MState {
        MState {
            ptr: self.ptr,
            pc: self.pc as int,
            tape: self.ram@,
            input: self.user_input@,
        }
    }

    /// Validity: the program counter never exceeds the program's length.
    pub closed spec fn wf(self) -> bool {
        self.pc <= self.program@.len()
    }

    /// Builds an engine around a program: data pointer and program counter
    /// at zero, tape empty, input buffer empty. The program is not
    /// validated; unbalanced brackets surface as a runtime fault.
    pub fn with_program(program: Vec<Command>) -> (m: Self)
        ensures
            m.spec_program() == program@,
            m.st().ptr == 0,
            m.st().pc == 0,
            m.st().tape == Map::<i64, u32>::empty(),
            m.st().input == Seq::<char>::empty(),
            m.wf(),
    {
        TuringMachine {
            ptr: 0,
            pc: 0,
            ram: HashMapWithView::new(),
            program,
            user_input: Vec::new(),
        }
    }

    /// Reads the cell under the data pointer; an address never written
    /// reads as zero.
    pub fn read_ram_ptr(&self) -> (r: u32)
        ensures
            r == cell_read(self.st().tape, self.st().ptr),
    {
        match self.ram.get(&self.ptr) {
            Some(v) => *v,
            None => 0,
        }
    }

    /// Reads the cell at an arbitrary address, for inspecting a tape.
    pub fn read_cell(&self, addr: i64) -> (r: u32)
        ensures
            r == cell_read(self.st().tape, addr),
    {
        match self.ram.get(&addr) {
            Some(v) => *v,
            None => 0,
        }
    }

    /// Writes the cell under the data pointer.
    pub fn write_ram_ptr(&mut self, data: u32)
        ensures
            final(self).st().tape == old(self).st().tape.insert(old(self).st().ptr, data),
            final(self).st().ptr == old(self).st().ptr,
            final(self).st().pc == old(self).st().pc,
            final(self).st().input == old(self).st().input,
            final(self).spec_program() == old(self).spec_program(),
            final(self).wf() == old(self).wf(),
    {
        self.ram.insert(self.ptr, data);
    }

    /// The current data pointer.
    pub fn data_pointer(&self) -> (r: i64)
        ensures
            r == self.st().ptr,
    {
        self.ptr
    }

    /// The current program counter.
    pub fn program_counter(&self) -> (r: usize)
        ensures
            r as int == self.st().pc,
    {
        self.pc
    }

    /// The length of the program.
    pub fn program_len(&self) -> (r: usize)
        ensures
            r == self.spec_program().len(),
    {
        self.program.len()
    }

    /// Appends one line of outside input to the pending queue, stripping one
    /// trailing newline and, after it, one trailing carriage return, as a
    /// console line read delivers them.
    pub fn provide_input_line(&mut self, line: &Vec<char>)
        ensures
            final(self).st().input == old(self).st().input + strip_line_ending(line@),
            final(self).st().ptr == old(self).st().ptr,
            final(self).st().pc == old(self).st().pc,
            final(self).st().tape == old(self).st().tape,
            final(self).spec_program() == old(self).spec_program(),
            final(self).wf() == old(self).wf(),
    {
        let mut end: usize = line.len();
        if end > 0 && line[end - 1] == '\n' {
            end = end - 1;
        }
        if end > 0 && line[end - 1] == '\r' {
            end = end - 1;
        }
        proof {
            assert(line@.subrange(0, end as int) =~= strip_line_ending(line@));
        }
        let ghost m0 = *self;
        let mut i: usize = 0;
        while i < end
            invariant
                i <= end,
                end <= line.len(),
                self.ptr == m0.ptr,
                self.pc == m0.pc,
                self.ram@ == m0.ram@,
                self.program@ == m0.program@,
                self.user_input@ == m0.user_input@ + line@.subrange(0, i as int),
            decreases end - i,
        {
            self.user_input.push(line[i]);
            proof {
                assert(m0.user_input@ + line@.subrange(0, i + 1int) =~= (m0.user_input@
                    + line@.subrange(0, i as int)).push(line@[i as int]));
            }
            i = i + 1;
        }
    }

    /// Applies an end-of-input policy: the outside input source is
    /// exhausted, and the `Input` command the engine stands at (see
    /// `is_awaiting_input`) is resolved by the policy instead of a read.
    pub fn end_of_input(&mut self, policy: EndOfInputPolicy) -> (r: Result<(), Fault>)
        requires
            awaiting_input(old(self).spec_program(), old(self).st()),
        ensures
            final(self).spec_program() == old(self).spec_program(),
            final(self).wf(),
            final(self).st().ptr == old(self).st().ptr,
            final(self).st().input == old(self).st().input,
            match policy {
                EndOfInputPolicy::WriteZero => {
                    &&& r is Ok
                    &&& final(self).st().tape == old(self).st().tape.insert(
                        old(self).st().ptr,
                        0u32,
                    )
                    &&& final(self).st().pc == old(self).st().pc + 1
                },
                EndOfInputPolicy::LeaveUnchanged => {
                    &&& r is Ok
                    &&& final(self).st().tape == old(self).st().tape
                    &&& final(self).st().pc == old(self).st().pc + 1
                },
                EndOfInputPolicy::Fail => {
                    &&& r == Result::<(), Fault>::Err(Fault::EndOfInput)
                    &&& final(self).st().tape == old(self).st().tape
                    &&& final(self).st().pc == old(self).st().pc
                },
            },
    {
        proof {
            assert(self.program@.len() == self.program.len());
        }
        match policy {
            EndOfInputPolicy::WriteZero => {
                self.ram.insert(self.ptr, 0);
                self.pc = self.pc + 1;
                Ok(())
            },
            EndOfInputPolicy::LeaveUnchanged => {
                self.pc = self.pc + 1;
                Ok(())
            },
            EndOfInputPolicy::Fail => Err(Fault::EndOfInput),
        }
    }

    /// Scans forward from the opening bracket at the program counter,
    /// tracking nesting depth, for the matching `JumpBack`; `None` means the
    /// scan ran past the end of the program.
    fn scan_forward(&self) -> (r: Option<usize>)
        requires
            self.st().pc < self.spec_program().len(),
            self.spec_program()[self.st().pc] is JumpForward,
        ensures
            match r {
                Some(j) => is_forward_match(self.spec_program(), self.st().pc, j as int),
                None => forall|c: int| !is_forward_match(self.spec_program(), self.st().pc, c),
            },
    {
        let ghost prog = self.program@;
        let ghost lo: int = self.pc + 1;
        proof {
            assert(self.program@.len() == self.program.len());
        }
        let mut j: usize = self.pc + 1;
        let mut depth: usize = 0;
        while j < self.program.len()
            invariant
                prog == self.program@,
                0 <= self.pc < prog.len(),
                prog[self.pc as int] is JumpForward,
                lo == self.pc + 1,
                lo <= j <= prog.len(),
                depth as int == net_depth(prog, lo, j as int),
                forall|k: int|
                    self.pc < k < j && prog[k] is JumpBack ==> net_depth(prog, lo, k) > 0,
            decreases prog.len() - j,
        {
            let cmd = self.program[j];
            proof {
                lemma_net_depth_bounds(prog, lo, j as int);
            }
            match cmd {
                Command::JumpForward => {
                    depth = depth + 1;
                },
                Command::JumpBack => {
                    if depth == 0 {
                        return Some(j);
                    }
                    depth = depth - 1;
                },
                _ => {},
            }
            j = j + 1;
        }
        proof {
            assert forall|c: int| !is_forward_match(prog, self.pc as int, c) by {
                if is_forward_match(prog, self.pc as int, c) {
                    assert(prog[c] is JumpBack);
                    assert(net_depth(prog, lo, c) > 0);
                }
            }
        }
        None
    }

    /// Scans backward from the closing bracket at the program counter,
    /// tracking nesting depth, for the matching `JumpForward`; `None` means
    /// the scan ran past the start of the program.
    fn scan_backward(&self) -> (r: Option<usize>)
        requires
            self.st().pc < self.spec_program().len(),
            self.spec_program()[self.st().pc] is JumpBack,
        ensures
            match r {
                Some(i) => is_backward_match(self.spec_program(), self.st().pc, i as int),
                None => forall|o: int| !is_backward_match(self.spec_program(), self.st().pc, o),
            },
    {
        let ghost prog = self.program@;
        let ghost hi: int = self.pc as int;
        let mut k: usize = self.pc;
        let mut depth: usize = 0;
        while k > 0
            invariant
                prog == self.program@,
                0 <= self.pc < prog.len(),
                prog[self.pc as int] is JumpBack,
                hi == self.pc as int,
                0 <= k <= hi,
                depth as int == -net_depth(prog, k as int, hi),
                forall|m: int|
                    k <= m < hi && prog[m] is JumpForward ==> net_depth(prog, m + 1, hi) < 0,
            decreases k,
        {
            k = k - 1;
            let cmd = self.program[k];
            proof {
                lemma_net_depth_unfold_left(prog, k as int, hi);
                lemma_net_depth_bounds(prog, k + 1int, hi);
            }
            match cmd {
                Command::JumpBack => {
                    depth = depth + 1;
                },
                Command::JumpForward => {
                    if depth == 0 {
                        return Some(k);
                    }
                    depth = depth - 1;
                },
                _ => {},
            }
        }
        proof {
            assert forall|o: int| !is_backward_match(prog, hi, o) by {
                if is_backward_match(prog, hi, o) {
                    assert(prog[o] is JumpForward);
                    assert(net_depth(prog, o + 1, hi) < 0);
                }
            }
        }
        None
    }

    /// Executes exactly one command at the program counter and advances the
    /// counter past it (a taken jump first moves the counter to the matching
    /// bracket). The result says what the caller owes the outside world:
    /// nothing, one character of output, or a line of input. Every fault is
    /// reported with the state unchanged, never by reading past the program
    /// or the tape.
    pub fn step(&mut self) -> (r: Result<StepResult, Fault>)
        ensures
            final(self).spec_program() == old(self).spec_program(),
            old(self).wf() ==> final(self).wf(),
            match r {
                Ok(StepResult::Stepped) => step_ok(
                    old(self).spec_program(),
                    old(self).st(),
                    final(self).st(),
                    Seq::<char>::empty(),
                ),
                Ok(StepResult::Emitted(c)) => {
                    &&& old(self).spec_program()[old(self).st().pc] is Output
                    &&& step_ok(
                        old(self).spec_program(),
                        old(self).st(),
                        final(self).st(),
                        seq![c],
                    )
                },
                Ok(StepResult::NeedsInput) => {
                    &&& awaiting_input(old(self).spec_program(), old(self).st())
                    &&& unchanged_state(old(self).st(), final(self).st())
                },
                Err(f) => {
                    &&& f != Fault::EndOfInput
                    &&& fault_condition(old(self).spec_program(), old(self).st(), f)
                    &&& unchanged_state(old(self).st(), final(self).st())
                },
            },
    {
        proof {
            assert(self.program@.len() == self.program.len());
        }
        if self.pc >= self.program.len() {
            return Err(Fault::ProgramCounterOutOfRange);
        }
        let cmd = self.program[self.pc];
        match cmd {
            Command::MoveLeft => {
                if self.ptr == i64::MIN {
                    return Err(Fault::DataPointerOverflow);
                }
                self.ptr = self.ptr - 1;
                self.pc = self.pc + 1;
                Ok(StepResult::Stepped)
            },
            Command::MoveRight => {
                if self.ptr == i64::MAX {
                    return Err(Fault::DataPointerOverflow);
                }
                self.ptr = self.ptr + 1;
                self.pc = self.pc + 1;
                Ok(StepResult::Stepped)
            },
            Command::AddOne => {
                let v = self.read_ram_ptr();
                let nv = if v == u32::MAX {
                    0
                } else {
                    v + 1
                };
                self.write_ram_ptr(nv);
                self.pc = self.pc + 1;
                Ok(StepResult::Stepped)
            },
            Command::SubOne => {
                let v = self.read_ram_ptr();
                let nv = if v == 0 {
                    u32::MAX
                } else {
                    v - 1
                };
                self.write_ram_ptr(nv);
                self.pc = self.pc + 1;
                Ok(StepResult::Stepped)
            },
            Command::Output => {
                let v = self.read_ram_ptr();
                match char::from_u32(v) {
                    Some(c) => {
                        self.pc = self.pc + 1;
                        proof {
                            assert(seq![c].len() == 1);
                            assert(seq![c][0] == c);
                        }
                        Ok(StepResult::Emitted(c))
                    },
                    None => Err(Fault::InvalidOutputValue),
                }
            },
            Command::Input => {
                if self.user_input.len() == 0 {
                    Ok(StepResult::NeedsInput)
                } else {
                    let ghost input0 = self.user_input@;
                    let c = self.user_input.remove(0);
                    let v = c as u32;
                    self.write_ram_ptr(v);
                    self.pc = self.pc + 1;
                    proof {
                        assert(input0.remove(0) =~= input0.subrange(1, input0.len() as int));
                    }
                    Ok(StepResult::Stepped)
                }
            },
            Command::JumpForward => {
                let v = self.read_ram_ptr();
                if v != 0 {
                    self.pc = self.pc + 1;
                    Ok(StepResult::Stepped)
                } else {
                    match self.scan_forward() {
                        Some(j) => {
                            let ghost pre = self.st();
                            self.pc = j + 1;
                            proof {
                                assert(is_forward_match(self.program@, pre.pc, j as int)
                                    && self.st().pc == j + 1);
                            }
                            Ok(StepResult::Stepped)
                        },
                        None => Err(Fault::ScanOutOfRange),
                    }
                }
            },
            Command::JumpBack => {
                let v = self.read_ram_ptr();
                if v == 0 {
                    self.pc = self.pc + 1;
                    Ok(StepResult::Stepped)
                } else {
                    match self.scan_backward() {
                        Some(i) => {
                            let ghost pre = self.st();
                            self.pc = i + 1;
                            proof {
                                assert(is_backward_match(self.program@, pre.pc, i as int)
                                    && self.st().pc == i + 1);
                            }
                            Ok(StepResult::Stepped)
                        },
                        None => Err(Fault::ScanOutOfRange),
                    }
                }
            },
        }
    }

    /// Steps until the program counter reaches the program's end, input is
    /// needed, a fault arises, or `max_steps` commands have run, appending
    /// every emitted character to `out`. The final state is reachable from
    /// the initial one by the engine's step relation, emitting exactly what
    /// was appended. A program that never terminates exhausts the budget and
    /// reports `StepLimit`; a driver that accepts unbounded execution keeps
    /// calling.
    #[verifier::loop_isolation(false)]
    pub fn run(&mut self, out: &mut Vec<char>, max_steps: usize) -> (r: Result<RunStatus, Fault>)
        requires
            old(self).wf(),
        ensures
            final(self).spec_program() == old(self).spec_program(),
            final(self).wf(),
            final(out)@.len() >= old(out)@.len(),
            final(out)@.subrange(0, old(out)@.len() as int) == old(out)@,
            exists|n: nat|
                n <= max_steps && reaches(
                    old(self).spec_program(),
                    old(self).st(),
                    final(self).st(),
                    final(out)@.subrange(old(out)@.len() as int, final(out)@.len() as int),
                    n,
                ),
            match r {
                Ok(RunStatus::Halted) => final(self).st().pc == final(self).spec_program().len(),
                Ok(RunStatus::AwaitingInput) => awaiting_input(
                    final(self).spec_program(),
                    final(self).st(),
                ),
                Ok(RunStatus::StepLimit) => reaches(
                    old(self).spec_program(),
                    old(self).st(),
                    final(self).st(),
                    final(out)@.subrange(old(out)@.len() as int, final(out)@.len() as int),
                    max_steps as nat,
                ),
                Err(f) => f != Fault::EndOfInput && fault_condition(
                    final(self).spec_program(),
                    final(self).st(),
                    f,
                ),
            },
    {
        let ghost prog = self.program@;
        let ghost s0 = self.st();
        let ghost out0 = out@;
        proof {
            assert(out@.subrange(out0.len() as int, out@.len() as int) =~= Seq::<char>::empty());
        }
        let mut fuel: usize = max_steps;
        let ghost mut steps: nat = 0nat;
        while fuel > 0
            invariant
                self.program@ == prog,
                self.wf(),
                steps + fuel == max_steps,
                out@.len() >= out0.len(),
                out@.subrange(0, out0.len() as int) == out0,
                reaches(prog, s0, self.st(), out@.subrange(out0.len() as int, out@.len() as int), steps),
            decreases fuel,
        {
            if self.pc >= self.program.len() {
                return Ok(RunStatus::Halted);
            }
            let ghost mid = self.st();
            let ghost e_pre = out@.subrange(out0.len() as int, out@.len() as int);
            let res = self.step();
            match res {
                Ok(StepResult::Stepped) => {
                    proof {
                        lemma_reaches_snoc(
                            prog,
                            s0,
                            mid,
                            self.st(),
                            e_pre,
                            Seq::<char>::empty(),
                            steps,
                        );
                        assert(e_pre + Seq::<char>::empty() =~= e_pre);
                        steps = steps + 1;
                    }
                },
                Ok(StepResult::Emitted(c)) => {
                    out.push(c);
                    proof {
                        lemma_reaches_snoc(prog, s0, mid, self.st(), e_pre, seq![c], steps);
                        assert(out@.subrange(0, out0.len() as int) =~= out0);
                        assert(out@.subrange(out0.len() as int, out@.len() as int) =~= e_pre
                            + seq![c]);
                        steps = steps + 1;
                    }
                },
                Ok(StepResult::NeedsInput) => {
                    return Ok(RunStatus::AwaitingInput);
                },
                Err(f) => {
                    return Err(f);
                },
            }
            fuel = fuel - 1;
        }
        Ok(RunStatus::StepLimit)
    }

    /// True when execution stands at an `Input` command with nothing
    /// buffered: the next `step` would report `NeedsInput`.
    pub fn is_awaiting_input(&self) -> (r: bool)
        ensures
            r == awaiting_input(self.spec_program(), self.st()),
    {
        self.pc < self.program.len() && self.program[self.pc] == Command::Input
            && self.user_input.len() == 0
    }
}

} // verus!
