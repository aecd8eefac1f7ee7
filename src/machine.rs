use vstd::prelude::*;

use crate::instruction::Instruction;

verus! {

/// The number of cells on the tape.
pub const TAPE_LEN: usize = 30000;

/// Why a running program stopped early.
#[derive(Clone, Copy, Debug, PartialEq, Eq, Structural)]
pub enum RuntimeError {
    /// A `Read` found no input byte left.
    InputExhausted,
    /// The tape pointer would leave the tape.
    OutOfBounds,
}

/// What the caller has to do after one step of the machine.
#[derive(Clone, Copy, Debug, PartialEq, Eq, Structural)]
pub enum Action {
    /// Nothing: the step changed the machine only.
    Continue,
    /// Write this byte to the output.
    Output(u8),
    /// The current instruction is a `Read`: hand the machine one input byte.
    NeedInput,
    /// The program counter has run past the last instruction.
    Halt,
}

/// The machine as a mathematical value.
pub struct MachineState {
    pub tape: Seq<u8>,
    pub pointer: int,
    pub pc: int,
}

/// A tape of byte cells, a tape pointer and a program counter.
pub struct Machine {
    tape: Vec<u8>,
    pointer: usize,
    pc: usize,
}

impl View for Machine {
    type V = MachineState;

    closed spec fn view(&self) -> MachineState {
        MachineState { tape: self.tape@, pointer: self.pointer as int, pc: self.pc as int }
    }
}

/// Every loop target lies inside the program.
pub open spec fn valid_program(prog: Seq<Instruction>) -> bool {
    forall|k: int|
        0 <= k < prog.len() ==> match #[trigger] prog[k] {
            Instruction::StartLoop(t) => t < prog.len(),
            Instruction::EndLoop(t) => t < prog.len(),
            _ => true,
        }
}

/// A full tape, with the pointer on it.
pub open spec fn well_formed(s: MachineState) -> bool {
    &&& s.tape.len() == TAPE_LEN
    &&& 0 <= s.pointer < TAPE_LEN
    &&& 0 <= s.pc <= usize::MAX
}

/// All cells zero, pointer and program counter at zero.
pub open spec fn initial_state() -> MachineState {
    MachineState { tape: Seq::new(TAPE_LEN as nat, |i: int| 0u8), pointer: 0, pc: 0 }
}

pub open spec fn wrapping_inc(b: u8) -> u8 {
    ((b + 1) % 256) as u8
}

pub open spec fn wrapping_dec(b: u8) -> u8 {
    ((b + 255) % 256) as u8
}

/// `s` with the current cell set to `b` and the program counter advanced.
pub open spec fn store_and_advance(s: MachineState, b: u8) -> MachineState {
    MachineState { tape: s.tape.update(s.pointer, b), pointer: s.pointer, pc: s.pc + 1 }
}

pub open spec fn advance(s: MachineState) -> MachineState {
    MachineState { tape: s.tape, pointer: s.pointer, pc: s.pc + 1 }
}

pub open spec fn jump(s: MachineState, to: int) -> MachineState {
    MachineState { tape: s.tape, pointer: s.pointer, pc: to }
}

/// One fetch-decode-execute step. A `Read` leaves the machine as it is and
/// asks for input; the byte is stored by `feed`.
pub open spec fn step(prog: Seq<Instruction>, s: MachineState) -> Result<
    (MachineState, Action),
    RuntimeError,
> {
    if s.pc >= prog.len() {
        Ok((s, Action::Halt))
    } else {
        let cell = s.tape[s.pointer];
        match prog[s.pc] {
            Instruction::MoveRight => if s.pointer + 1 < TAPE_LEN {
                Ok(
                    (
                        MachineState { tape: s.tape, pointer: s.pointer + 1, pc: s.pc + 1 },
                        Action::Continue,
                    ),
                )
            } else {
                Err(RuntimeError::OutOfBounds)
            },
            Instruction::MoveLeft => if s.pointer > 0 {
                Ok(
                    (
                        MachineState { tape: s.tape, pointer: s.pointer - 1, pc: s.pc + 1 },
                        Action::Continue,
                    ),
                )
            } else {
                Err(RuntimeError::OutOfBounds)
            },
            Instruction::Increment => Ok(
                (store_and_advance(s, wrapping_inc(cell)), Action::Continue),
            ),
            Instruction::Decrement => Ok(
                (store_and_advance(s, wrapping_dec(cell)), Action::Continue),
            ),
            Instruction::Print => Ok((advance(s), Action::Output(cell))),
            Instruction::Read => Ok((s, Action::NeedInput)),
            Instruction::StartLoop(t) => if cell == 0 {
                Ok((jump(s, t + 1), Action::Continue))
            } else {
                Ok((advance(s), Action::Continue))
            },
            Instruction::EndLoop(t) => if cell != 0 {
                Ok((jump(s, t + 1), Action::Continue))
            } else {
                Ok((advance(s), Action::Continue))
            },
        }
    }
}

/// Completes a pending `Read` with the byte that came, or fails when none did.
pub open spec fn feed(s: MachineState, byte: Option<u8>) -> Result<MachineState, RuntimeError> {
    match byte {
        Some(b) => Ok(store_and_advance(s, b)),
        None => Err(RuntimeError::InputExhausted),
    }
}

/// The machine waits on a `Read`.
pub open spec fn awaits_input(prog: Seq<Instruction>, s: MachineState) -> bool {
    0 <= s.pc < prog.len() && prog[s.pc] == Instruction::Read
}

/// How a run with a budget of steps ended.
#[derive(Clone, Copy, Debug, PartialEq, Eq, Structural)]
pub enum Status {
    /// The program counter ran past the last instruction.
    Halted,
    /// The budget of steps was spent first.
    OutOfSteps,
    /// An instruction failed.
    Failed(RuntimeError),
}

/// The end of a run and the bytes it wrote.
pub struct RunOutcome {
    pub status: Status,
    pub output: Vec<u8>,
}

/// The input byte a `Read` gets: the first one left, if any.
pub open spec fn next_byte(input: Seq<u8>) -> Option<u8> {
    if input.len() > 0 {
        Some(input[0])
    } else {
        None
    }
}

/// Runs `prog` from `s` for at most `fuel` steps, reading from `input` and
/// appending what it prints to `out`. A `Read` and the byte it consumes count
/// as one step.
pub open spec fn run_from(
    prog: Seq<Instruction>,
    s: MachineState,
    input: Seq<u8>,
    fuel: nat,
    out: Seq<u8>,
) -> (Status, Seq<u8>)
    decreases fuel,
{
    if s.pc >= prog.len() {
        (Status::Halted, out)
    } else if fuel == 0 {
        (Status::OutOfSteps, out)
    } else {
        match step(prog, s) {
            Err(e) => (Status::Failed(e), out),
            Ok((next, action)) => match action {
                Action::Output(b) => run_from(prog, next, input, (fuel - 1) as nat, out.push(b)),
                Action::NeedInput => match feed(next, next_byte(input)) {
                    Ok(fed) => run_from(prog, fed, input.drop_first(), (fuel - 1) as nat, out),
                    Err(e) => (Status::Failed(e), out),
                },
                _ => run_from(prog, next, input, (fuel - 1) as nat, out),
            },
        }
    }
}

/// Runs `prog` on a fresh machine for at most `fuel` steps.
pub open spec fn run_program(prog: Seq<Instruction>, input: Seq<u8>, fuel: nat) -> (
    Status,
    Seq<u8>,
) {
    run_from(prog, initial_state(), input, fuel, Seq::empty())
}

pub proof fn lemma_run_budget_irrelevant(
    prog: Seq<Instruction>,
    s: MachineState,
    input: Seq<u8>,
    f1: nat,
    f2: nat,
    out: Seq<u8>,
)
    requires
        f1 <= f2,
        run_from(prog, s, input, f1, out).0 != Status::OutOfSteps,
    ensures
        run_from(prog, s, input, f2, out) == run_from(prog, s, input, f1, out),
    decreases f1,
{
    if s.pc < prog.len() && f1 > 0 {
        let f1n = (f1 - 1) as nat;
        let f2n = (f2 - 1) as nat;
        match step(prog, s) {
            Err(e) => {},
            Ok((next, action)) => match action {
                Action::Output(b) => {
                    lemma_run_budget_irrelevant(prog, next, input, f1n, f2n, out.push(b));
                },
                Action::NeedInput => match feed(next, next_byte(input)) {
                    Ok(fed) => {
                        lemma_run_budget_irrelevant(prog, fed, input.drop_first(), f1n, f2n, out);
                    },
                    Err(e) => {},
                },
                _ => {
                    lemma_run_budget_irrelevant(prog, next, input, f1n, f2n, out);
                },
            },
        }
    }
}

/// Running a program twice on the same input gives the same status and the
/// same output: two runs that both end within their budgets of steps agree,
/// whatever the budgets.
pub proof fn lemma_runs_agree(prog: Seq<Instruction>, input: Seq<u8>, f1: nat, f2: nat)
    requires
        run_program(prog, input, f1).0 != Status::OutOfSteps,
        run_program(prog, input, f2).0 != Status::OutOfSteps,
    ensures
        run_program(prog, input, f1) == run_program(prog, input, f2),
{
    if f1 <= f2 {
        lemma_run_budget_irrelevant(prog, initial_state(), input, f1, f2, Seq::empty());
    } else {
        lemma_run_budget_irrelevant(prog, initial_state(), input, f2, f1, Seq::empty());
    }
}

/// Runs `program` on a fresh machine for at most `max_steps` steps, taking
/// input bytes from `input` in order and collecting what it prints.
pub fn run(program: &Vec<Instruction>, input: &Vec<u8>, max_steps: usize) -> (r: RunOutcome)
    requires
        valid_program(program@),
    ensures
        (r.status, r.output@) == run_program(program@, input@, max_steps as nat),
{
    let mut m = Machine::new();
    let mut out: Vec<u8> = Vec::new();
    let mut pos: usize = 0;
    let mut fuel: usize = max_steps;
    assert(input@.skip(0) =~= input@);
    loop
        invariant
            valid_program(program@),
            well_formed(m@),
            pos <= input.len(),
            run_from(program@, m@, input@.skip(pos as int), fuel as nat, out@) == run_program(
                program@,
                input@,
                max_steps as nat,
            ),
        decreases fuel,
    {
        if m.pc() >= program.len() {
            return RunOutcome { status: Status::Halted, output: out };
        }
        if fuel == 0 {
            return RunOutcome { status: Status::OutOfSteps, output: out };
        }
        let ghost before = m@;
        let ghost rest = input@.skip(pos as int);
        match m.step(program) {
            Err(e) => {
                return RunOutcome { status: Status::Failed(e), output: out };
            },
            Ok(Action::Output(b)) => {
                out.push(b);
            },
            Ok(Action::NeedInput) => {
                let byte: Option<u8> = if pos < input.len() {
                    Some(input[pos])
                } else {
                    None
                };
                assert(byte == next_byte(rest));
                match m.supply_input(program, byte) {
                    Ok(()) => {
                        assert(rest.drop_first() =~= input@.skip(pos + 1));
                        pos = pos + 1;
                    },
                    Err(e) => {
                        return RunOutcome { status: Status::Failed(e), output: out };
                    },
                }
            },
            Ok(_) => {},
        }
        fuel = fuel - 1;
    }
}

impl Machine {
    /// A machine with a zeroed tape of `TAPE_LEN` cells.
    pub fn new() -> (r: Machine)
        ensures
            r@ == initial_state(),
            well_formed(r@),
    {
        let tape: Vec<u8> = vec![0u8; TAPE_LEN];
        let r = Machine { tape, pointer: 0, pc: 0 };
        assert(r@.tape =~= initial_state().tape);
        r
    }

    pub fn pc(&self) -> (r: usize)
        ensures
            r == self@.pc,
    {
        self.pc
    }

    pub fn pointer(&self) -> (r: usize)
        ensures
            r == self@.pointer,
    {
        self.pointer
    }

    /// The value of cell `i`.
    pub fn cell(&self, i: usize) -> (r: u8)
        requires
            well_formed(self@),
            i < TAPE_LEN,
        ensures
            r == self@.tape[i as int],
    {
        self.tape[i]
    }

    /// Runs one instruction (see `step`). On an error the machine is left as
    /// it was.
    pub fn step(&mut self, program: &Vec<Instruction>) -> (r: Result<Action, RuntimeError>)
        requires
            well_formed(old(self)@),
            valid_program(program@),
        ensures
            well_formed(final(self)@),
            match step(program@, old(self)@) {
                Ok((s, a)) => r == Ok::<Action, RuntimeError>(a) && final(self)@ == s,
                Err(e) => r == Err::<Action, RuntimeError>(e) && final(self)@ == old(self)@,
            },
    {
        if self.pc >= program.len() {
            return Ok(Action::Halt);
        }
        let p = self.pointer;
        let cell = self.tape[p];
        match program[self.pc] {
            Instruction::MoveRight => {
                if p + 1 < TAPE_LEN {
                    self.pointer = p + 1;
                    self.pc = self.pc + 1;
                    Ok(Action::Continue)
                } else {
                    Err(RuntimeError::OutOfBounds)
                }
            },
            Instruction::MoveLeft => {
                if p > 0 {
                    self.pointer = p - 1;
                    self.pc = self.pc + 1;
                    Ok(Action::Continue)
                } else {
                    Err(RuntimeError::OutOfBounds)
                }
            },
            Instruction::Increment => {
                let v: u8 = if cell == 255 {
                    0
                } else {
                    cell + 1
                };
                self.tape.set(p, v);
                self.pc = self.pc + 1;
                Ok(Action::Continue)
            },
            Instruction::Decrement => {
                let v: u8 = if cell == 0 {
                    255
                } else {
                    cell - 1
                };
                self.tape.set(p, v);
                self.pc = self.pc + 1;
                Ok(Action::Continue)
            },
            Instruction::Print => {
                self.pc = self.pc + 1;
                Ok(Action::Output(cell))
            },
            Instruction::Read => Ok(Action::NeedInput),
            Instruction::StartLoop(t) => {
                if cell == 0 {
                    self.pc = t + 1;
                } else {
                    self.pc = self.pc + 1;
                }
                Ok(Action::Continue)
            },
            Instruction::EndLoop(t) => {
                if cell != 0 {
                    self.pc = t + 1;
                } else {
                    self.pc = self.pc + 1;
                }
                Ok(Action::Continue)
            },
        }
    }

    /// Completes the pending `Read` (see `feed`): stores the byte in the
    /// current cell and moves on, or reports that input ran out.
    pub fn supply_input(&mut self, program: &Vec<Instruction>, byte: Option<u8>) -> (r: Result<
        (),
        RuntimeError,
    >)
        requires
            well_formed(old(self)@),
            awaits_input(program@, old(self)@),
        ensures
            well_formed(final(self)@),
            match feed(old(self)@, byte) {
                Ok(s) => r == Ok::<(), RuntimeError>(()) && final(self)@ == s,
                Err(e) => r == Err::<(), RuntimeError>(e) && final(self)@ == old(self)@,
            },
    {
        match byte {
            Some(b) => {
                assert(self.pc < program.len());
                self.tape.set(self.pointer, b);
                self.pc = self.pc + 1;
                Ok(())
            },
            None => Err(RuntimeError::InputExhausted),
        }
    }
}

} // verus!
