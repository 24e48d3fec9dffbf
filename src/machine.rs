//! The tape machine: instruction pointer, data pointer and byte tape, advanced
//! one instruction at a time. Reading and writing bytes is left to the caller:
//! a step reports the byte to write, or that it waits for a byte to read.
use vstd::prelude::*;

use crate::instr::{BAK, DEC, FWD, INC, INP, LBR, PUT, RBR};
use crate::jump::{
    balanced, closes_covered, depth, explains_failure, generate_bracket_jumptables, is_jump_table,
    lemma_partners_unique, partners, BracketError,
};

verus! {

/// The number of cells on the tape.
pub const TAPE_LEN: usize = 1048576;

/// What a step did that the caller has to act on.
#[derive(Debug, Clone, Copy, PartialEq, Eq, Structural)]
pub enum Effect {
    /// An instruction ran with no effect outside the machine.
    Continue,
    /// An output instruction ran: this byte goes to the output stream.
    Output(u8),
    /// The machine stands at an input instruction and waits for one byte,
    /// to be handed over with `provide_input`.
    AwaitInput,
    /// The instruction pointer is past the last instruction: the run is over.
    Halted,
}

/// A step that the machine refuses. The data pointer never leaves the tape:
/// a move past either end fails, and the machine stays as it was.
#[derive(Debug, Clone, Copy, PartialEq, Eq, Structural)]
pub enum Fault {
    /// A move-left with the data pointer on the first cell.
    PointerUnderflow,
    /// A move-right with the data pointer on the last cell.
    PointerOverflow,
}

/// The machine as a mathematical value.
pub struct MachineState {
    /// The program's bytes.
    pub program: Seq<u8>,
    /// The program's jump table.
    pub jumps: Seq<u32>,
    /// The cells.
    pub tape: Seq<u8>,
    /// The instruction pointer, an index into `program`.
    pub ip: int,
    /// The data pointer, an index into `tape`.
    pub dp: int,
}

/// A cell after an increment: 255 becomes 0.
pub open spec fn cell_inc(c: u8) -> u8 {
    ((c + 1) % 256) as u8
}

/// A cell after a decrement: 0 becomes 255.
pub open spec fn cell_dec(c: u8) -> u8 {
    ((c + 255) % 256) as u8
}

/// The state in which a run of `program` starts: a zeroed tape, both pointers at 0.
pub open spec fn initial(program: Seq<u8>, jumps: Seq<u32>) -> MachineState {
    MachineState { program, jumps, tape: Seq::new(TAPE_LEN as nat, |i: int| 0u8), ip: 0, dp: 0 }
}

/// The invariant of every state that a run passes through.
pub open spec fn well_formed(s: MachineState) -> bool {
    &&& s.program.len() <= u32::MAX
    &&& is_jump_table(s.program, s.jumps)
    &&& s.tape.len() == TAPE_LEN
    &&& 0 <= s.ip <= s.program.len()
    &&& 0 <= s.dp < TAPE_LEN
}

/// The state moves on to the next instruction.
pub open spec fn advance(s: MachineState) -> MachineState {
    MachineState { ip: s.ip + 1, ..s }
}

/// The machine stands at an input instruction.
pub open spec fn awaiting_input(s: MachineState) -> bool {
    0 <= s.ip < s.program.len() && s.program[s.ip] == INP
}

/// One step from `s`: the next state and what the step did.
pub open spec fn next(s: MachineState) -> (MachineState, Result<Effect, Fault>) {
    if s.ip >= s.program.len() {
        (s, Ok(Effect::Halted))
    } else {
        let op = s.program[s.ip];
        let c = s.tape[s.dp];
        if op == FWD {
            if s.dp + 1 < TAPE_LEN {
                (MachineState { ip: s.ip + 1, dp: s.dp + 1, ..s }, Ok(Effect::Continue))
            } else {
                (s, Err(Fault::PointerOverflow))
            }
        } else if op == BAK {
            if s.dp > 0 {
                (MachineState { ip: s.ip + 1, dp: s.dp - 1, ..s }, Ok(Effect::Continue))
            } else {
                (s, Err(Fault::PointerUnderflow))
            }
        } else if op == INC {
            (MachineState { ip: s.ip + 1, tape: s.tape.update(s.dp, cell_inc(c)), ..s }, Ok(Effect::Continue))
        } else if op == DEC {
            (MachineState { ip: s.ip + 1, tape: s.tape.update(s.dp, cell_dec(c)), ..s }, Ok(Effect::Continue))
        } else if op == PUT {
            (advance(s), Ok(Effect::Output(c)))
        } else if op == INP {
            (s, Ok(Effect::AwaitInput))
        } else if op == LBR && c == 0 {
            (MachineState { ip: s.jumps[s.ip] as int, ..s }, Ok(Effect::Continue))
        } else if op == RBR && c != 0 {
            (MachineState { ip: s.jumps[s.ip] as int, ..s }, Ok(Effect::Continue))
        } else {
            (advance(s), Ok(Effect::Continue))
        }
    }
}

/// The state after the input instruction at `s` has stored `byte`.
pub open spec fn after_input(s: MachineState, byte: u8) -> MachineState {
    MachineState { ip: s.ip + 1, tape: s.tape.update(s.dp, byte), ..s }
}

/// Why a run stopped before the program's end.
#[derive(Debug, Clone, Copy, PartialEq, Eq, Structural)]
pub enum RunError {
    /// A step was refused.
    Fault(Fault),
    /// An input instruction found no byte left to read.
    InputExhausted,
    /// The run used up the steps it was given.
    StepLimit,
}

/// A run from `s` with `input` left to read, `out` already written and at most
/// `fuel` steps: the last state, all output, and how the run ended. Each
/// instruction, input ones included, takes one step; a run that stops early
/// leaves the machine as it was before the step that stopped it.
pub open spec fn run_from(s: MachineState, input: Seq<u8>, out: Seq<u8>, fuel: nat) -> (
    MachineState,
    Seq<u8>,
    Result<(), RunError>,
)
    decreases fuel,
{
    if s.ip >= s.program.len() {
        (s, out, Ok(()))
    } else if fuel == 0 {
        (s, out, Err(RunError::StepLimit))
    } else {
        match next(s).1 {
            Err(f) => (s, out, Err(RunError::Fault(f))),
            Ok(Effect::Output(b)) => run_from(next(s).0, input, out.push(b), (fuel - 1) as nat),
            Ok(Effect::AwaitInput) => if input.len() == 0 {
                (s, out, Err(RunError::InputExhausted))
            } else {
                run_from(after_input(s, input[0]), input.drop_first(), out, (fuel - 1) as nat)
            },
            _ => run_from(next(s).0, input, out, (fuel - 1) as nat),
        }
    }
}

/// A cell after `n` increments.
pub open spec fn cell_inc_n(c: u8, n: nat) -> u8
    decreases n,
{
    if n == 0 {
        c
    } else {
        cell_inc(cell_inc_n(c, (n - 1) as nat))
    }
}

/// `n` increments add `n` modulo 256.
pub proof fn lemma_cell_inc_n(c: u8, n: nat)
    ensures
        cell_inc_n(c, n) == (c + n) % 256,
    decreases n,
{
    if n > 0 {
        lemma_cell_inc_n(c, (n - 1) as nat);
    }
}

/// Cell arithmetic wraps: 256 increments bring a cell back to where it was,
/// so a zero cell is zero again, and a decrement of zero gives 255.
pub proof fn lemma_cell_wraps(c: u8)
    ensures
        cell_inc_n(c, 256) == c,
        cell_inc_n(0, 256) == 0,
        cell_dec(0) == 255,
{
    lemma_cell_inc_n(c, 256);
    lemma_cell_inc_n(0, 256);
}

/// A loop-open followed at once by its loop-close, reached on a zero cell,
/// runs no iteration: two steps later the machine stands past the loop, with
/// nothing else changed and no output.
pub proof fn lemma_empty_loop_skipped(s: MachineState)
    requires
        well_formed(s),
        0 <= s.ip && s.ip + 1 < s.program.len(),
        s.program[s.ip] == LBR,
        s.program[s.ip + 1] == RBR,
        s.tape[s.dp] == 0,
    ensures
        next(s).1 == Ok::<Effect, Fault>(Effect::Continue),
        next(s).0 == advance(s),
        next(next(s).0).1 == Ok::<Effect, Fault>(Effect::Continue),
        next(next(s).0).0 == advance(advance(s)),
{
    let p = s.program;
    assert(depth(p, s.ip + 1) == depth(p, s.ip) + 1);
    assert(depth(p, s.ip + 2) == depth(p, s.ip + 1) - 1);
    assert(partners(p, s.ip, s.ip + 1));
    lemma_partners_unique(p, s.ip, s.jumps[s.ip] as int, s.ip, s.ip + 1);
}

/// Every jump of a bracket lands inside the program.
proof fn lemma_jump_in_range(s: MachineState)
    requires
        well_formed(s),
    ensures
        forall|i: int|
            0 <= i < s.program.len() && (s.program[i] == LBR || s.program[i] == RBR) ==> 0 <= #[trigger] s.jumps[i] < s.program.len(),
{
}

/// A program with its jump table, and the state of its run.
pub struct Machine {
    program: Vec<u8>,
    jumps: Vec<u32>,
    tape: Vec<u8>,
    ip: usize,
    dp: usize,
}

impl View for Machine {
    type V = MachineState;

    closed spec fn view(&self) -> MachineState {
        MachineState {
            program: self.program@,
            jumps: self.jumps@,
            tape: self.tape@,
            ip: self.ip as int,
            dp: self.dp as int,
        }
    }
}

impl Machine {
    /// Builds the jump table of `program` and a machine at the start of its
    /// run; fails, before any tape exists, where the brackets do not match.
    pub fn new(program: Vec<u8>) -> (r: Result<Machine, BracketError>)
        requires
            program@.len() <= u32::MAX,
        ensures
            r is Ok <==> balanced(program@),
            !closes_covered(program@) ==> r matches Err(BracketError::UnmatchedClose(_)),
            match r {
                Ok(m) => well_formed(m@) && m@ == initial(program@, m@.jumps),
                Err(e) => explains_failure(program@, e),
            },
    {
        match generate_bracket_jumptables(program.as_slice()) {
            Ok(jumps) => {
                let tape = vec![0u8; TAPE_LEN];
                let m = Machine { program, jumps, tape, ip: 0, dp: 0 };
                assert(m@.tape =~= initial(program@, jumps@).tape);
                Ok(m)
            },
            Err(e) => Err(e),
        }
    }

    /// Runs the instruction at the instruction pointer, as `next` says: a
    /// fault or an input instruction leaves the machine unchanged.
    pub fn step(&mut self) -> (r: Result<Effect, Fault>)
        requires
            well_formed(old(self)@),
        ensures
            well_formed(final(self)@),
            (final(self)@, r) == next(old(self)@),
    {
        let ghost s = self@;
        if self.ip == self.program.len() {
            return Ok(Effect::Halted);
        }
        let op = self.program[self.ip];
        let c = self.tape[self.dp];
        proof {
            lemma_jump_in_range(s);
        }
        if op == FWD {
            if self.dp + 1 < TAPE_LEN {
                self.dp = self.dp + 1;
            } else {
                return Err(Fault::PointerOverflow);
            }
        } else if op == BAK {
            if self.dp > 0 {
                self.dp = self.dp - 1;
            } else {
                return Err(Fault::PointerUnderflow);
            }
        } else if op == INC {
            self.tape.set(self.dp, c.wrapping_add(1));
        } else if op == DEC {
            self.tape.set(self.dp, c.wrapping_sub(1));
        } else if op == PUT {
            self.ip = self.ip + 1;
            return Ok(Effect::Output(c));
        } else if op == INP {
            return Ok(Effect::AwaitInput);
        } else if op == LBR && c == 0 {
            self.ip = self.jumps[self.ip] as usize;
            return Ok(Effect::Continue);
        } else if op == RBR && c != 0 {
            self.ip = self.jumps[self.ip] as usize;
            return Ok(Effect::Continue);
        }
        self.ip = self.ip + 1;
        Ok(Effect::Continue)
    }

    /// Completes the input instruction at the instruction pointer: `byte`
    /// goes into the current cell and the machine moves on.
    pub fn provide_input(&mut self, byte: u8)
        requires
            well_formed(old(self)@),
            awaiting_input(old(self)@),
        ensures
            well_formed(final(self)@),
            final(self)@ == after_input(old(self)@, byte),
    {
        self.tape.set(self.dp, byte);
        self.ip = self.ip + 1;
    }

    /// Runs the machine for at most `max_steps` steps, reading from `input`
    /// in order and appending what it writes to `output`, as `run_from` says.
    pub fn run(&mut self, input: &[u8], max_steps: usize, output: &mut Vec<u8>) -> (r: Result<(), RunError>)
        requires
            well_formed(old(self)@),
        ensures
            well_formed(final(self)@),
            run_from(old(self)@, input@, old(output)@, max_steps as nat) == (final(self)@, final(output)@, r),
    {
        let ghost goal = run_from(self@, input@, output@, max_steps as nat);
        let mut fuel: usize = max_steps;
        let mut pos: usize = 0;
        assert(input@.subrange(0, input@.len() as int) =~= input@);
        loop
            invariant
                well_formed(self@),
                goal == run_from(old(self)@, input@, old(output)@, max_steps as nat),
                pos <= input@.len(),
                run_from(self@, input@.subrange(pos as int, input@.len() as int), output@, fuel as nat) == goal,
            decreases fuel,
        {
            let ghost rest = input@.subrange(pos as int, input@.len() as int);
            if self.halted() {
                return Ok(());
            }
            if fuel == 0 {
                return Err(RunError::StepLimit);
            }
            match self.step() {
                Err(f) => {
                    return Err(RunError::Fault(f));
                },
                Ok(Effect::Output(b)) => {
                    output.push(b);
                },
                Ok(Effect::AwaitInput) => {
                    if pos < input.len() {
                        self.provide_input(input[pos]);
                        pos = pos + 1;
                        assert(input@.subrange(pos as int, input@.len() as int) =~= rest.drop_first());
                    } else {
                        return Err(RunError::InputExhausted);
                    }
                },
                Ok(_) => {},
            }
            fuel = fuel - 1;
        }
    }

    /// Whether the machine stands at an input instruction.
    pub fn awaits_input(&self) -> (r: bool)
        requires
            well_formed(self@),
        ensures
            r == awaiting_input(self@),
    {
        self.ip < self.program.len() && self.program[self.ip] == INP
    }

    /// Whether the instruction pointer is past the last instruction.
    pub fn halted(&self) -> (r: bool)
        ensures
            r == (self@.ip >= self@.program.len()),
    {
        self.ip >= self.program.len()
    }

    /// The instruction pointer.
    pub fn ip(&self) -> (r: usize)
        ensures
            r == self@.ip,
    {
        self.ip
    }

    /// The data pointer.
    pub fn dp(&self) -> (r: usize)
        ensures
            r == self@.dp,
    {
        self.dp
    }

    /// The value of cell `i`, or `None` past the end of the tape.
    pub fn cell(&self, i: usize) -> (r: Option<u8>)
        ensures
            i < self@.tape.len() ==> r == Some(self@.tape[i as int]),
            i >= self@.tape.len() ==> r is None,
    {
        if i < self.tape.len() {
            Some(self.tape[i])
        } else {
            None
        }
    }
}

} // verus!
