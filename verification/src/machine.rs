//! Running a program against a tape.
//!
//! The machine is described twice. [`step_of`] and [`run`] say, as plain
//! mathematics, what one instruction and what a whole run do. [`step`] and
//! [`execute_code`] are the code that does it, and their contracts tie them
//! to that description.
//!
//! [`step`] never reads or writes anything itself. A caller that talks to
//! the outside world asks [`awaits_input`] whether the next instruction
//! wants a byte, hands that byte to [`step`], and performs the [`Action`]
//! that comes back. [`execute_code`] is such a caller for input and output
//! held in memory.

use crate::error::ExecError;
use crate::instruction::Instruction;
use crate::tape::{decrement, increment, Intepreter, Tape};
use vstd::prelude::*;

verus! {

/// Where the program counter goes once an input instruction has stored its
/// byte.
#[derive(Debug, Clone, Copy, PartialEq, Eq)]
pub enum InputPolicy {
    /// On to the next instruction, as after every other instruction that
    /// does not jump. This is what programs expect.
    Advance,
    /// Nowhere: the same input instruction is fetched again. A program that
    /// reaches one then reads its whole input into one cell and fails with
    /// `InputExhausted`.
    Repeat,
}

/// What the caller of [`step`] has to do next.
#[derive(Debug, Clone, Copy, PartialEq, Eq)]
pub enum Action {
    /// Go on at the address carried.
    Continue(usize),
    /// Write the byte carried, then go on at the address carried.
    Output(u8, usize),
    /// The run is complete.
    Halt,
    /// The run has failed; no further instruction may be executed.
    Fail(ExecError),
}

/// How a run ended.
#[derive(Debug, Clone, Copy, PartialEq, Eq)]
pub enum RunState {
    /// The machine reached a `Halt`.
    Completed,
    /// The machine failed at an instruction.
    Failed(ExecError),
    /// The step budget ran out first; the machine could have gone on.
    Interrupted,
}

/// What [`execute_code`] reports of a run.
#[derive(Debug, Clone, PartialEq, Eq)]
pub struct Execution {
    /// How the run ended.
    pub state: RunState,
    /// Every byte written, in order. It is complete up to the point where
    /// the run ended, however it ended.
    pub output: Vec<u8>,
    /// How many bytes of the input were read.
    pub consumed: usize,
    /// The address of the instruction at which the run ended: the `Halt`,
    /// the instruction that failed, or the one that would have come next.
    pub instruction_index: usize,
}

/// A jump target, where the instruction has one, is an address of a program
/// of `len` instructions.
pub open spec fn targets_inside(instruction: Instruction, len: nat) -> bool {
    match instruction {
        Instruction::Begin(target) => target matches Some(address) && address < len,
        Instruction::End(address) => address < len,
        _ => true,
    }
}

/// The program can be run: it ends with a `Halt`, and every jump leads to one
/// of its instructions.
pub open spec fn executable(program: Seq<Instruction>) -> bool {
    &&& program.len() > 0
    &&& program.last() == Instruction::Halt
    &&& forall|i: int| 0 <= i < program.len() ==> targets_inside(#[trigger] program[i], program.len())
}

/// The effect of one instruction: the tape after it and what is to be done
/// next. `at` is the address of the instruction and `event` the next byte of
/// input, if there is one; only an input instruction looks at it.
pub open spec fn step_of(
    instruction: Instruction,
    tape: Tape,
    at: int,
    event: Option<u8>,
    policy: InputPolicy,
) -> (Tape, Action) {
    let next = (at + 1) as usize;
    match instruction {
        Instruction::IncrementPointer => if tape.at_right_end() {
            (tape, Action::Fail(ExecError::PointerOverflow))
        } else {
            (tape.shift(1), Action::Continue(next))
        },
        Instruction::DecrementPointer => if tape.at_left_end() {
            (tape, Action::Fail(ExecError::PointerUnderflow))
        } else {
            (tape.shift(-1), Action::Continue(next))
        },
        Instruction::IncrementValue => (
            tape.store(increment(tape.current())),
            Action::Continue(next),
        ),
        Instruction::DecrementValue => (
            tape.store(decrement(tape.current())),
            Action::Continue(next),
        ),
        Instruction::OutputValue => (tape, Action::Output(tape.current(), next)),
        Instruction::InputValue => match event {
            Some(byte) => (
                tape.store(byte),
                Action::Continue(
                    if policy == InputPolicy::Advance {
                        next
                    } else {
                        at as usize
                    },
                ),
            ),
            None => (tape, Action::Fail(ExecError::InputExhausted)),
        },
        Instruction::Begin(target) => (
            tape,
            Action::Continue(
                if tape.current() == 0 {
                    target.unwrap()
                } else {
                    next
                },
            ),
        ),
        Instruction::End(target) => (
            tape,
            Action::Continue(
                if tape.current() != 0 {
                    target
                } else {
                    next
                },
            ),
        ),
        Instruction::Halt => (tape, Action::Halt),
    }
}

/// A machine between two instructions.
pub struct Run {
    /// The tape.
    pub tape: Tape,
    /// The address of the next instruction.
    pub at: int,
    /// The number of input bytes read so far.
    pub consumed: int,
    /// The bytes written so far.
    pub output: Seq<u8>,
}

impl Run {
    /// A machine about to execute the first instruction on `tape`.
    pub open spec fn start(tape: Tape) -> Run {
        Run { tape, at: 0, consumed: 0, output: Seq::empty() }
    }
}

/// The byte that `instruction` will be handed: the next one of `input`, when
/// the instruction reads and the input has one left.
pub open spec fn event_for(instruction: Instruction, input: Seq<u8>, consumed: int) -> Option<u8> {
    if instruction == Instruction::InputValue && 0 <= consumed < input.len() {
        Some(input[consumed])
    } else {
        None
    }
}

/// A run of at most `steps` instructions from `from`: the machine where it
/// ended, and how.
pub open spec fn run(
    program: Seq<Instruction>,
    input: Seq<u8>,
    policy: InputPolicy,
    from: Run,
    steps: nat,
) -> (Run, RunState)
    decreases steps,
{
    if steps == 0 {
        (from, RunState::Interrupted)
    } else {
        let instruction = program[from.at];
        let event = event_for(instruction, input, from.consumed);
        let (tape, action) = step_of(instruction, from.tape, from.at, event, policy);
        let consumed = if event is Some {
            from.consumed + 1
        } else {
            from.consumed
        };
        match action {
            Action::Continue(next) => run(
                program,
                input,
                policy,
                Run { tape, at: next as int, consumed, output: from.output },
                (steps - 1) as nat,
            ),
            Action::Output(byte, next) => run(
                program,
                input,
                policy,
                Run { tape, at: next as int, consumed, output: from.output.push(byte) },
                (steps - 1) as nat,
            ),
            Action::Halt => (from, RunState::Completed),
            Action::Fail(error) => (from, RunState::Failed(error)),
        }
    }
}

/// One step of a runnable program keeps the machine sound: the tape keeps
/// its length, the pointer stays on it, and the next address, if there is
/// one, is an address of the program.
pub proof fn lemma_step_stays_inside(
    program: Seq<Instruction>,
    tape: Tape,
    at: int,
    event: Option<u8>,
    policy: InputPolicy,
)
    requires
        executable(program),
        tape.wf(),
        0 <= at < program.len(),
    ensures
        step_of(program[at], tape, at, event, policy).0.wf(),
        step_of(program[at], tape, at, event, policy).0.cells.len() == tape.cells.len(),
        match step_of(program[at], tape, at, event, policy).1 {
            Action::Continue(next) => next < program.len(),
            Action::Output(_, next) => next < program.len(),
            Action::Halt => program[at] == Instruction::Halt,
            Action::Fail(_) => step_of(program[at], tape, at, event, policy).0 == tape,
        },
{
    assert(targets_inside(program[at], program.len()));
}

/// Whether `parsed_code` can be run.
pub fn is_executable(parsed_code: &Vec<Instruction>) -> (yes: bool)
    ensures
        yes == executable(parsed_code@),
{
    let len: usize = parsed_code.len();
    if len == 0 {
        return false;
    }
    match parsed_code[len - 1] {
        Instruction::Halt => {},
        _ => {
            return false;
        },
    }
    let mut index: usize = 0;
    while index < len
        invariant
            len == parsed_code.len(),
            index <= len,
            forall|i: int| 0 <= i < index ==> targets_inside(#[trigger] parsed_code@[i], len as nat),
        decreases len - index,
    {
        let inside: bool = match parsed_code[index] {
            Instruction::Begin(Some(address)) => address < len,
            Instruction::Begin(None) => false,
            Instruction::End(address) => address < len,
            _ => true,
        };
        if !inside {
            assert(!targets_inside(parsed_code@[index as int], len as nat));
            return false;
        }
        index += 1;
    }
    true
}

/// Whether the instruction at `instruction_index` reads input, so that the
/// caller of [`step`] should have a byte ready for it.
pub fn awaits_input(parsed_code: &Vec<Instruction>, instruction_index: usize) -> (waits: bool)
    ensures
        waits == (instruction_index < parsed_code.len() && parsed_code@[instruction_index as int]
            == Instruction::InputValue),
{
    if instruction_index >= parsed_code.len() {
        return false;
    }
    match parsed_code[instruction_index] {
        Instruction::InputValue => true,
        _ => false,
    }
}

/// Executes the instruction at `instruction_index` on the tape and says what
/// is to be done next.
///
/// `input` is the byte for an input instruction, `None` where the input has
/// come to its end; other instructions ignore it. The tape changes as
/// [`step_of`] says. After `Fail` the tape is as it was before the call.
pub fn step(
    parsed_code: &Vec<Instruction>,
    interpreter: &mut Intepreter,
    instruction_index: usize,
    input: Option<u8>,
    policy: InputPolicy,
) -> (action: Action)
    requires
        executable(parsed_code@),
        old(interpreter).wf(),
        instruction_index < parsed_code.len(),
    ensures
        (final(interpreter)@, action) == step_of(
            parsed_code@[instruction_index as int],
            old(interpreter)@,
            instruction_index as int,
            input,
            policy,
        ),
        final(interpreter).wf(),
        final(interpreter)@.cells.len() == old(interpreter)@.cells.len(),
        match action {
            Action::Continue(next) => next < parsed_code.len(),
            Action::Output(_, next) => next < parsed_code.len(),
            Action::Halt => true,
            Action::Fail(_) => final(interpreter)@ == old(interpreter)@,
        },
{
    proof {
        lemma_step_stays_inside(
            parsed_code@,
            interpreter@,
            instruction_index as int,
            input,
            policy,
        );
    }
    match parsed_code[instruction_index] {
        Instruction::IncrementPointer => match interpreter.increment_pointer() {
            Ok(()) => Action::Continue(instruction_index + 1),
            Err(error) => Action::Fail(error),
        },
        Instruction::DecrementPointer => match interpreter.decrement_pointer() {
            Ok(()) => Action::Continue(instruction_index + 1),
            Err(error) => Action::Fail(error),
        },
        Instruction::IncrementValue => {
            interpreter.increment_value();
            Action::Continue(instruction_index + 1)
        },
        Instruction::DecrementValue => {
            interpreter.decrement_value();
            Action::Continue(instruction_index + 1)
        },
        Instruction::OutputValue => Action::Output(interpreter.value(), instruction_index + 1),
        Instruction::InputValue => match input {
            Some(byte) => {
                interpreter.set_value(byte);
                match policy {
                    InputPolicy::Advance => Action::Continue(instruction_index + 1),
                    InputPolicy::Repeat => Action::Continue(instruction_index),
                }
            },
            None => Action::Fail(ExecError::InputExhausted),
        },
        Instruction::Begin(jump_address) => {
            if interpreter.value() == 0 {
                Action::Continue(jump_address.unwrap())
            } else {
                Action::Continue(instruction_index + 1)
            }
        },
        Instruction::End(jump_address) => {
            if interpreter.value() != 0 {
                Action::Continue(jump_address)
            } else {
                Action::Continue(instruction_index + 1)
            }
        },
        Instruction::Halt => Action::Halt,
    }
}

/// Runs `parsed_code` from its first instruction on the tape, reading from
/// `input` and collecting what is written, for at most `max_steps`
/// instructions.
///
/// The result and the tape are those of [`run`]. The run ends at a `Halt`
/// (`Completed`), at the first instruction that fails (`Failed`, with the
/// tape and the output as they were before that instruction), or when
/// `max_steps` instructions have been executed (`Interrupted`).
pub fn execute_code(
    parsed_code: Vec<Instruction>,
    interpreter: &mut Intepreter,
    input: &[u8],
    policy: InputPolicy,
    max_steps: u64,
) -> (done: Execution)
    requires
        executable(parsed_code@),
        old(interpreter).wf(),
    ensures
        ({
            let (last, state) = run(
                parsed_code@,
                input@,
                policy,
                Run::start(old(interpreter)@),
                max_steps as nat,
            );
            &&& final(interpreter)@ == last.tape
            &&& done.state == state
            &&& done.output@ == last.output
            &&& done.consumed == last.consumed
            &&& done.instruction_index == last.at
        }),
        final(interpreter).wf(),
        final(interpreter)@.cells.len() == old(interpreter)@.cells.len(),
{
    let mut instruction_index: usize = 0;
    let mut consumed: usize = 0;
    let mut output: Vec<u8> = Vec::new();
    let mut remaining: u64 = max_steps;
    let ghost start = Run::start(interpreter@);
    let ghost cells = interpreter@.cells.len();
    while remaining > 0
        invariant
            executable(parsed_code@),
            interpreter.wf(),
            interpreter@.cells.len() == cells,
            cells == old(interpreter)@.cells.len(),
            start == Run::start(old(interpreter)@),
            instruction_index < parsed_code.len(),
            consumed <= input.len(),
            run(parsed_code@, input@, policy, start, max_steps as nat) == run(
                parsed_code@,
                input@,
                policy,
                Run {
                    tape: interpreter@,
                    at: instruction_index as int,
                    consumed: consumed as int,
                    output: output@,
                },
                remaining as nat,
            ),
        decreases remaining,
    {
        let event: Option<u8> = if awaits_input(&parsed_code, instruction_index) && consumed
            < input.len() {
            Some(input[consumed])
        } else {
            None
        };
        let action: Action = step(&parsed_code, interpreter, instruction_index, event, policy);
        match action {
            Action::Continue(next) => {
                instruction_index = next;
            },
            Action::Output(byte, next) => {
                output.push(byte);
                instruction_index = next;
            },
            Action::Halt => {
                return Execution {
                    state: RunState::Completed,
                    output,
                    consumed,
                    instruction_index,
                };
            },
            Action::Fail(error) => {
                return Execution {
                    state: RunState::Failed(error),
                    output,
                    consumed,
                    instruction_index,
                };
            },
        }
        if event.is_some() {
            consumed += 1;
        }
        remaining -= 1;
    }
    Execution { state: RunState::Interrupted, output, consumed, instruction_index }
}

} // verus!
