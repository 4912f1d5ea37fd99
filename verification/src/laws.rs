//! What holds of the parser and the machine on every input.

use crate::error::ParseError;
use crate::instruction::Instruction;
use crate::machine::{
    event_for, executable, lemma_step_stays_inside, run, step_of, Action, InputPolicy, Run,
    RunState,
};
use crate::parser::{compiled, instruction_at, instructions, outcome, parsed};
use crate::syntax::{
    balanced, closer, depth, is_pair, is_symbol, leaves_open, lemma_closer_exists,
    lemma_depth_local, lemma_opener_exists, lemma_pair_names, lemma_symbols_concat,
    lemma_symbols_push, opener, symbols,
};
use crate::tape::{decrement, increment, Tape};
use vstd::prelude::*;

verus! {

/// A text whose brackets pair up is a program, and each of its brackets has
/// its partner.
pub proof fn balanced_text_parses(source: Seq<char>, i: int)
    requires
        balanced(symbols(source)),
        0 <= i < symbols(source).len(),
    ensures
        parsed(source) == Ok::<Seq<Instruction>, ParseError>(instructions(symbols(source))),
        symbols(source)[i] == '[' ==> is_pair(symbols(source), i, closer(symbols(source), i)),
        symbols(source)[i] == ']' ==> is_pair(symbols(source), opener(symbols(source), i), i),
{
    let s = symbols(source);
    if s[i] == '[' {
        lemma_closer_exists(s, i);
    } else if s[i] == ']' {
        lemma_opener_exists(s, i);
    }
}

/// In a program, the `Begin` of a loop carries the address after its `End`,
/// and the `End` carries the address after its `Begin`.
pub proof fn pairs_carry_each_other(source: Seq<char>, open: int, close: int)
    requires
        source.len() <= usize::MAX,
        is_pair(symbols(source), open, close),
    ensures
        parsed(source) matches Ok(program) ==> {
            &&& program[open] matches Instruction::Begin(Some(target)) && target == close + 1
            &&& program[close] matches Instruction::End(target) && target == open + 1
        },
{
    let s = symbols(source);
    source.lemma_filter_len(|c: char| is_symbol(c));
    lemma_pair_names(s, open, close);
    if let Ok(program) = parsed(source) {
        assert(program[open] == instruction_at(s, open));
        assert(program[close] == instruction_at(s, close));
    }
}

/// The depth of a text in two parts is the depth of the first part plus
/// the depth reached in the second.
proof fn lemma_depth_concat(a: Seq<char>, b: Seq<char>, n: int)
    requires
        0 <= n <= b.len(),
    ensures
        depth(a + b, a.len() + n) == depth(a, a.len() as int) + depth(b, n),
    decreases n,
{
    if n == 0 {
        lemma_depth_local(a, a + b, a.len() as int);
    } else {
        lemma_depth_concat(a, b, n - 1);
        assert((a + b)[a.len() + n - 1] == b[n - 1]);
    }
}

/// A `]` that stands where no `[` is open makes the text fail with
/// `UnmatchedEnd`, whatever follows it.
pub proof fn unmatched_end_fails(before: Seq<char>, after: Seq<char>)
    requires
        depth(symbols(before), symbols(before).len() as int) <= 0,
    ensures
        parsed(before.push(']') + after) == Err::<Seq<Instruction>, ParseError>(
            ParseError::UnmatchedEnd,
        ),
{
    let head = symbols(before.push(']'));
    let whole = symbols(before.push(']') + after);
    lemma_symbols_push(before, ']');
    lemma_symbols_concat(before.push(']'), after);
    lemma_depth_local(symbols(before), head, symbols(before).len() as int);
    assert(depth(head, head.len() as int) < 0);
    lemma_depth_local(head, whole, head.len() as int);
    assert(depth(whole, head.len() as int) < 0);
}

/// A `[` put anywhere into a text whose brackets pair up makes the text fail
/// with `UnmatchedBegin`.
pub proof fn unmatched_begin_fails(before: Seq<char>, after: Seq<char>)
    requires
        balanced(symbols(before + after)),
    ensures
        parsed(before.push('[') + after) == Err::<Seq<Instruction>, ParseError>(
            ParseError::UnmatchedBegin,
        ),
{
    let a = symbols(before);
    let b = symbols(after);
    let good = symbols(before + after);
    let head = symbols(before.push('['));
    let whole = symbols(before.push('[') + after);
    lemma_symbols_concat(before, after);
    lemma_symbols_push(before, '[');
    lemma_symbols_concat(before.push('['), after);
    lemma_depth_local(a, head, a.len() as int);
    assert(depth(head, head.len() as int) == depth(a, a.len() as int) + 1);
    assert forall|n: int| 0 <= n <= whole.len() implies #[trigger] depth(whole, n) >= 0 by {
        if n <= a.len() {
            lemma_depth_local(a, good, n);
            lemma_depth_local(a, head, n);
            lemma_depth_local(head, whole, n);
            assert(depth(good, n) >= 0);
        } else {
            let k = n - head.len();
            lemma_depth_concat(head, b, k);
            lemma_depth_concat(a, b, k);
            assert(depth(good, a.len() + k) >= 0);
        }
    }
    lemma_depth_concat(head, b, b.len() as int);
    lemma_depth_concat(a, b, b.len() as int);
    assert(leaves_open(whole));
}

/// A character that is no symbol changes nothing, wherever it is put: the
/// symbols, the program and its jump targets stay the same.
pub proof fn comments_are_transparent(source: Seq<char>, at: int, comment: char)
    requires
        0 <= at <= source.len(),
        !is_symbol(comment),
    ensures
        symbols(source.insert(at, comment)) == symbols(source),
        parsed(source.insert(at, comment)) == parsed(source),
        compiled(source.insert(at, comment)) == compiled(source),
{
    let head = source.take(at);
    let tail = source.skip(at);
    assert(source =~= head + tail);
    assert(source.insert(at, comment) =~= head.push(comment) + tail);
    lemma_symbols_push(head, comment);
    lemma_symbols_concat(head, tail);
    lemma_symbols_concat(head.push(comment), tail);
}

/// Parsing is a function of the text: two results of the parser on one text
/// are the same, instruction for instruction.
pub proof fn parsing_is_deterministic(
    source: Seq<char>,
    first: Result<Vec<Instruction>, ParseError>,
    second: Result<Vec<Instruction>, ParseError>,
)
    requires
        outcome(first) == parsed(source),
        outcome(second) == parsed(source),
    ensures
        outcome(first) == outcome(second),
{
}

/// Cell arithmetic is arithmetic modulo 256: one more than 255 is 0, and one
/// less than 0 is 255.
pub proof fn cell_arithmetic_wraps(value: u8)
    ensures
        increment(value) == (value + 1) % 256,
        decrement(value) == (value - 1) % 256,
        increment(255) == 0,
        decrement(0) == 255,
{
}

/// An increment of a cell that holds 255 leaves 0 in it, a decrement of a
/// cell that holds 0 leaves 255, and the run goes on either way.
pub proof fn cells_wrap_on_the_tape(tape: Tape, at: int, event: Option<u8>, policy: InputPolicy)
    requires
        tape.wf(),
    ensures
        tape.current() == 255 ==> step_of(
            Instruction::IncrementValue,
            tape,
            at,
            event,
            policy,
        ).0.current() == 0,
        tape.current() == 0 ==> step_of(
            Instruction::DecrementValue,
            tape,
            at,
            event,
            policy,
        ).0.current() == 255,
        step_of(Instruction::IncrementValue, tape, at, event, policy).1 is Continue,
        step_of(Instruction::DecrementValue, tape, at, event, policy).1 is Continue,
{
}

/// Comments do not change what a program does: the text with a comment put
/// in compiles to a program that runs exactly as the program of the text
/// without it.
pub proof fn comments_do_not_change_a_run(
    source: Seq<char>,
    at: int,
    comment: char,
    input: Seq<u8>,
    policy: InputPolicy,
    from: Run,
    steps: nat,
)
    requires
        0 <= at <= source.len(),
        !is_symbol(comment),
    ensures
        compiled(source) matches Ok(bare) ==> compiled(source.insert(at, comment)) matches Ok(
            noisy,
        ) && run(noisy, input, policy, from, steps) == run(bare, input, policy, from, steps),
{
    comments_are_transparent(source, at, comment);
}

/// Throughout a run of a runnable program the tape keeps its length, the
/// pointer stays on the tape and the program counter in the program. Input is
/// read from the front and never put back, and output is only ever added to.
/// A completed run stands at a `Halt`.
pub proof fn run_stays_inside(
    program: Seq<Instruction>,
    input: Seq<u8>,
    policy: InputPolicy,
    from: Run,
    steps: nat,
)
    requires
        executable(program),
        from.tape.wf(),
        0 <= from.at < program.len(),
        0 <= from.consumed <= input.len(),
    ensures
        ({
            let (last, state) = run(program, input, policy, from, steps);
            &&& last.tape.wf()
            &&& last.tape.cells.len() == from.tape.cells.len()
            &&& 0 <= last.at < program.len()
            &&& from.consumed <= last.consumed <= input.len()
            &&& from.output.is_prefix_of(last.output)
            &&& state == RunState::Completed ==> program[last.at] == Instruction::Halt
        }),
    decreases steps,
{
    if steps > 0 {
        let event = event_for(program[from.at], input, from.consumed);
        lemma_step_stays_inside(program, from.tape, from.at, event, policy);
        let (tape, action) = step_of(program[from.at], from.tape, from.at, event, policy);
        let consumed = if event is Some {
            from.consumed + 1
        } else {
            from.consumed
        };
        match action {
            Action::Continue(next) => {
                let then = Run { tape, at: next as int, consumed, output: from.output };
                run_stays_inside(program, input, policy, then, (steps - 1) as nat);
            },
            Action::Output(byte, next) => {
                let then = Run {
                    tape,
                    at: next as int,
                    consumed,
                    output: from.output.push(byte),
                };
                run_stays_inside(program, input, policy, then, (steps - 1) as nat);
            },
            _ => {},
        }
    }
}

/// The step budget decides only whether a run is cut short. A run that ended
/// within its budget ends the same way with a larger one, and a run that was
/// interrupted goes on with more steps as if it had never stopped.
pub proof fn runs_compose(
    program: Seq<Instruction>,
    input: Seq<u8>,
    policy: InputPolicy,
    from: Run,
    steps: nat,
    more: nat,
)
    ensures
        run(program, input, policy, from, steps + more) == if run(
            program,
            input,
            policy,
            from,
            steps,
        ).1 == RunState::Interrupted {
            run(program, input, policy, run(program, input, policy, from, steps).0, more)
        } else {
            run(program, input, policy, from, steps)
        },
    decreases steps,
{
    if steps > 0 {
        let event = event_for(program[from.at], input, from.consumed);
        let (tape, action) = step_of(program[from.at], from.tape, from.at, event, policy);
        let consumed = if event is Some {
            from.consumed + 1
        } else {
            from.consumed
        };
        match action {
            Action::Continue(next) => {
                let then = Run { tape, at: next as int, consumed, output: from.output };
                runs_compose(program, input, policy, then, (steps - 1) as nat, more);
                assert((steps + more - 1) as nat == (steps - 1) as nat + more);
            },
            Action::Output(byte, next) => {
                let then = Run {
                    tape,
                    at: next as int,
                    consumed,
                    output: from.output.push(byte),
                };
                runs_compose(program, input, policy, then, (steps - 1) as nat, more);
                assert((steps + more - 1) as nat == (steps - 1) as nat + more);
            },
            _ => {},
        }
    }
}

} // verus!
