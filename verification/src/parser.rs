//! From program text to instructions.
//!
//! The parser reads the text once. It keeps a stack of the `[` that are still
//! open; each `]` pops one, writes the jump target into the `Begin` it
//! belongs to and emits the `End` that jumps back.

use crate::error::ParseError;
use crate::instruction::{plain_instruction, Instruction};
use crate::machine::{executable, targets_inside};
use crate::syntax::{
    balanced, bracket_step, closer, closes_unopened, depth, is_pair, is_symbol, leaves_open,
    lemma_closer_exists, lemma_depth_local, lemma_opener_exists, lemma_pair_extends,
    lemma_pair_names, lemma_symbols_of_prefix, lemma_symbols_push, opener, starts, symbols,
};
use vstd::prelude::*;

verus! {

/// The instruction at address `i` of the program that the symbols `s` stand
/// for. A bracket carries the address just past its partner.
pub open spec fn instruction_at(s: Seq<char>, i: int) -> Instruction {
    if s[i] == '[' {
        Instruction::Begin(Some((closer(s, i) + 1) as usize))
    } else if s[i] == ']' {
        Instruction::End((opener(s, i) + 1) as usize)
    } else {
        plain_instruction(s[i])
    }
}

/// The program that the symbols `s` stand for, one instruction per symbol.
pub open spec fn instructions(s: Seq<char>) -> Seq<Instruction> {
    Seq::new(s.len(), |i: int| instruction_at(s, i))
}

/// What parsing a text gives: the program of its symbols where the brackets
/// pair up, and otherwise the first defect met when reading from the left.
pub open spec fn parsed(source: Seq<char>) -> Result<Seq<Instruction>, ParseError> {
    let s = symbols(source);
    if closes_unopened(s) {
        Err(ParseError::UnmatchedEnd)
    } else if leaves_open(s) {
        Err(ParseError::UnmatchedBegin)
    } else {
        Ok(instructions(s))
    }
}

/// What compiling a text gives: its program with a `Halt` at the end, so that
/// a loop that closes with the last symbol of the text has somewhere to jump
/// to.
pub open spec fn compiled(source: Seq<char>) -> Result<Seq<Instruction>, ParseError> {
    match parsed(source) {
        Ok(program) => Ok(program.push(Instruction::Halt)),
        Err(error) => Err(error),
    }
}

/// A parser's result with the program taken as a sequence.
pub open spec fn outcome(result: Result<Vec<Instruction>, ParseError>) -> Result<
    Seq<Instruction>,
    ParseError,
> {
    match result {
        Ok(program) => Ok(program@),
        Err(error) => Err(error),
    }
}

/// The `[` at `i` is still open at the end of `s`.
spec fn pending(s: Seq<char>, i: int) -> bool {
    &&& 0 <= i < s.len()
    &&& s[i] == '['
    &&& forall|k: int| i < k <= s.len() ==> #[trigger] depth(s, k) > depth(s, i)
}

/// The bracket at `i`, if it is one, has its partner in `s`.
spec fn resolved(s: Seq<char>, i: int) -> bool {
    if s[i] == '[' {
        is_pair(s, i, closer(s, i))
    } else if s[i] == ']' {
        is_pair(s, opener(s, i), i)
    } else {
        true
    }
}

/// The state of the parser after the symbols `s`: `out` holds one instruction
/// per symbol, final for all but the `[` still open, and `stack` holds
/// those, the outermost first.
spec fn parsing(s: Seq<char>, out: Seq<Instruction>, stack: Seq<usize>) -> bool {
    &&& out.len() == s.len()
    &&& stack.len() == depth(s, s.len() as int)
    &&& forall|n: int| 0 <= n <= s.len() ==> #[trigger] depth(s, n) >= 0
    &&& forall|t: int|
        0 <= t < stack.len() ==> pending(s, #[trigger] stack[t] as int) && depth(
            s,
            stack[t] as int,
        ) == t
    &&& forall|i: int|
        0 <= i < s.len() ==> if pending(s, i) {
            &&& #[trigger] out[i] == Instruction::Begin(None)
            &&& depth(s, i) < stack.len()
            &&& stack[depth(s, i)] == i
        } else {
            &&& resolved(s, i)
            &&& out[i] == instruction_at(s, i)
        }
}

/// A bracket that has its partner keeps it, and its instruction, when the
/// text goes on.
proof fn lemma_resolved_extends(a: Seq<char>, b: Seq<char>, i: int)
    requires
        starts(a, b),
        0 <= i < a.len(),
        resolved(a, i),
    ensures
        resolved(b, i),
        instruction_at(b, i) == instruction_at(a, i),
{
    if a[i] == '[' {
        lemma_pair_extends(a, b, i, closer(a, i));
        lemma_pair_names(b, i, closer(a, i));
    } else if a[i] == ']' {
        lemma_pair_extends(a, b, opener(a, i), i);
        lemma_pair_names(b, opener(a, i), i);
    }
}

/// A `[` that is open after `s` and after one more symbol was open before.
proof fn lemma_pending_before(s: Seq<char>, c: char, i: int)
    requires
        pending(s.push(c), i),
        i < s.len(),
    ensures
        pending(s, i),
{
    let t = s.push(c);
    lemma_depth_local(s, t, i);
    assert forall|k: int| i < k <= s.len() implies #[trigger] depth(s, k) > depth(s, i) by {
        lemma_depth_local(s, t, k);
        assert(depth(t, k) > depth(t, i));
    }
}

/// A `[` that is open after `s` stays open after one more symbol that leaves
/// the depth above that of the `[`.
proof fn lemma_pending_after(s: Seq<char>, c: char, i: int)
    requires
        pending(s, i),
        depth(s, s.len() as int) + bracket_step(c) > depth(s, i),
    ensures
        pending(s.push(c), i),
{
    let t = s.push(c);
    lemma_depth_local(s, t, i);
    lemma_depth_local(s, t, s.len() as int);
    assert forall|k: int| i < k <= t.len() implies #[trigger] depth(t, k) > depth(t, i) by {
        if k <= s.len() {
            lemma_depth_local(s, t, k);
            assert(depth(s, k) > depth(s, i));
        }
    }
}

/// The parser's state after a symbol that is no bracket.
proof fn lemma_parse_plain(s: Seq<char>, out: Seq<Instruction>, stack: Seq<usize>, c: char)
    requires
        parsing(s, out, stack),
        c != '[',
        c != ']',
    ensures
        parsing(s.push(c), out.push(plain_instruction(c)), stack),
{
    let t = s.push(c);
    let next = out.push(plain_instruction(c));
    lemma_depth_local(s, t, s.len() as int);
    assert forall|n: int| 0 <= n <= t.len() implies #[trigger] depth(t, n) >= 0 by {
        if n <= s.len() {
            lemma_depth_local(s, t, n);
        }
    }
    assert forall|k: int| 0 <= k < stack.len() implies pending(t, #[trigger] stack[k] as int)
        && depth(t, stack[k] as int) == k by {
        let i = stack[k] as int;
        assert(depth(s, s.len() as int) > depth(s, i));
        lemma_pending_after(s, c, i);
        lemma_depth_local(s, t, i);
    }
    assert forall|i: int| 0 <= i < t.len() implies if pending(t, i) {
        &&& #[trigger] next[i] == Instruction::Begin(None)
        &&& depth(t, i) < stack.len()
        &&& stack[depth(t, i)] == i
    } else {
        &&& resolved(t, i)
        &&& next[i] == instruction_at(t, i)
    } by {
        if i < s.len() {
            lemma_depth_local(s, t, i);
            assert(out[i] == next[i]);
            if pending(t, i) {
                lemma_pending_before(s, c, i);
            } else if pending(s, i) {
                assert(depth(s, s.len() as int) > depth(s, i));
                lemma_pending_after(s, c, i);
            } else {
                lemma_resolved_extends(s, t, i);
            }
        }
    }
}

/// The parser's state after a `[`.
proof fn lemma_parse_open(s: Seq<char>, out: Seq<Instruction>, stack: Seq<usize>)
    requires
        parsing(s, out, stack),
        s.len() <= usize::MAX,
    ensures
        parsing(s.push('['), out.push(Instruction::Begin(None)), stack.push(s.len() as usize)),
{
    let t = s.push('[');
    let next = out.push(Instruction::Begin(None));
    let deeper = stack.push(s.len() as usize);
    lemma_depth_local(s, t, s.len() as int);
    assert forall|n: int| 0 <= n <= t.len() implies #[trigger] depth(t, n) >= 0 by {
        if n <= s.len() {
            lemma_depth_local(s, t, n);
        }
    }
    assert(pending(t, s.len() as int));
    assert forall|k: int| 0 <= k < deeper.len() implies pending(t, #[trigger] deeper[k] as int)
        && depth(t, deeper[k] as int) == k by {
        if k < stack.len() {
            let i = stack[k] as int;
            assert(depth(s, s.len() as int) > depth(s, i));
            lemma_pending_after(s, '[', i);
            lemma_depth_local(s, t, i);
        }
    }
    assert forall|i: int| 0 <= i < t.len() implies if pending(t, i) {
        &&& #[trigger] next[i] == Instruction::Begin(None)
        &&& depth(t, i) < deeper.len()
        &&& deeper[depth(t, i)] == i
    } else {
        &&& resolved(t, i)
        &&& next[i] == instruction_at(t, i)
    } by {
        if i < s.len() {
            lemma_depth_local(s, t, i);
            assert(out[i] == next[i]);
            if pending(t, i) {
                lemma_pending_before(s, '[', i);
            } else if pending(s, i) {
                assert(depth(s, s.len() as int) > depth(s, i));
                lemma_pending_after(s, '[', i);
            } else {
                lemma_resolved_extends(s, t, i);
            }
        }
    }
}

/// The parser's state after a `]` that closes the innermost open `[`.
proof fn lemma_parse_close(s: Seq<char>, out: Seq<Instruction>, stack: Seq<usize>)
    requires
        parsing(s, out, stack),
        stack.len() > 0,
        s.len() < usize::MAX,
    ensures
        parsing(
            s.push(']'),
            out.update(
                stack.last() as int,
                Instruction::Begin(Some((s.len() + 1) as usize)),
            ).push(Instruction::End((stack.last() + 1) as usize)),
            stack.drop_last(),
        ),
{
    let t = s.push(']');
    let b = stack.last() as int;
    let n = s.len() as int;
    let next = out.update(b, Instruction::Begin(Some((n + 1) as usize))).push(
        Instruction::End((b + 1) as usize),
    );
    let rest = stack.drop_last();
    lemma_depth_local(s, t, n);
    lemma_depth_local(s, t, b);
    assert(pending(s, stack[stack.len() - 1] as int));
    assert forall|m: int| 0 <= m <= t.len() implies #[trigger] depth(t, m) >= 0 by {
        if m <= n {
            lemma_depth_local(s, t, m);
        }
    }
    assert forall|k: int| b < k <= n implies #[trigger] depth(t, k) > depth(t, b) by {
        lemma_depth_local(s, t, k);
        assert(depth(s, k) > depth(s, b));
    }
    assert(is_pair(t, b, n));
    lemma_pair_names(t, b, n);
    assert forall|k: int| 0 <= k < rest.len() implies pending(t, #[trigger] rest[k] as int)
        && depth(t, rest[k] as int) == k by {
        let i = stack[k] as int;
        lemma_pending_after(s, ']', i);
        lemma_depth_local(s, t, i);
    }
    assert forall|i: int| 0 <= i < t.len() implies if pending(t, i) {
        &&& #[trigger] next[i] == Instruction::Begin(None)
        &&& depth(t, i) < rest.len()
        &&& rest[depth(t, i)] == i
    } else {
        &&& resolved(t, i)
        &&& next[i] == instruction_at(t, i)
    } by {
        if i == n {
        } else if i == b {
            assert(depth(t, n + 1) == depth(t, b));
        } else {
            lemma_depth_local(s, t, i);
            assert(out[i] == next[i]);
            if pending(t, i) {
                lemma_pending_before(s, ']', i);
                assert(depth(t, n + 1) > depth(t, i));
            } else if pending(s, i) {
                assert(stack[depth(s, i)] == i);
                lemma_pending_after(s, ']', i);
            } else {
                lemma_resolved_extends(s, t, i);
            }
        }
    }
}

/// Once the text is read and no `[` is open, the instructions are the
/// program of the text.
proof fn lemma_parse_done(s: Seq<char>, out: Seq<Instruction>, stack: Seq<usize>)
    requires
        parsing(s, out, stack),
        stack.len() == 0,
    ensures
        balanced(s),
        out == instructions(s),
{
    assert forall|i: int| 0 <= i < s.len() implies out[i] == instruction_at(s, i) by {
        if pending(s, i) {
            assert(out[i] == Instruction::Begin(None));
            assert(depth(s, i) < stack.len());
        }
    }
    assert(out =~= instructions(s));
}

/// The instruction of a symbol that is no bracket. Brackets and comments
/// have none.
fn plain(c: char) -> (instruction: Option<Instruction>)
    ensures
        instruction == if is_symbol(c) && c != '[' && c != ']' {
            Some(plain_instruction(c))
        } else {
            None
        },
{
    match c {
        '>' => Some(Instruction::IncrementPointer),
        '<' => Some(Instruction::DecrementPointer),
        '+' => Some(Instruction::IncrementValue),
        '-' => Some(Instruction::DecrementValue),
        '.' => Some(Instruction::OutputValue),
        ',' => Some(Instruction::InputValue),
        _ => None,
    }
}

/// Parses a program text.
///
/// Characters other than the eight symbols are skipped, so the address of an
/// instruction is its position among the symbols. The result is `Ok` exactly
/// when the brackets pair up; the program then has one instruction per
/// symbol, each `Begin` carrying the address just past its `End` and each
/// `End` the address just past its `Begin`. A `]` with no open `[` gives
/// `UnmatchedEnd` whatever follows it; a `[` left open at the end of a text
/// without such a `]` gives `UnmatchedBegin`.
///
/// The program is not yet runnable: [`compile`] adds the `Halt`.
pub fn parse_code(code: &String) -> (result: Result<Vec<Instruction>, ParseError>)
    ensures
        outcome(result) == parsed(code@),
        result matches Ok(program) ==> forall|open: int, close: int| #[trigger]
            is_pair(symbols(code@), open, close) ==> {
                &&& program@[open] == Instruction::Begin(Some((close + 1) as usize))
                &&& program@[close] == Instruction::End((open + 1) as usize)
            },
{
    broadcast use vstd::string::group_string_axioms;

    let text: &str = code.as_str();
    let mut parsed_instructions: Vec<Instruction> = Vec::new();
    // the addresses of the `[` that are still open
    let mut stack: Vec<usize> = Vec::new();
    let ghost mut seen: Seq<char> = Seq::empty();
    proof {
        assert(code@.take(0) =~= Seq::<char>::empty());
        reveal(Seq::filter);
    }
    for operation in it: text.chars()
        invariant
            it.seq() == code@,
            seen == symbols(code@.take(it.index())),
            parsing(seen, parsed_instructions@, stack@),
    {
        proof {
            let k: int = it.index();
            assert(code@.take(k + 1) =~= code@.take(k).push(operation));
            lemma_symbols_push(code@.take(k), operation);
        }
        let index: usize = parsed_instructions.len();
        let ghost open = stack@;
        if operation == '[' {
            proof {
                lemma_parse_open(seen, parsed_instructions@, stack@);
                seen = seen.push(operation);
            }
            stack.push(index);
            parsed_instructions.push(Instruction::Begin(None));
        } else if operation == ']' {
            match stack.pop() {
                None => {
                    proof {
                        let k: int = it.index();
                        let t = seen.push(operation);
                        lemma_depth_local(seen, t, seen.len() as int);
                        lemma_symbols_of_prefix(code@, k + 1);
                        lemma_depth_local(t, symbols(code@), t.len() as int);
                        assert(depth(symbols(code@), t.len() as int) < 0);
                    }
                    return Err(ParseError::UnmatchedEnd);
                },
                Some(previous_begin_index) => {
                    let ghost before = parsed_instructions@;
                    assert(pending(seen, open[open.len() - 1] as int));
                    parsed_instructions.push(Instruction::End(previous_begin_index + 1));
                    let after: usize = parsed_instructions.len();
                    parsed_instructions.set(previous_begin_index, Instruction::Begin(Some(after)));
                    proof {
                        assert(open.drop_last() =~= stack@);
                        lemma_parse_close(seen, before, open);
                        assert(parsed_instructions@ =~= before.update(
                            previous_begin_index as int,
                            Instruction::Begin(Some((seen.len() + 1) as usize)),
                        ).push(Instruction::End((previous_begin_index + 1) as usize)));
                        seen = seen.push(operation);
                    }
                },
            }
        } else if let Some(instruction) = plain(operation) {
            proof {
                lemma_parse_plain(seen, parsed_instructions@, stack@, operation);
                seen = seen.push(operation);
            }
            parsed_instructions.push(instruction);
        }
    }
    proof {
        assert(code@.take(code@.len() as int) =~= code@);
    }
    if stack.len() > 0 {
        return Err(ParseError::UnmatchedBegin);
    }
    proof {
        lemma_parse_done(seen, parsed_instructions@, stack@);
        assert forall|open: int, close: int| #[trigger]
            is_pair(seen, open, close) implies parsed_instructions@[open] == Instruction::Begin(
            Some((close + 1) as usize),
        ) && parsed_instructions@[close] == Instruction::End((open + 1) as usize) by {
            lemma_pair_names(seen, open, close);
        }
    }
    Ok(parsed_instructions)
}

/// The program of a text with a `Halt` added can be run: each bracket jumps
/// to the address after its partner, which is an address of the program or
/// that of the `Halt`.
pub proof fn lemma_compiled_is_executable(source: Seq<char>)
    requires
        symbols(source).len() < usize::MAX,
    ensures
        compiled(source) matches Ok(program) ==> executable(program),
{
    let s = symbols(source);
    if let Ok(program) = compiled(source) {
        assert forall|i: int| 0 <= i < program.len() implies targets_inside(
            #[trigger] program[i],
            program.len(),
        ) by {
            if i < s.len() {
                assert(program[i] == instruction_at(s, i));
                if s[i] == '[' {
                    lemma_closer_exists(s, i);
                } else if s[i] == ']' {
                    lemma_opener_exists(s, i);
                }
            }
        }
    }
}

/// Parses a program text and adds the `Halt` that makes it runnable.
///
/// The result is `Ok` exactly when [`parse_code`] gives `Ok`, and the
/// program is then that of [`parse_code`] followed by one `Halt`.
pub fn compile(code: &String) -> (result: Result<Vec<Instruction>, ParseError>)
    ensures
        outcome(result) == compiled(code@),
        result matches Ok(program) ==> executable(program@),
{
    match parse_code(code) {
        Ok(mut instructions) => {
            instructions.push(Instruction::Halt);
            proof {
                assert(instructions.len() == symbols(code@).len() + 1);
                lemma_compiled_is_executable(code@);
            }
            Ok(instructions)
        },
        Err(error) => Err(error),
    }
}

} // verus!
