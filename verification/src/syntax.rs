//! The shape of a program text: which characters count, how deeply the
//! brackets nest, and which `[` belongs to which `]`.
//!
//! Everything here is a statement about sequences of characters; the parser
//! and its laws are phrased in these terms.

use vstd::prelude::*;

verus! {

/// The eight characters that are instructions. Every other character is a
/// comment.
pub open spec fn is_symbol(c: char) -> bool {
    c == '>' || c == '<' || c == '+' || c == '-' || c == '.' || c == ',' || c == '[' || c == ']'
}

/// The text with its comments removed. Position `i` of this sequence is the
/// address of the instruction that `symbols(source)[i]` becomes.
pub open spec fn symbols(source: Seq<char>) -> Seq<char> {
    source.filter(|c: char| is_symbol(c))
}

/// What a symbol adds to the nesting depth.
pub open spec fn bracket_step(c: char) -> int {
    if c == '[' {
        1
    } else if c == ']' {
        -1
    } else {
        0
    }
}

/// The nesting depth after the first `n` symbols of `s`: the number of `[`
/// among them minus the number of `]`.
pub open spec fn depth(s: Seq<char>, n: int) -> int
    decreases n,
{
    if n <= 0 {
        0
    } else {
        depth(s, n - 1) + bracket_step(s[n - 1])
    }
}

/// Some `]` of `s` has no `[` before it left to close.
pub open spec fn closes_unopened(s: Seq<char>) -> bool {
    exists|n: int| 0 <= n <= s.len() && #[trigger] depth(s, n) < 0
}

/// Every `]` of `s` closes a `[`, but some `[` is never closed.
pub open spec fn leaves_open(s: Seq<char>) -> bool {
    !closes_unopened(s) && depth(s, s.len() as int) > 0
}

/// The brackets of `s` pair up exactly.
pub open spec fn balanced(s: Seq<char>) -> bool {
    !closes_unopened(s) && depth(s, s.len() as int) == 0
}

/// The `[` at `open` and the `]` at `close` belong together: the depth
/// returns to its value before `open` right after `close`, and not earlier.
pub open spec fn is_pair(s: Seq<char>, open: int, close: int) -> bool {
    &&& 0 <= open < close < s.len()
    &&& s[open] == '['
    &&& s[close] == ']'
    &&& depth(s, close + 1) == depth(s, open)
    &&& forall|k: int| open < k <= close ==> #[trigger] depth(s, k) > depth(s, open)
}

/// The position of the `]` that closes the `[` at `open`.
pub open spec fn closer(s: Seq<char>, open: int) -> int {
    choose|close: int| is_pair(s, open, close)
}

/// The position of the `[` that the `]` at `close` closes.
pub open spec fn opener(s: Seq<char>, close: int) -> int {
    choose|open: int| is_pair(s, open, close)
}

/// `a` is an initial part of `b`.
pub open spec fn starts(a: Seq<char>, b: Seq<char>) -> bool {
    a.len() <= b.len() && forall|i: int| 0 <= i < a.len() ==> a[i] == b[i]
}

/// Appending a character to a text appends it to the symbols exactly when it
/// is one.
pub proof fn lemma_symbols_push(source: Seq<char>, c: char)
    ensures
        symbols(source.push(c)) == if is_symbol(c) {
            symbols(source).push(c)
        } else {
            symbols(source)
        },
{
    reveal(Seq::filter);
    assert(source.push(c).drop_last() =~= source);
}

/// The symbols of a text in two parts are those of the first part followed
/// by those of the second.
pub proof fn lemma_symbols_concat(a: Seq<char>, b: Seq<char>)
    ensures
        symbols(a + b) == symbols(a) + symbols(b),
{
    Seq::filter_distributes_over_add(a, b, |c: char| is_symbol(c));
}

/// The symbols of an initial part of a text begin the symbols of the text.
pub proof fn lemma_symbols_of_prefix(source: Seq<char>, k: int)
    requires
        0 <= k <= source.len(),
    ensures
        starts(symbols(source.take(k)), symbols(source)),
{
    assert(source =~= source.take(k) + source.skip(k));
    lemma_symbols_concat(source.take(k), source.skip(k));
}

/// The depth after `n` symbols depends on those `n` symbols only.
pub proof fn lemma_depth_local(a: Seq<char>, b: Seq<char>, n: int)
    requires
        0 <= n <= a.len(),
        n <= b.len(),
        forall|i: int| 0 <= i < n ==> a[i] == b[i],
    ensures
        depth(a, n) == depth(b, n),
    decreases n,
{
    if n > 0 {
        lemma_depth_local(a, b, n - 1);
    }
}

/// A pair of brackets stays a pair when the text goes on.
pub proof fn lemma_pair_extends(a: Seq<char>, b: Seq<char>, open: int, close: int)
    requires
        starts(a, b),
        is_pair(a, open, close),
    ensures
        is_pair(b, open, close),
{
    lemma_depth_local(a, b, open);
    lemma_depth_local(a, b, close + 1);
    assert forall|k: int| open < k <= close implies #[trigger] depth(b, k) > depth(b, open) by {
        lemma_depth_local(a, b, k);
    }
}

/// A `[` is closed by one `]` only, and a `]` closes one `[` only.
pub proof fn lemma_pair_unique(s: Seq<char>, open1: int, close1: int, open2: int, close2: int)
    requires
        is_pair(s, open1, close1),
        is_pair(s, open2, close2),
    ensures
        open1 == open2 <==> close1 == close2,
{
    if open1 == open2 {
        if close1 < close2 {
            assert(depth(s, close1 + 1) > depth(s, open2));
        } else if close2 < close1 {
            assert(depth(s, close2 + 1) > depth(s, open1));
        }
    }
    if close1 == close2 {
        if open1 < open2 {
            assert(depth(s, open2) > depth(s, open1));
            assert(depth(s, open2 + 1) > depth(s, open1));
        } else if open2 < open1 {
            assert(depth(s, open1) > depth(s, open2));
            assert(depth(s, open1 + 1) > depth(s, open2));
        }
    }
}

/// Whoever knows one partner of a bracket knows `closer` and `opener` of the
/// pair.
pub proof fn lemma_pair_names(s: Seq<char>, open: int, close: int)
    requires
        is_pair(s, open, close),
    ensures
        closer(s, open) == close,
        opener(s, close) == open,
{
    lemma_pair_unique(s, open, close, open, closer(s, open));
    lemma_pair_unique(s, open, close, opener(s, close), close);
}

/// Looks for the `]` that closes the `[` at `open`, knowing that it is not
/// before `from`.
proof fn lemma_find_closer(s: Seq<char>, open: int, from: int) -> (close: int)
    requires
        0 <= open < from <= s.len(),
        s[open] == '[',
        depth(s, s.len() as int) <= depth(s, open),
        forall|k: int| open < k <= from ==> #[trigger] depth(s, k) > depth(s, open),
    ensures
        is_pair(s, open, close),
    decreases s.len() - from,
{
    assert(depth(s, from) > depth(s, open));
    assert(depth(s, from + 1) == depth(s, from) + bracket_step(s[from]));
    if depth(s, from + 1) > depth(s, open) {
        lemma_find_closer(s, open, from + 1)
    } else {
        from
    }
}

/// Looks for the `[` that the `]` at `close` closes, knowing that it is
/// before `until`.
proof fn lemma_find_opener(s: Seq<char>, until: int, close: int) -> (open: int)
    requires
        0 < until <= close < s.len(),
        s[close] == ']',
        depth(s, close + 1) >= 0,
        forall|k: int| until <= k <= close ==> #[trigger] depth(s, k) > depth(s, close + 1),
    ensures
        is_pair(s, open, close),
    decreases until,
{
    assert(depth(s, until) > depth(s, close + 1));
    assert(depth(s, until) == depth(s, until - 1) + bracket_step(s[until - 1]));
    assert(depth(s, 0) == 0);
    if depth(s, until - 1) > depth(s, close + 1) {
        lemma_find_opener(s, until - 1, close)
    } else {
        until - 1
    }
}

/// In a text whose brackets pair up, every `[` has the `]` that closes it.
pub proof fn lemma_closer_exists(s: Seq<char>, open: int)
    requires
        balanced(s),
        0 <= open < s.len(),
        s[open] == '[',
    ensures
        is_pair(s, open, closer(s, open)),
{
    assert(depth(s, open) >= 0);
    assert(depth(s, open + 1) > depth(s, open));
    let close = lemma_find_closer(s, open, open + 1);
}

/// In a text whose brackets pair up, every `]` has the `[` that it closes.
pub proof fn lemma_opener_exists(s: Seq<char>, close: int)
    requires
        balanced(s),
        0 <= close < s.len(),
        s[close] == ']',
    ensures
        is_pair(s, opener(s, close), close),
{
    assert(depth(s, close + 1) >= 0);
    assert(depth(s, close) > depth(s, close + 1));
    let open = lemma_find_opener(s, close, close);
}

} // verus!
