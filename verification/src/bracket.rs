//! Jump resolution: which `]` closes a given `[`, and which `[` opens a
//! given `]`.
//!
//! Matching is defined over the nesting balance of a span of instructions and
//! is resolved on demand by a linear scan from the jump instruction.

use vstd::prelude::*;
use crate::token::Token;

verus! {

/// What one instruction adds to the nesting depth: `[` opens a level, `]`
/// closes one, everything else leaves the depth alone.
pub open spec fn weight(t: Token) -> int {
    match t {
        Token::JumpForward => 1,
        Token::JumpBackward => -1,
        _ => 0,
    }
}

/// Openers minus closers among the instructions at positions `lo..hi`.
pub open spec fn balance(code: Seq<Token>, lo: int, hi: int) -> int
    decreases hi - lo,
{
    if hi <= lo {
        0
    } else {
        balance(code, lo, hi - 1) + weight(code[hi - 1])
    }
}

/// The `[` at `open` and the `]` at `close` delimit one loop: the span from
/// `open` through `close` is balanced, and no shorter span starting at `open`
/// is.
pub open spec fn matched(code: Seq<Token>, open: int, close: int) -> bool {
    &&& 0 <= open < close < code.len()
    &&& code[open] == Token::JumpForward
    &&& code[close] == Token::JumpBackward
    &&& balance(code, open, close + 1) == 0
    &&& forall|k: int| open < k <= close ==> #[trigger] balance(code, open, k) > 0
}

/// The position of the `]` that closes the `[` at `open`, if there is one.
pub open spec fn closer_of(code: Seq<Token>, open: int) -> Option<int> {
    if exists|j: int| matched(code, open, j) {
        Some(choose|j: int| matched(code, open, j))
    } else {
        None
    }
}

/// The position of the `[` that opens the `]` at `close`, if there is one.
pub open spec fn opener_of(code: Seq<Token>, close: int) -> Option<int> {
    if exists|i: int| matched(code, i, close) {
        Some(choose|i: int| matched(code, i, close))
    } else {
        None
    }
}

/// A program is balanced when no prefix closes more loops than it has opened
/// and the whole program closes every loop it opens.
pub open spec fn balanced(code: Seq<Token>) -> bool {
    &&& balance(code, 0, code.len() as int) == 0
    &&& forall|k: int| 0 <= k <= code.len() ==> #[trigger] balance(code, 0, k) >= 0
}

/// The balance of a span is the sum of the balances of its two parts.
pub proof fn lemma_balance_split(code: Seq<Token>, lo: int, mid: int, hi: int)
    requires
        lo <= mid <= hi,
    ensures
        balance(code, lo, hi) == balance(code, lo, mid) + balance(code, mid, hi),
    decreases hi - mid,
{
    if mid < hi {
        lemma_balance_split(code, lo, mid, hi - 1);
    }
}

/// The balance of a non-empty span is the weight of its first instruction
/// plus the balance of the rest.
pub proof fn lemma_balance_first(code: Seq<Token>, lo: int, hi: int)
    requires
        lo < hi,
    ensures
        balance(code, lo, hi) == weight(code[lo]) + balance(code, lo + 1, hi),
{
    lemma_balance_split(code, lo, lo + 1, hi);
    assert(balance(code, lo, lo + 1) == balance(code, lo, lo) + weight(code[lo]));
}

/// A `[` has at most one matching `]`.
pub proof fn lemma_closer_unique(code: Seq<Token>, open: int, j1: int, j2: int)
    requires
        matched(code, open, j1),
        matched(code, open, j2),
    ensures
        j1 == j2,
{
    if j1 < j2 {
        assert(balance(code, open, j1 + 1) > 0);
    } else if j2 < j1 {
        assert(balance(code, open, j2 + 1) > 0);
    }
}

/// A `]` has at most one matching `[`.
pub proof fn lemma_opener_unique(code: Seq<Token>, i1: int, i2: int, close: int)
    requires
        matched(code, i1, close),
        matched(code, i2, close),
    ensures
        i1 == i2,
{
    if i1 < i2 {
        assert(balance(code, i1, i2) > 0);
        lemma_balance_split(code, i1, i2, close + 1);
    } else if i2 < i1 {
        assert(balance(code, i2, i1) > 0);
        lemma_balance_split(code, i2, i1, close + 1);
    }
}

/// `closer_of` and `opener_of` name exactly the matched pairs.
pub proof fn lemma_partner_is_match(code: Seq<Token>, open: int, close: int)
    ensures
        closer_of(code, open) == Some(close) <==> matched(code, open, close),
        opener_of(code, close) == Some(open) <==> matched(code, open, close),
{
    if matched(code, open, close) {
        let j = choose|j: int| matched(code, open, j);
        lemma_closer_unique(code, open, j, close);
        let i = choose|i: int| matched(code, i, close);
        lemma_opener_unique(code, i, open, close);
    }
}

/// Resolution is symmetric: the `]` found from a `[` resolves back to that
/// `[`, and the other way round.
pub proof fn lemma_resolution_symmetric(code: Seq<Token>, open: int, close: int)
    ensures
        closer_of(code, open) == Some(close) <==> opener_of(code, close) == Some(open),
{
    lemma_partner_is_match(code, open, close);
}

/// A matched pair sits at one nesting depth: as many loops are open just
/// before the `[` as just after the `]`.
pub proof fn lemma_match_same_depth(code: Seq<Token>, open: int, close: int)
    requires
        matched(code, open, close),
    ensures
        balance(code, 0, open) == balance(code, 0, close + 1),
{
    lemma_balance_split(code, 0, open, close + 1);
}

/// If the balance counted from the `[` at `open` has stayed positive up to
/// `k` and is not positive at the end of the program, it first returns to zero
/// at some `]`.
proof fn lemma_forward_return(code: Seq<Token>, open: int, k: int)
    requires
        0 <= open < k <= code.len(),
        code[open] == Token::JumpForward,
        forall|m: int| open < m <= k ==> #[trigger] balance(code, open, m) > 0,
        balance(code, open, code.len() as int) <= 0,
    ensures
        exists|j: int| matched(code, open, j),
    decreases code.len() - k,
{
    assert(balance(code, open, k) > 0);
    assert(k < code.len());
    if balance(code, open, k + 1) == 0 {
        assert(matched(code, open, k));
    } else {
        lemma_forward_return(code, open, k + 1);
    }
}

/// If the balance counted back from the `]` at `close` has stayed negative
/// down to `k` and is not negative at the start of the program, it first
/// returns to zero at some `[`.
proof fn lemma_backward_return(code: Seq<Token>, close: int, k: int)
    requires
        0 <= k <= close < code.len(),
        code[close] == Token::JumpBackward,
        forall|m: int| k <= m <= close ==> #[trigger] balance(code, m, close + 1) < 0,
        balance(code, 0, close + 1) >= 0,
    ensures
        exists|i: int| matched(code, i, close),
    decreases k,
{
    assert(balance(code, k, close + 1) < 0);
    assert(k > 0);
    lemma_balance_first(code, k - 1, close + 1);
    if balance(code, k - 1, close + 1) == 0 {
        lemma_backward_match(code, k - 1, close);
    } else {
        lemma_backward_return(code, close, k - 1);
    }
}

/// A span that is balanced as a whole and whose proper suffixes all close
/// more than they open is a matched pair.
proof fn lemma_backward_match(code: Seq<Token>, open: int, close: int)
    requires
        0 <= open < close < code.len(),
        balance(code, open, close + 1) == 0,
        forall|m: int| open < m <= close ==> #[trigger] balance(code, m, close + 1) < 0,
    ensures
        matched(code, open, close),
{
    assert forall|k: int| open < k <= close implies #[trigger] balance(code, open, k) > 0 by {
        lemma_balance_split(code, open, k, close + 1);
        assert(balance(code, k, close + 1) < 0);
    }
    assert(balance(code, open, open + 1) > 0);
    assert(balance(code, open, open + 1) == balance(code, open, open) + weight(code[open]));
    assert(balance(code, close, close + 1) < 0);
    assert(balance(code, close, close + 1) == balance(code, close, close) + weight(
        code[close],
    ));
}

/// In a balanced program every `[` resolves: to a `]` further right, to no
/// other, at its own nesting depth, and that `]` resolves back to it.
pub proof fn lemma_balanced_opener_resolves(code: Seq<Token>, open: int)
    requires
        balanced(code),
        0 <= open < code.len(),
        code[open] == Token::JumpForward,
    ensures
        closer_of(code, open) is Some,
        ({
            let close = closer_of(code, open)->0;
            &&& open < close < code.len()
            &&& code[close] == Token::JumpBackward
            &&& matched(code, open, close)
            &&& forall|j: int| matched(code, open, j) ==> j == close
            &&& balance(code, 0, open) == balance(code, 0, close + 1)
            &&& opener_of(code, close) == Some(open)
        }),
{
    lemma_balance_split(code, 0, open, code.len() as int);
    assert(balance(code, 0, open) >= 0);
    assert(balance(code, open, open + 1) == balance(code, open, open) + weight(code[open]));
    assert forall|m: int| open < m <= open + 1 implies #[trigger] balance(code, open, m) > 0 by {
        assert(m == open + 1);
    }
    lemma_forward_return(code, open, open + 1);
    let close = closer_of(code, open)->0;
    assert forall|j: int| matched(code, open, j) implies j == close by {
        lemma_closer_unique(code, open, j, close);
    }
    lemma_match_same_depth(code, open, close);
    lemma_partner_is_match(code, open, close);
}

/// In a balanced program every `]` resolves: to a `[` further left, to no
/// other, at its own nesting depth, and that `[` resolves back to it.
pub proof fn lemma_balanced_closer_resolves(code: Seq<Token>, close: int)
    requires
        balanced(code),
        0 <= close < code.len(),
        code[close] == Token::JumpBackward,
    ensures
        opener_of(code, close) is Some,
        ({
            let open = opener_of(code, close)->0;
            &&& 0 <= open < close
            &&& code[open] == Token::JumpForward
            &&& matched(code, open, close)
            &&& forall|i: int| matched(code, i, close) ==> i == open
            &&& balance(code, 0, open) == balance(code, 0, close + 1)
            &&& closer_of(code, open) == Some(close)
        }),
{
    assert(balance(code, 0, close + 1) >= 0);
    assert(balance(code, close, close + 1) == balance(code, close, close) + weight(
        code[close],
    ));
    assert forall|m: int| close <= m <= close implies #[trigger] balance(code, m, close + 1)
        < 0 by {
        assert(m == close);
    }
    lemma_backward_return(code, close, close);
    let open = opener_of(code, close)->0;
    assert forall|i: int| matched(code, i, close) implies i == open by {
        lemma_opener_unique(code, i, open, close);
    }
    lemma_match_same_depth(code, open, close);
    lemma_partner_is_match(code, open, close);
}

/// Scans right from the `[` at `open` for the `]` that closes it.
///
/// Returns `None` when the program ends before the nesting depth returns to
/// zero, and also when there is no `[` at `open` to begin with.
pub fn find_closer(code: &[Token], open: usize) -> (r: Option<usize>)
    ensures
        match r {
            Some(close) => {
                &&& matched(code@, open as int, close as int)
                &&& closer_of(code@, open as int) == Some(close as int)
            },
            None => {
                &&& forall|j: int| !matched(code@, open as int, j)
                &&& closer_of(code@, open as int) is None
            },
        },
{
    if open >= code.len() || code[open] != Token::JumpForward {
        return None;
    }
    let mut depth: usize = 1;
    let mut pos: usize = open;
    proof {
        assert(balance(code@, open as int, open + 1) == balance(code@, open as int, open as int)
            + weight(code@[open as int]));
    }
    loop
        invariant
            open <= pos < code.len(),
            code[open as int] == Token::JumpForward,
            depth == balance(code@, open as int, pos + 1),
            depth <= pos - open + 1,
            forall|k: int| open < k <= pos + 1 ==> #[trigger] balance(code@, open as int, k) > 0,
        decreases code.len() - pos,
    {
        pos += 1;
        if pos >= code.len() {
            proof {
                assert forall|j: int| !matched(code@, open as int, j) by {
                    if matched(code@, open as int, j) {
                        assert(balance(code@, open as int, j + 1) > 0);
                    }
                }
            }
            return None;
        }
        match code[pos] {
            Token::JumpForward => {
                depth += 1;
            },
            Token::JumpBackward => {
                depth -= 1;
            },
            _ => {},
        }
        if depth == 0 {
            proof {
                assert(matched(code@, open as int, pos as int));
                lemma_partner_is_match(code@, open as int, pos as int);
            }
            return Some(pos);
        }
    }
}

/// Scans left from the `]` at `close` for the `[` that opens it.
///
/// Returns `None` when the program starts before the nesting depth returns
/// to zero, and also when there is no `]` at `close` to begin with.
pub fn find_opener(code: &[Token], close: usize) -> (r: Option<usize>)
    ensures
        match r {
            Some(open) => {
                &&& matched(code@, open as int, close as int)
                &&& opener_of(code@, close as int) == Some(open as int)
            },
            None => {
                &&& forall|i: int| !matched(code@, i, close as int)
                &&& opener_of(code@, close as int) is None
            },
        },
{
    if close >= code.len() || code[close] != Token::JumpBackward {
        return None;
    }
    let mut depth: usize = 1;
    let mut pos: usize = close;
    proof {
        assert(balance(code@, close as int, close + 1) == balance(
            code@,
            close as int,
            close as int,
        ) + weight(code@[close as int]));
    }
    loop
        invariant
            pos <= close < code.len(),
            code[close as int] == Token::JumpBackward,
            depth == -balance(code@, pos as int, close + 1),
            depth <= close - pos + 1,
            forall|k: int| pos <= k <= close ==> #[trigger] balance(code@, k, close + 1) < 0,
        decreases pos,
    {
        if pos == 0 {
            proof {
                assert forall|i: int| !matched(code@, i, close as int) by {
                    if matched(code@, i, close as int) {
                        assert(balance(code@, i, close + 1) < 0);
                    }
                }
            }
            return None;
        }
        pos -= 1;
        proof {
            lemma_balance_first(code@, pos as int, close + 1);
        }
        match code[pos] {
            Token::JumpBackward => {
                depth += 1;
            },
            Token::JumpForward => {
                depth -= 1;
            },
            _ => {},
        }
        if depth == 0 {
            proof {
                lemma_backward_match(code@, pos as int, close as int);
                lemma_partner_is_match(code@, pos as int, close as int);
            }
            return Some(pos);
        }
    }
}

} // verus!
