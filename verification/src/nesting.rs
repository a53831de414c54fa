//! How loop brackets nest: the depth of a token sequence, where a block
//! ends, and what it means for a program to be balanced.

use vstd::prelude::*;
use crate::runs::{lemma_net_concat, net};

verus! {

/// Whether a character is one of the two loop brackets.
pub open spec fn is_bracket(c: char) -> bool {
    c == '[' || c == ']'
}

/// The loops that `s` opens less the loops that it closes.
pub open spec fn depth(s: Seq<char>) -> int {
    net(s, '[', ']')
}

/// Whether `s` closes a loop that it has not opened: some prefix of it
/// closes more loops than it opens.
pub open spec fn stray_close(s: Seq<char>) -> bool {
    exists|k: int| 0 <= k <= s.len() && depth(#[trigger] s.take(k)) < 0
}

/// Whether every loop-close of `s` answers an earlier loop-open and every
/// loop-open is answered.
pub open spec fn balanced(s: Seq<char>) -> bool {
    !stray_close(s) && depth(s) == 0
}

/// Where a block ends when `s` is what is left of it and `open` of its
/// loops are open: the index of the first loop-close that finds none of
/// them open, or the length of `s` where there is no such loop-close.
pub open spec fn close_at(s: Seq<char>, open: nat) -> nat
    decreases s.len(),
{
    if s.len() == 0 {
        0
    } else if s[0] == ']' && open == 0 {
        0
    } else {
        1 + close_at(s.skip(1), open_after(s[0], open))
    }
}

/// The number of open loops after a character that does not end the
/// block.
pub open spec fn open_after(c: char, open: nat) -> nat {
    if c == '[' {
        open + 1
    } else if c == ']' {
        (open - 1) as nat
    } else {
        open
    }
}

/// Where the block that `s` starts with ends: the index of the loop-close
/// that ends it, or the length of `s` where nothing ends it.
pub open spec fn block_end(s: Seq<char>) -> nat {
    close_at(s, 0)
}

/// Whether the block that `s` starts with runs to the end of `s` with a
/// loop still open.
pub open spec fn leaves_loop_open(s: Seq<char>) -> bool {
    block_end(s) == s.len() && depth(s) > 0
}

/// The depth of the first `i + n` tokens is the depth of the first `i`
/// and that of the `n` after them.
pub proof fn lemma_depth_split(t: Seq<char>, i: int, n: int)
    requires
        0 <= i,
        0 <= n,
        i + n <= t.len(),
    ensures
        depth(t.take(i + n)) == depth(t.take(i)) + depth(t.skip(i).take(n)),
{
    assert(t.take(i + n) =~= t.take(i) + t.skip(i).take(n));
    lemma_net_concat(t.take(i), t.skip(i).take(n), '[', ']');
}

/// What `close_at` finds. Up to the index it gives, no prefix closes more
/// loops than it opens beyond the `open` ones; and where the index lies
/// within `s`, a loop-close stands there and finds exactly those closed.
pub proof fn lemma_close_at(s: Seq<char>, open: nat)
    ensures
        close_at(s, open) <= s.len(),
        forall|k: int| 0 <= k <= close_at(s, open) ==> open + depth(#[trigger] s.take(k)) >= 0,
        close_at(s, open) < s.len() ==> s[close_at(s, open) as int] == ']' && open + depth(
            s.take(close_at(s, open) as int),
        ) == 0,
    decreases s.len(),
{
    let end = close_at(s, open);
    assert(s.take(0) =~= Seq::<char>::empty());
    if s.len() == 0 || (s[0] == ']' && open == 0) {
    } else {
        let rest = s.skip(1);
        let later = open_after(s[0], open);
        lemma_close_at(rest, later);
        assert forall|k: int| 0 <= k <= end implies open + depth(#[trigger] s.take(k)) >= 0 by {
            if k > 0 {
                assert(s.take(k).skip(1) =~= rest.take(k - 1));
            }
        }
        if end < s.len() {
            assert(s.take(end as int).skip(1) =~= rest.take(end - 1));
            assert(s[end as int] == rest[end - 1]);
        }
    }
}

/// With more loops open, a block ends no earlier.
pub proof fn lemma_close_at_monotone(s: Seq<char>, fewer: nat, more: nat)
    requires
        fewer <= more,
    ensures
        close_at(s, fewer) <= close_at(s, more),
    decreases s.len(),
{
    if s.len() == 0 || (s[0] == ']' && fewer == 0) {
    } else {
        lemma_close_at_monotone(s.skip(1), open_after(s[0], fewer), open_after(s[0], more));
    }
}

/// With `extra + 1` more loops open, the first of them is closed where the
/// block would have ended, and the search goes on behind it with `extra`.
pub proof fn lemma_close_at_split(s: Seq<char>, open: nat, extra: nat)
    requires
        close_at(s, open) < s.len(),
    ensures
        close_at(s, open + extra + 1) == close_at(s, open) + 1 + close_at(
            s.skip(close_at(s, open) as int + 1),
            extra,
        ),
    decreases s.len(),
{
    if s[0] == ']' && open == 0 {
    } else {
        let rest = s.skip(1);
        let later = open_after(s[0], open);
        lemma_close_at_split(rest, later, extra);
        assert(open_after(s[0], open + extra + 1) == later + extra + 1);
        assert(rest.skip(close_at(rest, later) as int + 1) =~= s.skip(close_at(s, open) as int + 1));
    }
}

/// Tokens that are no brackets neither end a block nor change the depth.
pub proof fn lemma_close_at_plain(s: Seq<char>, n: int, open: nat)
    requires
        0 <= n <= s.len(),
        forall|j: int| 0 <= j < n ==> !is_bracket(#[trigger] s[j]),
    ensures
        close_at(s, open) == n + close_at(s.skip(n), open),
        depth(s.take(n)) == 0,
    decreases n,
{
    if n == 0 {
        assert(s.skip(0) =~= s);
        assert(s.take(0) =~= Seq::<char>::empty());
    } else {
        let rest = s.skip(1);
        assert(!is_bracket(s[0]));
        assert forall|j: int| 0 <= j < n - 1 implies !is_bracket(#[trigger] rest[j]) by {
            assert(rest[j] == s[j + 1]);
        }
        lemma_close_at_plain(rest, n - 1, open);
        assert(rest.skip(n - 1) =~= s.skip(n));
        assert(s.take(n).skip(1) =~= rest.take(n - 1));
    }
}

/// A block runs to the end of `s` exactly when `s` has no stray
/// loop-close.
pub proof fn lemma_block_end_meaning(s: Seq<char>)
    ensures
        block_end(s) <= s.len(),
        block_end(s) == s.len() <==> !stray_close(s),
        !stray_close(s) ==> depth(s) >= 0,
{
    lemma_close_at(s, 0);
    let end = block_end(s);
    if end < s.len() {
        lemma_depth_split(s, end as int, 1);
        let one = s.skip(end as int).take(1);
        assert(one.skip(1) =~= Seq::<char>::empty());
        assert(depth(one.skip(1)) == 0);
        assert(one[0] == ']');
        assert(depth(one) == -1);
        assert(depth(s.take(end as int + 1)) < 0);
    }
    if !stray_close(s) {
        assert(s.take(s.len() as int) =~= s);
        assert(depth(s.take(s.len() as int)) >= 0);
    }
}

} // verus!
