//! Runs of two complementary instructions, and what a run amounts to.

use vstd::prelude::*;
use crate::ast::Ast;

verus! {

/// What one character counts for between two complementary symbols: one
/// for `plus`, minus one for `minus`, nothing for any other.
pub open spec fn weight(c: char, plus: char, minus: char) -> int {
    if c == plus {
        1
    } else if c == minus {
        -1
    } else {
        0
    }
}

/// The occurrences of `plus` in `s` less the occurrences of `minus`.
pub open spec fn net(s: Seq<char>, plus: char, minus: char) -> int
    decreases s.len(),
{
    if s.len() == 0 {
        0
    } else {
        weight(s[0], plus, minus) + net(s.skip(1), plus, minus)
    }
}

/// The length of the run that `s` starts with: of its longest prefix made
/// of `plus` and `minus` alone.
pub open spec fn run_len(s: Seq<char>, plus: char, minus: char) -> nat
    decreases s.len(),
{
    if s.len() > 0 && (s[0] == plus || s[0] == minus) {
        1 + run_len(s.skip(1), plus, minus)
    } else {
        0
    }
}

/// What the run that `s` starts with amounts to.
pub open spec fn run_net(s: Seq<char>, plus: char, minus: char) -> int {
    net(s.take(run_len(s, plus, minus) as int), plus, minus)
}

/// The net count of a concatenation is the sum of the parts' net counts.
pub proof fn lemma_net_concat(a: Seq<char>, b: Seq<char>, plus: char, minus: char)
    ensures
        net(a + b, plus, minus) == net(a, plus, minus) + net(b, plus, minus),
    decreases a.len(),
{
    if a.len() == 0 {
        assert(a + b =~= b);
    } else {
        assert((a + b).skip(1) =~= a.skip(1) + b);
        lemma_net_concat(a.skip(1), b, plus, minus);
    }
}

/// The net count of the first `k + 1` characters is that of the first `k`
/// and the weight of the next.
pub proof fn lemma_net_step(s: Seq<char>, k: int, plus: char, minus: char)
    requires
        0 <= k < s.len(),
    ensures
        net(s.take(k + 1), plus, minus) == net(s.take(k), plus, minus) + weight(
            s[k],
            plus,
            minus,
        ),
{
    let one = seq![s[k]];
    assert(s.take(k + 1) =~= s.take(k) + one);
    lemma_net_concat(s.take(k), one, plus, minus);
    assert(one.skip(1) =~= Seq::<char>::empty());
    assert(net(one.skip(1), plus, minus) == 0);
    assert(net(one, plus, minus) == weight(s[k], plus, minus));
}

/// A run is as long as the prefix of symbols that it is: it stays within
/// `s`, holds the two symbols alone, and ends where `s` ends or another
/// character stands.
pub proof fn lemma_run_len(s: Seq<char>, plus: char, minus: char)
    ensures
        run_len(s, plus, minus) <= s.len(),
        forall|i: int|
            0 <= i < run_len(s, plus, minus) ==> #[trigger] s[i] == plus || s[i] == minus,
        run_len(s, plus, minus) < s.len() ==> {
            let stop = s[run_len(s, plus, minus) as int];
            stop != plus && stop != minus
        },
    decreases s.len(),
{
    if s.len() > 0 && (s[0] == plus || s[0] == minus) {
        let rest = s.skip(1);
        lemma_run_len(rest, plus, minus);
        assert forall|i: int| 0 <= i < run_len(s, plus, minus) implies #[trigger] s[i] == plus
            || s[i] == minus by {
            if i > 0 {
                assert(s[i] == rest[i - 1]);
            }
        }
        if run_len(s, plus, minus) < s.len() {
            assert(s[run_len(s, plus, minus) as int] == rest[run_len(rest, plus, minus) as int]);
        }
    }
}

/// A prefix of symbols that ends where `s` ends or another character
/// stands is the run of `s`.
pub proof fn lemma_run_is(s: Seq<char>, n: int, plus: char, minus: char)
    requires
        0 <= n <= s.len(),
        forall|i: int| 0 <= i < n ==> #[trigger] s[i] == plus || s[i] == minus,
        n < s.len() ==> s[n] != plus && s[n] != minus,
    ensures
        run_len(s, plus, minus) == n,
    decreases n,
{
    if n > 0 {
        let rest = s.skip(1);
        assert(s[0] == plus || s[0] == minus);
        assert forall|i: int| 0 <= i < n - 1 implies #[trigger] rest[i] == plus || rest[i]
            == minus by {
            assert(rest[i] == s[i + 1]);
        }
        lemma_run_is(rest, n - 1, plus, minus);
    }
}

impl Ast {
    /// Scans the run that `program` starts with. Returns what the run
    /// amounts to, and how many characters were scanned. A slice that starts
    /// with neither symbol has no run: the count is then the whole length,
    /// as it is for a run that reaches the end. The slice must be no longer
    /// than `isize::MAX`, so that the amount fits an `isize`.
    pub fn _runlength(program: &[char], plus: char, minus: char) -> (r: (isize, usize))
        requires
            program@.len() <= isize::MAX,
        ensures
            r.0 == run_net(program@, plus, minus),
            r.1 == if run_len(program@, plus, minus) == 0 {
                program@.len()
            } else {
                run_len(program@, plus, minus)
            },
    {
        let mut total: isize = 0;
        let mut i: usize = 0;
        while i < program.len() && (program[i] == plus || program[i] == minus)
            invariant
                i <= program@.len() <= isize::MAX,
                forall|j: int| 0 <= j < i ==> #[trigger] program@[j] == plus || program@[j] == minus,
                total == net(program@.take(i as int), plus, minus),
                -i <= total <= i,
            decreases program@.len() - i,
        {
            proof {
                lemma_net_step(program@, i as int, plus, minus);
            }
            if program[i] == plus {
                total = total + 1;
            } else {
                total = total - 1;
            }
            i = i + 1;
        }
        proof {
            lemma_run_is(program@, i as int, plus, minus);
        }
        if i == 0 {
            assert(program@.take(0) =~= Seq::<char>::empty());
            (total, program.len())
        } else {
            (total, i)
        }
    }
}

} // verus!
