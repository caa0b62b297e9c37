//! Leading runs of a sequence: how far a property holds from the start.

use vstd::prelude::*;

verus! {

/// Length of the longest prefix of `s` whose items all satisfy `keep`.
pub open spec fn run_len<T>(s: Seq<T>, keep: spec_fn(T) -> bool) -> nat
    decreases s.len(),
{
    if s.len() > 0 && keep(s[0]) {
        1 + run_len(s.drop_first(), keep)
    } else {
        0
    }
}

/// A run ends at the first item that fails `keep`, and not before.
pub proof fn lemma_run_len_is<T>(s: Seq<T>, keep: spec_fn(T) -> bool, n: int)
    requires
        0 <= n <= s.len(),
        forall|i: int| 0 <= i < n ==> keep(#[trigger] s[i]),
        n < s.len() ==> !keep(s[n]),
    ensures
        run_len(s, keep) == n,
    decreases n,
{
    if n > 0 {
        let rest = s.drop_first();
        assert forall|i: int| 0 <= i < n - 1 implies keep(#[trigger] rest[i]) by {
            assert(rest[i] == s[i + 1]);
        }
        lemma_run_len_is(rest, keep, n - 1);
    }
}

/// A run stays inside the sequence, holds only items that satisfy `keep`, and
/// is followed by none that does.
pub proof fn lemma_run_len_bounds<T>(s: Seq<T>, keep: spec_fn(T) -> bool)
    ensures
        run_len(s, keep) <= s.len(),
        forall|i: int| 0 <= i < run_len(s, keep) ==> keep(#[trigger] s[i]),
        run_len(s, keep) < s.len() ==> !keep(s[run_len(s, keep) as int]),
    decreases s.len(),
{
    if s.len() > 0 && keep(s[0]) {
        let rest = s.drop_first();
        lemma_run_len_bounds(rest, keep);
        assert forall|i: int| 0 <= i < run_len(s, keep) implies keep(#[trigger] s[i]) by {
            if i > 0 {
                assert(s[i] == rest[i - 1]);
            }
        }
    }
}

/// The run at the start of a prefix is the run of the whole, cut at the
/// prefix's end.
pub proof fn lemma_run_len_take<T>(s: Seq<T>, keep: spec_fn(T) -> bool, n: int)
    requires
        0 <= n <= s.len(),
    ensures
        run_len(s.take(n), keep) == if run_len(s, keep) <= n {
            run_len(s, keep) as int
        } else {
            n
        },
{
    lemma_run_len_bounds(s, keep);
    let r = run_len(s, keep) as int;
    let m = if r <= n {
        r
    } else {
        n
    };
    lemma_run_len_is(s.take(n), keep, m);
}

} // verus!
