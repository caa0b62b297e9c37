//! Ranking counted names: the most frequent first.

use crate::run::{lemma_run_len_bounds, lemma_run_len_is, lemma_run_len_take, run_len};
use crate::tally::{distinct_names, views, CommandCount};
use vstd::prelude::*;

verus! {

/// The entries that were seen at least `count` times.
pub open spec fn at_least(count: nat) -> spec_fn((Seq<char>, nat)) -> bool {
    |e: (Seq<char>, nat)| e.1 >= count
}

/// Where `e` goes in a ranking: behind the leading entries that were seen at
/// least as often as `e`.
pub open spec fn rank_of(ranking: Seq<(Seq<char>, nat)>, e: (Seq<char>, nat)) -> int {
    run_len(ranking, at_least(e.1)) as int
}

/// The ranking with `e` put in its place.
pub open spec fn place(ranking: Seq<(Seq<char>, nat)>, e: (Seq<char>, nat)) -> Seq<
    (Seq<char>, nat),
> {
    ranking.insert(rank_of(ranking, e), e)
}

/// The entries in the order of their counts, the largest first; entries with
/// the same count stay in the order in which they stood.
pub open spec fn ranked(entries: Seq<(Seq<char>, nat)>) -> Seq<(Seq<char>, nat)>
    decreases entries.len(),
{
    if entries.len() == 0 {
        Seq::empty()
    } else {
        place(ranked(entries.drop_last()), entries.last())
    }
}

/// The first `limit` entries of the ranking, or all of it where it has no
/// more.
pub open spec fn top(entries: Seq<(Seq<char>, nat)>, limit: nat) -> Seq<(Seq<char>, nat)> {
    if ranked(entries).len() <= limit {
        ranked(entries)
    } else {
        ranked(entries).take(limit as int)
    }
}

/// The counts never grow along the sequence.
pub open spec fn descending(ranking: Seq<(Seq<char>, nat)>) -> bool {
    forall|i: int, j: int|
        0 <= i < j < ranking.len() ==> (#[trigger] ranking[i]).1 >= (#[trigger] ranking[j]).1
}

/// A ranking holds each entry it was made from, and nothing else.
pub proof fn lemma_ranked_len(entries: Seq<(Seq<char>, nat)>)
    ensures
        ranked(entries).len() == entries.len(),
    decreases entries.len(),
{
    if entries.len() > 0 {
        let before = ranked(entries.drop_last());
        lemma_ranked_len(entries.drop_last());
        lemma_run_len_bounds(before, at_least(entries.last().1));
    }
}

/// Putting an entry in its place keeps a ranking in descending order.
pub proof fn lemma_place_descending(ranking: Seq<(Seq<char>, nat)>, e: (Seq<char>, nat))
    requires
        descending(ranking),
    ensures
        descending(place(ranking, e)),
{
    let p = rank_of(ranking, e);
    let placed = place(ranking, e);
    lemma_run_len_bounds(ranking, at_least(e.1));
    assert forall|i: int, j: int| 0 <= i < j < placed.len() implies (#[trigger] placed[i]).1 >= (
    #[trigger] placed[j]).1 by {
        if j > p {
            assert(placed[j] == ranking[j - 1]);
            assert(ranking[j - 1].1 <= ranking[p].1);
        }
        if i < p {
            assert(placed[i] == ranking[i]);
        } else if i > p {
            assert(placed[i] == ranking[i - 1]);
        }
    }
}

/// A ranking is in descending order of count.
pub proof fn lemma_ranked_descending(entries: Seq<(Seq<char>, nat)>)
    ensures
        descending(ranked(entries)),
    decreases entries.len(),
{
    if entries.len() > 0 {
        lemma_ranked_descending(entries.drop_last());
        lemma_place_descending(ranked(entries.drop_last()), entries.last());
    }
}

/// How the top of a ranking changes with one more entry at the end of the
/// entries: the new entry takes its place among the top ones, the last of
/// which leaves where the limit was reached; or it stays out.
pub proof fn lemma_top_push(entries: Seq<(Seq<char>, nat)>, e: (Seq<char>, nat), limit: nat)
    ensures
        top(entries, limit).len() <= limit,
        0 <= rank_of(top(entries, limit), e) <= top(entries, limit).len(),
        top(entries.push(e), limit) == {
            let t = top(entries, limit);
            if t.len() < limit {
                place(t, e)
            } else if rank_of(t, e) < t.len() {
                place(t.drop_last(), e)
            } else {
                t
            }
        },
{
    let r = ranked(entries);
    let t = top(entries, limit);
    let q = rank_of(r, e);
    assert(entries.push(e).drop_last() =~= entries);
    assert(ranked(entries.push(e)) == r.insert(q, e));
    lemma_run_len_bounds(r, at_least(e.1));
    lemma_run_len_bounds(t, at_least(e.1));
    if r.len() > limit {
        lemma_run_len_take(r, at_least(e.1), limit as int);
        if q < limit {
            lemma_run_len_take(t, at_least(e.1), limit - 1);
            assert(r.insert(q, e).take(limit as int) =~= t.drop_last().insert(q, e));
        } else {
            assert(r.insert(q, e).take(limit as int) =~= t);
        }
    } else if r.len() == limit {
        if q < limit {
            lemma_run_len_take(t, at_least(e.1), limit - 1);
            assert(r.insert(q, e).take(limit as int) =~= t.drop_last().insert(q, e));
        } else {
            assert(r.insert(q, e).take(limit as int) =~= t);
        }
    }
}

/// A ranking holds what it was made from: each entry as often as it stood
/// among the entries.
pub proof fn lemma_ranked_permutation(entries: Seq<(Seq<char>, nat)>)
    ensures
        ranked(entries).to_multiset() == entries.to_multiset(),
    decreases entries.len(),
{
    if entries.len() > 0 {
        let before = entries.drop_last();
        let e = entries.last();
        lemma_ranked_permutation(before);
        lemma_run_len_bounds(ranked(before), at_least(e.1));
        vstd::seq_lib::to_multiset_insert(ranked(before), rank_of(ranked(before), e), e);
        vstd::seq_lib::to_multiset_build(before, e);
        assert(before.push(e) =~= entries);
    } else {
        assert(ranked(entries) =~= entries);
    }
}

/// A ranking of entries with distinct names has distinct names.
pub proof fn lemma_ranked_distinct(entries: Seq<(Seq<char>, nat)>)
    requires
        distinct_names(entries),
    ensures
        distinct_names(ranked(entries)),
    decreases entries.len(),
{
    if entries.len() > 0 {
        let before = entries.drop_last();
        let e = entries.last();
        let r = ranked(before);
        let p = rank_of(r, e);
        assert(distinct_names(before)) by {
            assert forall|i: int, j: int| 0 <= i < j < before.len() implies (#[trigger] before[i]).0
                != (#[trigger] before[j]).0 by {
                assert(before[i] == entries[i] && before[j] == entries[j]);
            }
        }
        lemma_ranked_distinct(before);
        lemma_ranked_permutation(before);
        lemma_run_len_bounds(r, at_least(e.1));
        assert forall|i: int| 0 <= i < r.len() implies (#[trigger] r[i]).0 != e.0 by {
            vstd::seq_lib::to_multiset_contains(r, r[i]);
            vstd::seq_lib::to_multiset_contains(before, r[i]);
            assert(r.contains(r[i]));
            let k = choose|k: int| 0 <= k < before.len() && before[k] == r[i];
            assert(entries[k] == r[i]);
            assert(entries[entries.len() - 1] == e);
        }
        let placed = r.insert(p, e);
        assert forall|i: int, j: int| 0 <= i < j < placed.len() implies (#[trigger] placed[i]).0 != (
        #[trigger] placed[j]).0 by {
            let a = if i < p { i } else { i - 1 };
            let b = if j < p { j } else { j - 1 };
            if i != p {
                assert(placed[i] == r[a]);
            }
            if j != p {
                assert(placed[j] == r[b]);
            }
        }
    }
}

/// The entries that were seen exactly `count` times.
pub open spec fn seen(count: nat) -> spec_fn((Seq<char>, nat)) -> bool {
    |e: (Seq<char>, nat)| e.1 == count
}

/// Where no item satisfies the property, the filter keeps nothing.
proof fn lemma_filter_none<T>(s: Seq<T>, keep: spec_fn(T) -> bool)
    requires
        forall|i: int| 0 <= i < s.len() ==> !keep(#[trigger] s[i]),
    ensures
        s.filter(keep) == Seq::<T>::empty(),
    decreases s.len(),
{
    reveal(Seq::filter);
    if s.len() > 0 {
        lemma_filter_none(s.drop_last(), keep);
    }
}

/// A ranking keeps entries with the same count in the order in which they
/// stood.
pub proof fn lemma_ranked_stable(entries: Seq<(Seq<char>, nat)>, count: nat)
    ensures
        ranked(entries).filter(seen(count)) == entries.filter(seen(count)),
    decreases entries.len(),
{
    reveal(Seq::filter);
    if entries.len() > 0 {
        let before = entries.drop_last();
        let e = entries.last();
        let r = ranked(before);
        let p = rank_of(r, e);
        lemma_ranked_stable(before, count);
        lemma_ranked_descending(before);
        lemma_run_len_bounds(r, at_least(e.1));
        let head = r.take(p);
        let tail = r.skip(p);
        assert(r =~= head + tail);
        assert(ranked(entries) =~= (head + seq![e]) + tail);
        Seq::filter_distributes_over_add(head, tail, seen(count));
        Seq::filter_distributes_over_add(head + seq![e], tail, seen(count));
        Seq::filter_distributes_over_add(head, seq![e], seen(count));
        assert(seq![e].drop_last() =~= Seq::<(Seq<char>, nat)>::empty());
        if e.1 == count {
            assert forall|i: int| 0 <= i < tail.len() implies !seen(count)(#[trigger] tail[i]) by {
                assert(tail[i] == r[p + i]);
                assert(r[p + i].1 <= r[p].1);
            }
            lemma_filter_none(tail, seen(count));
            assert(seq![e].filter(seen(count)) =~= seq![e]);
            assert(ranked(entries).filter(seen(count)) =~= head.filter(seen(count)).push(e));
            assert(r.filter(seen(count)) =~= head.filter(seen(count)));
        } else {
            lemma_filter_none(seq![e], seen(count));
            assert(ranked(entries).filter(seen(count)) =~= r.filter(seen(count)));
        }
    }
}

/// The top of a ranking is its start: as many entries as the limit allows,
/// in descending order of count, and none that was seen less often than one
/// that is left out. Where the entries have distinct names, so has the top.
pub proof fn lemma_top_is_prefix(entries: Seq<(Seq<char>, nat)>, limit: nat)
    ensures
        top(entries, limit).len() == if entries.len() <= limit {
            entries.len()
        } else {
            limit
        },
        top(entries, limit).is_prefix_of(ranked(entries)),
        descending(top(entries, limit)),
        forall|i: int, j: int|
            0 <= i < top(entries, limit).len() <= j < ranked(entries).len() ==> (
            #[trigger] top(entries, limit)[i]).1 >= (#[trigger] ranked(entries)[j]).1,
        distinct_names(entries) ==> distinct_names(top(entries, limit)),
{
    lemma_ranked_len(entries);
    if distinct_names(entries) {
        lemma_ranked_distinct(entries);
        assert forall|i: int, j: int| 0 <= i < j < top(entries, limit).len() implies (
        #[trigger] top(entries, limit)[i]).0 != (#[trigger] top(entries, limit)[j]).0 by {
            assert(top(entries, limit)[i] == ranked(entries)[i]);
            assert(top(entries, limit)[j] == ranked(entries)[j]);
        }
    }
    lemma_ranked_descending(entries);
    let r = ranked(entries);
    let t = top(entries, limit);
    assert forall|i: int, j: int| 0 <= i < t.len() <= j < r.len() implies (#[trigger] t[i]).1 >= (
    #[trigger] r[j]).1 by {
        assert(t[i] == r[i]);
    }
    assert forall|i: int, j: int| 0 <= i < j < t.len() implies (#[trigger] t[i]).1 >= (
    #[trigger] t[j]).1 by {
        assert(t[i] == r[i] && t[j] == r[j]);
    }
}

/// The `limit` most frequent of `entries`, the most frequent first; entries
/// with the same count come in the order in which they stand in `entries`.
pub fn top_counts(entries: &Vec<CommandCount>, limit: usize) -> (out: Vec<CommandCount>)
    ensures
        views(out@) == top(views(entries@), limit as nat),
{
    let mut out: Vec<CommandCount> = Vec::new();
    let mut i: usize = 0;
    assert(views(entries@).take(0) =~= Seq::empty());
    assert(views(out@) =~= Seq::empty());
    while i < entries.len()
        invariant
            i <= entries.len(),
            views(out@) == top(views(entries@).take(i as int), limit as nat),
        decreases entries.len() - i,
    {
        let count = entries[i].count;
        let ghost e = entries@[i as int]@;
        let ghost before = views(out@);
        let mut p: usize = 0;
        while p < out.len() && out[p].count >= count
            invariant
                p <= out.len(),
                forall|k: int| 0 <= k < p ==> at_least(count as nat)(#[trigger] views(out@)[k]),
            decreases out.len() - p,
        {
            p += 1;
        }
        proof {
            lemma_run_len_is(before, at_least(count as nat), p as int);
            lemma_top_push(views(entries@).take(i as int), e, limit as nat);
            assert(views(entries@).take(i as int).push(e) =~= views(entries@).take(i + 1));
        }
        if out.len() < limit || p < out.len() {
            if out.len() >= limit {
                out.pop();
                assert(views(out@) =~= before.drop_last());
                proof {
                    lemma_run_len_take(before, at_least(count as nat), before.len() - 1);
                }
            }
            let ghost cut = views(out@);
            out.insert(p, CommandCount { name: entries[i].name.clone(), count });
            assert(views(out@) =~= cut.insert(p as int, e));
        }
        i += 1;
    }
    assert(views(entries@).take(entries@.len() as int) =~= views(entries@));
    out
}

} // verus!
