//! Counting how often each command name occurs.

use crate::run::{lemma_run_len_bounds, lemma_run_len_is, run_len};
use vstd::prelude::*;
use vstd::string::StringExecFns;

verus! {

/// A command name with the number of times it was seen.
#[derive(Debug, Clone, PartialEq, Eq)]
pub struct CommandCount {
    pub name: String,
    pub count: usize,
}

impl View for CommandCount {
    type V = (Seq<char>, nat);

    open spec fn view(&self) -> (Seq<char>, nat) {
        (self.name@, self.count as nat)
    }
}

/// The entries whose name is not `name`.
pub open spec fn not_named(name: Seq<char>) -> spec_fn((Seq<char>, nat)) -> bool {
    |e: (Seq<char>, nat)| e.0 != name
}

/// The index of the first entry for `name`, or `entries.len()` where there
/// is none.
pub open spec fn position(entries: Seq<(Seq<char>, nat)>, name: Seq<char>) -> int {
    run_len(entries, not_named(name)) as int
}

/// The count that `entries` holds for `name`: zero where it has no entry.
pub open spec fn count_of(entries: Seq<(Seq<char>, nat)>, name: Seq<char>) -> nat {
    if position(entries, name) < entries.len() {
        entries[position(entries, name)].1
    } else {
        0
    }
}

/// The entries after one more occurrence of `name`: its count grows by one,
/// or it gets a new entry at the end, with count one.
pub open spec fn count_up(entries: Seq<(Seq<char>, nat)>, name: Seq<char>) -> Seq<
    (Seq<char>, nat),
> {
    if position(entries, name) < entries.len() {
        entries.update(position(entries, name), (name, entries[position(entries, name)].1 + 1))
    } else {
        entries.push((name, 1))
    }
}

/// The counts of a sequence of names: one entry for each distinct name, in
/// the order in which the names first occur.
pub open spec fn tally(names: Seq<Seq<char>>) -> Seq<(Seq<char>, nat)>
    decreases names.len(),
{
    if names.len() == 0 {
        Seq::empty()
    } else {
        count_up(tally(names.drop_last()), names.last())
    }
}

/// The sum of the counts of `entries`.
pub open spec fn total(entries: Seq<(Seq<char>, nat)>) -> nat
    decreases entries.len(),
{
    if entries.len() == 0 {
        0
    } else {
        total(entries.drop_last()) + entries.last().1
    }
}

/// No two entries have the same name.
pub open spec fn distinct_names(entries: Seq<(Seq<char>, nat)>) -> bool {
    forall|i: int, j: int|
        0 <= i < j < entries.len() ==> (#[trigger] entries[i]).0 != (#[trigger] entries[j]).0
}

/// Every entry has been seen at least once.
pub open spec fn positive_counts(entries: Seq<(Seq<char>, nat)>) -> bool {
    forall|i: int| 0 <= i < entries.len() ==> (#[trigger] entries[i]).1 >= 1
}

/// What a sequence of counts holds: each name as characters, with its count.
pub open spec fn views(entries: Seq<CommandCount>) -> Seq<(Seq<char>, nat)> {
    entries.map_values(|e: CommandCount| e@)
}

/// No count is larger than the sum of all of them.
pub proof fn lemma_count_le_total(entries: Seq<(Seq<char>, nat)>, i: int)
    requires
        0 <= i < entries.len(),
    ensures
        entries[i].1 <= total(entries),
    decreases entries.len(),
{
    if i < entries.len() - 1 {
        lemma_count_le_total(entries.drop_last(), i);
    }
}

/// Raising one count by one raises the sum by one.
pub proof fn lemma_total_update(entries: Seq<(Seq<char>, nat)>, i: int, name: Seq<char>)
    requires
        0 <= i < entries.len(),
    ensures
        total(entries.update(i, (name, entries[i].1 + 1))) == total(entries) + 1,
    decreases entries.len(),
{
    let raised = entries.update(i, (name, entries[i].1 + 1));
    if i < entries.len() - 1 {
        lemma_total_update(entries.drop_last(), i, name);
        assert(raised.drop_last() =~= entries.drop_last().update(
            i,
            (name, entries.drop_last()[i].1 + 1),
        ));
    } else {
        assert(raised.drop_last() =~= entries.drop_last());
    }
}

/// One more occurrence raises the sum of the counts by one.
pub proof fn lemma_total_count_up(entries: Seq<(Seq<char>, nat)>, name: Seq<char>)
    ensures
        total(count_up(entries, name)) == total(entries) + 1,
{
    lemma_run_len_bounds(entries, not_named(name));
    if position(entries, name) < entries.len() {
        lemma_total_update(entries, position(entries, name), name);
    } else {
        assert(entries.push((name, 1)).drop_last() =~= entries);
    }
}

/// One more occurrence keeps the names distinct and the counts positive.
pub proof fn lemma_count_up_keeps(entries: Seq<(Seq<char>, nat)>, name: Seq<char>)
    requires
        distinct_names(entries),
        positive_counts(entries),
    ensures
        distinct_names(count_up(entries, name)),
        positive_counts(count_up(entries, name)),
{
    lemma_run_len_bounds(entries, not_named(name));
}

/// The counts of a sequence of names add up to its length, so none of them
/// is larger.
pub proof fn lemma_tally_total(names: Seq<Seq<char>>)
    ensures
        total(tally(names)) == names.len(),
        forall|name: Seq<char>| count_of(tally(names), name) <= names.len(),
    decreases names.len(),
{
    if names.len() > 0 {
        lemma_tally_total(names.drop_last());
        lemma_total_count_up(tally(names.drop_last()), names.last());
    }
    assert forall|name: Seq<char>| count_of(tally(names), name) <= names.len() by {
        lemma_run_len_bounds(tally(names), not_named(name));
        if position(tally(names), name) < tally(names).len() {
            lemma_count_le_total(tally(names), position(tally(names), name));
        }
    }
}

/// How many times `name` occurs in `names`.
pub open spec fn occurrences(names: Seq<Seq<char>>, name: Seq<char>) -> nat
    decreases names.len(),
{
    if names.len() == 0 {
        0
    } else if names.last() == name {
        occurrences(names.drop_last(), name) + 1
    } else {
        occurrences(names.drop_last(), name)
    }
}

/// One more occurrence of `name` raises the count of `name` by one and
/// leaves every other count as it was.
pub proof fn lemma_count_up_counts(
    entries: Seq<(Seq<char>, nat)>,
    name: Seq<char>,
    other: Seq<char>,
)
    ensures
        count_of(count_up(entries, name), other) == if other == name {
            count_of(entries, other) + 1
        } else {
            count_of(entries, other)
        },
{
    let after = count_up(entries, name);
    let at = position(entries, other);
    lemma_run_len_bounds(entries, not_named(name));
    lemma_run_len_bounds(entries, not_named(other));
    assert forall|i: int| 0 <= i < at implies not_named(other)(#[trigger] after[i]) by {
        assert(not_named(other)(entries[i]));
    }
    if at < entries.len() {
        lemma_run_len_is(after, not_named(other), at);
    } else if other == name {
        lemma_run_len_is(after, not_named(other), at);
    } else {
        assert(not_named(other)(after[after.len() - 1]));
        assert forall|i: int| 0 <= i < after.len() implies not_named(other)(#[trigger] after[i]) by {
            if i < at {
                assert(not_named(other)(entries[i]));
            }
        }
        lemma_run_len_is(after, not_named(other), after.len() as int);
    }
}

/// A tally counts, for every name, how many times it occurs.
pub proof fn lemma_tally_counts(names: Seq<Seq<char>>, name: Seq<char>)
    ensures
        count_of(tally(names), name) == occurrences(names, name),
    decreases names.len(),
{
    if names.len() > 0 {
        lemma_tally_counts(names.drop_last(), name);
        lemma_count_up_counts(tally(names.drop_last()), names.last(), name);
    }
}

/// A tally has one entry for each name, and none for a name that never
/// occurred.
pub proof fn lemma_tally_wf(names: Seq<Seq<char>>)
    ensures
        distinct_names(tally(names)),
        positive_counts(tally(names)),
    decreases names.len(),
{
    if names.len() > 0 {
        lemma_tally_wf(names.drop_last());
        lemma_count_up_keeps(tally(names.drop_last()), names.last());
    }
}

/// Each entry of a tally holds a name that occurs, with the number of times
/// it occurs.
pub proof fn lemma_tally_entries(names: Seq<Seq<char>>, i: int)
    requires
        0 <= i < tally(names).len(),
    ensures
        tally(names)[i].1 == occurrences(names, tally(names)[i].0),
        tally(names)[i].1 >= 1,
{
    let entries = tally(names);
    lemma_tally_wf(names);
    lemma_tally_counts(names, entries[i].0);
    assert forall|k: int| 0 <= k < i implies not_named(entries[i].0)(#[trigger] entries[k]) by {}
    lemma_run_len_is(entries, not_named(entries[i].0), i);
}

/// A tally is empty only where there were no names.
pub proof fn lemma_tally_len(names: Seq<Seq<char>>)
    ensures
        tally(names).len() <= names.len(),
        names.len() > 0 ==> tally(names).len() > 0,
    decreases names.len(),
{
    if names.len() > 0 {
        lemma_tally_len(names.drop_last());
        lemma_run_len_bounds(tally(names.drop_last()), not_named(names.last()));
    }
}

/// How often each command name was seen, in the order in which the names
/// first came.
pub struct Tally {
    entries: Vec<CommandCount>,
}

impl View for Tally {
    type V = Seq<(Seq<char>, nat)>;

    closed spec fn view(&self) -> Seq<(Seq<char>, nat)> {
        views(self.entries@)
    }
}

impl Tally {
    /// What every tally satisfies: no name has two entries, and no entry has
    /// a count of zero.
    pub open spec fn wf(&self) -> bool {
        distinct_names(self@) && positive_counts(self@)
    }

    /// A tally of nothing.
    pub fn new() -> (t: Tally)
        ensures
            t.wf(),
            t@ == Seq::<(Seq<char>, nat)>::empty(),
    {
        let t = Tally { entries: Vec::new() };
        assert(t@ =~= Seq::<(Seq<char>, nat)>::empty());
        t
    }

    /// Counts one more occurrence of `name`.
    pub fn record(&mut self, name: String)
        requires
            old(self).wf(),
            count_of(old(self)@, name@) < usize::MAX,
        ensures
            final(self).wf(),
            final(self)@ == count_up(old(self)@, name@),
    {
        proof {
            lemma_count_up_keeps(self@, name@);
        }
        let mut i: usize = 0;
        while i < self.entries.len() && !(self.entries[i].name == name)
            invariant
                i <= self.entries.len(),
                forall|k: int| 0 <= k < i ==> not_named(name@)(#[trigger] views(self.entries@)[k]),
            decreases self.entries.len() - i,
        {
            i += 1;
        }
        proof {
            lemma_run_len_is(self@, not_named(name@), i as int);
        }
        if i < self.entries.len() {
            let count = self.entries[i].count;
            self.entries.set(i, CommandCount { name, count: count + 1 });
            assert(self@ =~= count_up(old(self)@, name@));
        } else {
            self.entries.push(CommandCount { name, count: 1 });
            assert(self@ =~= count_up(old(self)@, name@));
        }
    }

    /// How often `name` was counted.
    pub fn count(&self, name: &str) -> (n: usize)
        ensures
            n == count_of(self@, name@),
    {
        let wanted = String::from_str(name);
        let mut i: usize = 0;
        while i < self.entries.len() && !(self.entries[i].name == wanted)
            invariant
                wanted@ == name@,
                i <= self.entries.len(),
                forall|k: int| 0 <= k < i ==> not_named(name@)(#[trigger] views(self.entries@)[k]),
            decreases self.entries.len() - i,
        {
            i += 1;
        }
        proof {
            lemma_run_len_is(self@, not_named(name@), i as int);
        }
        if i < self.entries.len() {
            self.entries[i].count
        } else {
            0
        }
    }

    /// The number of distinct names.
    pub fn len(&self) -> (n: usize)
        ensures
            n == self@.len(),
    {
        self.entries.len()
    }

    /// Whether no name was counted.
    pub fn is_empty(&self) -> (empty: bool)
        ensures
            empty == (self@.len() == 0),
    {
        self.entries.len() == 0
    }

    /// The counts, in the order in which the names first came.
    pub fn entries(&self) -> (entries: &Vec<CommandCount>)
        ensures
            views(entries@) == self@,
    {
        &self.entries
    }
}

} // verus!
