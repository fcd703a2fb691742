//! The search over a zone's table of transitions.

use vstd::prelude::*;
use crate::timezone_impl::TransitionEntry;

verus! {

/// Whether no entry of `table` starts before an entry that precedes it.
pub open spec fn ascending(table: Seq<TransitionEntry>) -> bool {
    forall|i: int, j: int|
        0 <= i < j < table.len() ==> table[i].starts_at_utc <= table[j].starts_at_utc
}

/// The index of the entry of `table` in force at `instant`: the last entry
/// that starts at or before `instant`. The first entry is in force from the
/// beginning of time, so it is the answer where no entry has started yet.
pub open spec fn index_at(table: Seq<TransitionEntry>, instant: int) -> int
    decreases table.len(),
{
    if table.len() <= 1 {
        0
    } else if table.last().starts_at_utc <= instant {
        table.len() - 1
    } else {
        index_at(table.drop_last(), instant)
    }
}

/// `index_at` names an entry of the table; that entry has started, unless it
/// is the first; and no later entry has.
pub proof fn lemma_index_at_is_last_started(table: Seq<TransitionEntry>, instant: int)
    requires
        table.len() > 0,
    ensures
        0 <= index_at(table, instant) < table.len(),
        index_at(table, instant) == 0 || table[index_at(table, instant)].starts_at_utc <= instant,
        forall|j: int|
            index_at(table, instant) < j < table.len() ==> instant < table[j].starts_at_utc,
    decreases table.len(),
{
    if table.len() > 1 && table.last().starts_at_utc > instant {
        let shorter = table.drop_last();
        lemma_index_at_is_last_started(shorter, instant);
        assert forall|j: int| index_at(table, instant) < j < table.len() implies instant
            < table[j].starts_at_utc by {
            if j < shorter.len() {
                assert(shorter[j] == table[j]);
            }
        }
    }
}

/// The only index with the three properties above is `index_at`.
pub proof fn lemma_last_started_is_index_at(table: Seq<TransitionEntry>, instant: int, i: int)
    requires
        0 <= i < table.len(),
        i == 0 || table[i].starts_at_utc <= instant,
        forall|j: int| i < j < table.len() ==> instant < table[j].starts_at_utc,
    ensures
        index_at(table, instant) == i,
    decreases table.len(),
{
    if table.len() > 1 && table.last().starts_at_utc > instant {
        let shorter = table.drop_last();
        assert(i < shorter.len());
        assert(shorter[i] == table[i]);
        assert forall|j: int| i < j < shorter.len() implies instant
            < shorter[j].starts_at_utc by {
            assert(shorter[j] == table[j]);
        }
        lemma_last_started_is_index_at(shorter, instant, i);
    }
}

/// The index in force never moves back as the instant moves forward.
pub proof fn lemma_index_at_monotonic(table: Seq<TransitionEntry>, earlier: int, later: int)
    requires
        table.len() > 0,
        ascending(table),
        earlier <= later,
    ensures
        index_at(table, earlier) <= index_at(table, later),
{
    lemma_index_at_is_last_started(table, earlier);
    lemma_index_at_is_last_started(table, later);
}

/// Two instants with no transition after the first and up to the second have
/// the same index in force.
pub proof fn lemma_index_at_constant_between_transitions(
    table: Seq<TransitionEntry>,
    earlier: int,
    later: int,
)
    requires
        table.len() > 0,
        earlier <= later,
        forall|i: int|
            1 <= i < table.len() ==> !(earlier < #[trigger] table[i].starts_at_utc <= later),
    ensures
        index_at(table, earlier) == index_at(table, later),
{
    lemma_index_at_is_last_started(table, later);
    let i = index_at(table, later);
    assert forall|j: int| i < j < table.len() implies earlier < table[j].starts_at_utc by {}
    lemma_last_started_is_index_at(table, earlier, i);
}

/// Finds the entry of `table` in force at `instant` by bisection. Of several
/// entries that start at the same instant the last one is in force.
pub fn find(table: &[TransitionEntry], instant: i64) -> (index: usize)
    requires
        table@.len() > 0,
        ascending(table@),
    ensures
        index == index_at(table@, instant as int),
        index < table@.len(),
{
    let mut low: usize = 0;
    let mut high: usize = table.len() - 1;
    while low < high
        invariant
            low <= high < table@.len(),
            ascending(table@),
            low == 0 || table@[low as int].starts_at_utc <= instant,
            forall|j: int| high < j < table@.len() ==> instant < table@[j].starts_at_utc,
        decreases high - low,
    {
        let middle: usize = high - (high - low) / 2;
        if table[middle].starts_at_utc <= instant {
            low = middle;
        } else {
            high = middle - 1;
        }
    }
    proof {
        lemma_last_started_is_index_at(table@, instant as int, low as int);
    }
    low
}

} // verus!
