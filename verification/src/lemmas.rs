//! What holds of every table of a zone: how the offset in force moves with
//! the instant, and what a local time resolves to around a transition.

use vstd::prelude::*;
use crate::binary_search::index_at;
use crate::binary_search::lemma_index_at_constant_between_transitions;
use crate::binary_search::lemma_index_at_is_last_started;
use crate::binary_search::lemma_last_started_is_index_at;
use crate::interface::OffsetResult;
use crate::interface::MAX_UTC_OFFSET_SECONDS;
use crate::timezone_impl::is_table;
use crate::timezone_impl::nearest_transition;
use crate::timezone_impl::offset_in_force;
use crate::timezone_impl::resolve_local;
use crate::timezone_impl::shows_local;
use crate::timezone_impl::TransitionEntry;

verus! {

/// Two instants with no transition after the first and up to the second have
/// the same offset in force.
pub proof fn lemma_offset_constant_between_transitions(
    table: Seq<TransitionEntry>,
    earlier: int,
    later: int,
)
    requires
        is_table(table),
        earlier < later,
        forall|i: int|
            1 <= i < table.len() ==> !(earlier < #[trigger] table[i].starts_at_utc <= later),
    ensures
        offset_in_force(table, earlier) == offset_in_force(table, later),
{
    lemma_index_at_constant_between_transitions(table, earlier, later);
}

/// The nearest transition is the start of an entry that has one before it,
/// and the entry in force at the local time read as UTC lies on one side of it.
pub proof fn lemma_nearest_transition_is_beside_guess(table: Seq<TransitionEntry>, local: int)
    requires
        is_table(table),
        table.len() >= 2,
    ensures
        1 <= nearest_transition(table, local) < table.len(),
        nearest_transition(table, local) == index_at(table, local) || nearest_transition(
            table,
            local,
        ) == index_at(table, local) + 1,
{
    lemma_index_at_is_last_started(table, local);
}

/// Where a local time resolves to one offset, that offset is in force at the
/// instant which the local time stands for under it.
pub proof fn lemma_single_round_trip(table: Seq<TransitionEntry>, local: int)
    requires
        is_table(table),
        resolve_local(table, local) is Single,
    ensures
        ({
            let offset = resolve_local(table, local)->Single_0;
            offset_in_force(table, local - offset.seconds()) == offset
        }),
{
    if table.len() < 2 {
        lemma_index_at_is_last_started(table, local - table[0].offset.seconds());
    }
}

/// Where a local time resolves to two offsets, each is in force at the
/// instant which the local time stands for under it, the first instant lies
/// before the second, and so the first offset is the greater: the two differ.
pub proof fn lemma_ambiguous_round_trip(table: Seq<TransitionEntry>, local: int)
    requires
        is_table(table),
        resolve_local(table, local) is Ambiguous,
    ensures
        ({
            let first = resolve_local(table, local)->Ambiguous_0;
            let second = resolve_local(table, local)->Ambiguous_1;
            &&& offset_in_force(table, local - first.seconds()) == first
            &&& offset_in_force(table, local - second.seconds()) == second
            &&& local - first.seconds() < local - second.seconds()
            &&& first.seconds() > second.seconds()
        }),
{
    lemma_nearest_transition_is_beside_guess(table, local);
    let k = nearest_transition(table, local);
    lemma_index_at_is_last_started(table, local - table[k - 1].offset.seconds());
    lemma_index_at_is_last_started(table, local - table[k].offset.seconds());
}

/// Where the clocks go forward at a transition, the local times that they
/// skip resolve to a gap: those from the transition's instant under the
/// offset before it up to, but not with, that instant under the offset after
/// it. This is said of the local times to which no other transition is nearer.
pub proof fn lemma_gap_at_forward_transition(table: Seq<TransitionEntry>, k: int, local: int)
    requires
        is_table(table),
        1 <= k < table.len(),
        table[k - 1].offset.seconds() < table[k].offset.seconds(),
        table[k].starts_at_utc + table[k - 1].offset.seconds() <= local < table[k].starts_at_utc
            + table[k].offset.seconds(),
        nearest_transition(table, local) == k,
    ensures
        resolve_local(table, local) is Gap,
{
    lemma_index_at_is_last_started(table, local - table[k - 1].offset.seconds());
    lemma_index_at_is_last_started(table, local - table[k].offset.seconds());
}

/// Where the clocks go back at a transition, the local times that they show
/// twice resolve to both offsets, the one before the transition first: those
/// from the transition's instant under the offset after it up to, but not
/// with, that instant under the offset before it. This is said of the local
/// times to which no other transition is nearer, where the entry before the
/// transition has started by the first reading and the entry after it has
/// not ended by the second.
pub proof fn lemma_ambiguous_at_backward_transition(
    table: Seq<TransitionEntry>,
    k: int,
    local: int,
)
    requires
        is_table(table),
        1 <= k < table.len(),
        table[k - 1].offset.seconds() > table[k].offset.seconds(),
        table[k].starts_at_utc + table[k].offset.seconds() <= local < table[k].starts_at_utc
            + table[k - 1].offset.seconds(),
        nearest_transition(table, local) == k,
        k == 1 || table[k - 1].starts_at_utc <= local - table[k - 1].offset.seconds(),
        k == table.len() - 1 || local - table[k].offset.seconds() < table[k + 1].starts_at_utc,
    ensures
        resolve_local(table, local) == OffsetResult::Ambiguous(table[k - 1].offset, table[k].offset),
        table[k - 1].offset.seconds() > table[k].offset.seconds(),
{
    lemma_last_started_is_index_at(table, local - table[k - 1].offset.seconds(), k - 1);
    lemma_last_started_is_index_at(table, local - table[k].offset.seconds(), k);
}

/// Whether the transitions of `table` lie so far apart that no local time is
/// within reach of two of them: more than twice the largest offset.
pub open spec fn well_spaced(table: Seq<TransitionEntry>) -> bool {
    forall|i: int|
        1 <= i < table.len() - 1 ==> #[trigger] table[i + 1].starts_at_utc - table[i].starts_at_utc
            > 2 * MAX_UTC_OFFSET_SECONDS
}

/// In a well spaced table a transition is the nearest one to every local
/// time within the largest offset of it.
pub proof fn lemma_nearest_transition_when_well_spaced(
    table: Seq<TransitionEntry>,
    k: int,
    local: int,
)
    requires
        is_table(table),
        well_spaced(table),
        1 <= k < table.len(),
        table[k].starts_at_utc - MAX_UTC_OFFSET_SECONDS <= local <= table[k].starts_at_utc
            + MAX_UTC_OFFSET_SECONDS,
    ensures
        nearest_transition(table, local) == k,
{
    if local >= table[k].starts_at_utc {
        if k + 1 < table.len() {
            assert(table[k + 1].starts_at_utc - table[k].starts_at_utc > 2
                * MAX_UTC_OFFSET_SECONDS);
        }
        lemma_last_started_is_index_at(table, local, k);
    } else {
        if k - 1 >= 1 {
            assert(table[k - 1 + 1].starts_at_utc - table[k - 1].starts_at_utc > 2
                * MAX_UTC_OFFSET_SECONDS);
        }
        lemma_last_started_is_index_at(table, local, k - 1);
    }
}

/// In a well spaced table only the two entries beside the nearest transition
/// can have shown a local time. So there a gap is a local time that no entry
/// of the table can have shown, and a single offset is that of the only entry
/// that can.
pub proof fn lemma_only_neighbours_show_local(table: Seq<TransitionEntry>, local: int, i: int)
    requires
        is_table(table),
        well_spaced(table),
        table.len() >= 2,
        0 <= i < table.len(),
        shows_local(table, i, local),
    ensures
        i == nearest_transition(table, local) - 1 || i == nearest_transition(table, local),
{
    let guess = index_at(table, local);
    let instant = local - table[i].offset.seconds();
    lemma_index_at_is_last_started(table, local);
    lemma_index_at_is_last_started(table, instant);
    if i + 1 < guess {
        assert(table[i + 1 + 1].starts_at_utc - table[i + 1].starts_at_utc > 2
            * MAX_UTC_OFFSET_SECONDS);
        assert(table[i + 2].starts_at_utc <= table[guess].starts_at_utc);
    } else if i > guess + 1 {
        assert(table[i - 1 + 1].starts_at_utc - table[i - 1].starts_at_utc > 2
            * MAX_UTC_OFFSET_SECONDS);
        assert(table[guess + 1].starts_at_utc <= table[i - 1].starts_at_utc);
    } else if i == guess + 1 {
        if guess >= 1 {
            assert(table[guess + 1].starts_at_utc - table[guess].starts_at_utc > 2
                * MAX_UTC_OFFSET_SECONDS);
        }
    } else if i == guess - 1 {
        if guess + 1 < table.len() {
            assert(table[guess + 1].starts_at_utc - table[guess].starts_at_utc > 2
                * MAX_UTC_OFFSET_SECONDS);
        }
    }
}

/// In a well spaced table a local time resolves to what the whole table says
/// of it: to a gap where no entry can have shown it, to one offset where one
/// entry can, and to two where two can, which then lie side by side.
pub proof fn lemma_resolution_is_complete(table: Seq<TransitionEntry>, local: int)
    requires
        is_table(table),
        well_spaced(table),
    ensures
        match resolve_local(table, local) {
            OffsetResult::Gap => forall|i: int|
                0 <= i < table.len() ==> !shows_local(table, i, local),
            OffsetResult::Single(offset) => exists|i: int|
                {
                    &&& 0 <= i < table.len()
                    &&& #[trigger] table[i].offset == offset
                    &&& forall|j: int|
                        0 <= j < table.len() ==> (shows_local(table, j, local) <==> j == i)
                },
            OffsetResult::Ambiguous(first, second) => exists|i: int|
                {
                    &&& 1 <= i < table.len()
                    &&& table[i - 1].offset == first
                    &&& #[trigger] table[i].offset == second
                    &&& forall|j: int|
                        0 <= j < table.len() ==> (shows_local(table, j, local) <==> j == i - 1 || j
                            == i)
                },
        },
{
    if table.len() < 2 {
        lemma_index_at_is_last_started(table, local - table[0].offset.seconds());
        assert(table[0].offset == resolve_local(table, local)->Single_0);
    } else {
        lemma_nearest_transition_is_beside_guess(table, local);
        let k = nearest_transition(table, local);
        assert forall|j: int| 0 <= j < table.len() && shows_local(table, j, local) implies j == k
            - 1 || j == k by {
            lemma_only_neighbours_show_local(table, local, j);
        }
        let before = shows_local(table, k - 1, local);
        let after = shows_local(table, k, local);
        if before && after {
            assert(table[k].offset == resolve_local(table, local)->Ambiguous_1);
        } else if before {
            assert(table[k - 1].offset == resolve_local(table, local)->Single_0);
        } else if after {
            assert(table[k].offset == resolve_local(table, local)->Single_0);
        }
    }
}

} // verus!
