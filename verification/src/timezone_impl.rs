//! A time zone given by its table of transitions.

use vstd::prelude::*;
use time::OffsetDateTime;
use crate::binary_search::find;
use crate::binary_search::index_at;
use crate::binary_search::lemma_index_at_is_last_started;
use crate::binary_search::lemma_last_started_is_index_at;
use crate::datetime::unix_timestamp;
use crate::datetime::unix_timestamp_of;
use crate::interface::is_resolution;
use crate::interface::is_utc_offset;
use crate::interface::Offset;
use crate::interface::OffsetResult;
use crate::interface::TimeZone;

verus! {

/// One row of a zone's table: from `starts_at_utc`, in seconds since the Unix
/// epoch, `offset` is in force, until the next row starts.
#[derive(Clone, Copy, Debug, PartialEq, Eq)]
pub struct TransitionEntry {
    pub starts_at_utc: i64,
    pub offset: Offset,
}

/// Whether every entry of `table` starts after all the entries before it.
pub open spec fn strictly_ascending(table: Seq<TransitionEntry>) -> bool {
    forall|i: int, j: int|
        0 <= i < j < table.len() ==> table[i].starts_at_utc < table[j].starts_at_utc
}

/// Whether a `UtcOffset` can hold each offset of `table`.
pub open spec fn offsets_in_range(table: Seq<TransitionEntry>) -> bool {
    forall|i: int| 0 <= i < table.len() ==> is_utc_offset(#[trigger] table[i].offset.seconds() as int)
}

/// Why a sequence of entries is no table of a zone.
#[derive(Clone, Copy, Debug, PartialEq, Eq)]
pub enum TableError {
    /// There is no entry.
    Empty,
    /// An entry starts no later than the one before it.
    Unordered,
    /// An offset lies beyond what a `UtcOffset` can hold.
    OffsetOutOfRange,
}

/// The first reason, in the order of `TableError`, why `table` is no table of
/// a zone, or nothing if it is one.
pub open spec fn table_fault(table: Seq<TransitionEntry>) -> Option<TableError> {
    if table.len() == 0 {
        Some(TableError::Empty)
    } else if !strictly_ascending(table) {
        Some(TableError::Unordered)
    } else if !offsets_in_range(table) {
        Some(TableError::OffsetOutOfRange)
    } else {
        None
    }
}

/// Whether `table` is the table of a zone: it has an entry, each entry starts
/// after the one before it, and a `UtcOffset` can hold every offset. The first
/// entry is in force from the beginning of time, whatever its start says.
pub open spec fn is_table(table: Seq<TransitionEntry>) -> bool {
    table_fault(table) is None
}

/// The offset of `table` in force at the UTC instant `instant`.
pub open spec fn offset_in_force(table: Seq<TransitionEntry>, instant: int) -> Offset {
    table[index_at(table, instant)].offset
}

/// Whether entry `i` of `table` can have shown the wall-clock time `local`:
/// taking its offset off `local` gives an instant at which it is in force.
pub open spec fn shows_local(table: Seq<TransitionEntry>, i: int, local: int) -> bool {
    index_at(table, local - table[i].offset.seconds()) == i
}

/// The index of the entry whose start is the transition nearest to `local`
/// read as a UTC instant: the start or the end of the entry in force then,
/// the start where both are as near. The start of the first entry is no
/// transition.
pub open spec fn nearest_transition(table: Seq<TransitionEntry>, local: int) -> int
    recommends
        table.len() >= 2,
{
    let guess = index_at(table, local);
    if guess == 0 {
        1
    } else if guess == table.len() - 1 {
        guess
    } else if local - table[guess].starts_at_utc <= table[guess + 1].starts_at_utc - local {
        guess
    } else {
        guess + 1
    }
}

/// What the wall-clock time `local` resolves to in `table`. The two entries
/// on either side of the transition nearest to `local` are asked whether they
/// can have shown it: if neither can, `local` lies in a gap; if one can, its
/// offset applies; if both can, the clock showed `local` twice, first under
/// the offset before the transition and then under the one after it. A table
/// without a transition has one offset for every local time.
pub open spec fn resolve_local(table: Seq<TransitionEntry>, local: int) -> OffsetResult<Offset> {
    if table.len() < 2 {
        OffsetResult::Single(table[0].offset)
    } else {
        let k = nearest_transition(table, local);
        let before = shows_local(table, k - 1, local);
        let after = shows_local(table, k, local);
        if before && after {
            OffsetResult::Ambiguous(table[k - 1].offset, table[k].offset)
        } else if before {
            OffsetResult::Single(table[k - 1].offset)
        } else if after {
            OffsetResult::Single(table[k].offset)
        } else {
            OffsetResult::Gap
        }
    }
}

/// A time zone given by its table of transitions.
#[derive(Debug, PartialEq, Eq)]
pub struct Tz {
    name: String,
    table: Vec<TransitionEntry>,
}

impl Tz {
    #[verifier::type_invariant]
    spec fn well_formed(&self) -> bool {
        is_table(self.table@)
    }

    /// The zone's table.
    pub closed spec fn table(&self) -> Seq<TransitionEntry> {
        self.table@
    }

    /// Makes the zone called `name` from its table, or says why `table` is none.
    pub fn new(name: &str, table: Vec<TransitionEntry>) -> (r: Result<Tz, TableError>)
        ensures
            match r {
                Ok(tz) => table_fault(table@) is None && tz.table() == table@ && tz.name_chars()
                    == name@,
                Err(e) => table_fault(table@) == Some(e),
            },
    {
        let n = table.len();
        if n == 0 {
            return Err(TableError::Empty);
        }
        let mut i: usize = 1;
        while i < n
            invariant
                1 <= i <= n,
                n == table@.len(),
                forall|a: int, b: int|
                    0 <= a < b < i ==> table@[a].starts_at_utc < table@[b].starts_at_utc,
            decreases n - i,
        {
            if table[i - 1].starts_at_utc >= table[i].starts_at_utc {
                return Err(TableError::Unordered);
            }
            i += 1;
        }
        let mut j: usize = 0;
        while j < n
            invariant
                j <= n,
                n == table@.len(),
                strictly_ascending(table@),
                forall|a: int| 0 <= a < j ==> is_utc_offset(#[trigger] table@[a].offset.seconds() as int),
            decreases n - j,
        {
            if !table[j].offset.is_utc_offset() {
                assert(!is_utc_offset(table@[j as int].offset.seconds() as int));
                return Err(TableError::OffsetOutOfRange);
            }
            j += 1;
        }
        Ok(Tz { name: name.to_owned(), table })
    }

    /// The entries of the zone's table, in order.
    pub fn transitions(&self) -> (r: &[TransitionEntry])
        ensures
            r@ == self.table(),
            is_table(r@),
    {
        proof {
            use_type_invariant(self);
        }
        self.table.as_slice()
    }

    /// The offset in force at the UTC instant `timestamp` seconds from the
    /// Unix epoch.
    pub fn offset_at_timestamp(&self, timestamp: i64) -> (r: Offset)
        ensures
            r == offset_in_force(self.table(), timestamp as int),
            is_utc_offset(r.seconds() as int),
    {
        proof {
            use_type_invariant(self);
        }
        let index = find(self.table.as_slice(), timestamp);
        self.table[index].offset
    }

    /// Whether entry `i` can have shown the wall-clock time `local`.
    fn shows(&self, i: usize, local: i64) -> (r: bool)
        requires
            i < self.table().len(),
        ensures
            r == shows_local(self.table(), i as int, local as int),
    {
        proof {
            use_type_invariant(self);
        }
        let n = self.table.len();
        let instant: i128 = local as i128 - self.table[i].offset.seconds() as i128;
        let started = i == 0 || self.table[i].starts_at_utc as i128 <= instant;
        let ended = i < n - 1 && self.table[i + 1].starts_at_utc as i128 <= instant;
        proof {
            if started && !ended {
                lemma_last_started_is_index_at(self.table@, instant as int, i as int);
            } else {
                lemma_index_at_is_last_started(self.table@, instant as int);
            }
        }
        started && !ended
    }

    /// What the wall-clock time `local`, in seconds from the Unix epoch as if
    /// it were UTC, resolves to.
    pub fn offsets_for_local_timestamp(&self, local: i64) -> (r: OffsetResult<Offset>)
        ensures
            r == resolve_local(self.table(), local as int),
            is_resolution(r),
    {
        proof {
            use_type_invariant(self);
        }
        let n = self.table.len();
        if n < 2 {
            return OffsetResult::Single(self.table[0].offset);
        }
        let guess = find(self.table.as_slice(), local);
        let k: usize = if guess == 0 {
            1
        } else if guess == n - 1 {
            guess
        } else if local as i128 - self.table[guess].starts_at_utc as i128 <= self.table[guess
            + 1].starts_at_utc as i128 - local as i128 {
            guess
        } else {
            guess + 1
        };
        let before = self.shows(k - 1, local);
        let after = self.shows(k, local);
        proof {
            if before && after {
                lemma_index_at_is_last_started(
                    self.table@,
                    local - self.table@[k - 1].offset.seconds(),
                );
                lemma_index_at_is_last_started(
                    self.table@,
                    local - self.table@[k as int].offset.seconds(),
                );
            }
        }
        if before && after {
            OffsetResult::Ambiguous(self.table[k - 1].offset, self.table[k].offset)
        } else if before {
            OffsetResult::Single(self.table[k - 1].offset)
        } else if after {
            OffsetResult::Single(self.table[k].offset)
        } else {
            OffsetResult::Gap
        }
    }
}

impl Clone for Tz {
    fn clone(&self) -> (r: Tz)
        ensures
            r.table() == self.table(),
            r.name_chars() == self.name_chars(),
    {
        proof {
            use_type_invariant(self);
        }
        let table = self.table.clone();
        assert(table@ =~= self.table@);
        Tz { name: self.name.clone(), table }
    }
}

impl TimeZone for Tz {
    open spec fn offset_at(&self, instant: int) -> Offset {
        offset_in_force(self.table(), instant)
    }

    open spec fn offsets_for_local(&self, local: int) -> OffsetResult<Offset> {
        resolve_local(self.table(), local)
    }

    closed spec fn name_chars(&self) -> Seq<char> {
        self.name@
    }

    fn get_offset_utc(&self, date_time: &OffsetDateTime) -> (r: Offset) {
        self.offset_at_timestamp(unix_timestamp(date_time))
    }

    fn get_offset_local(&self, date_time: &OffsetDateTime) -> (r: OffsetResult<Offset>) {
        self.offsets_for_local_timestamp(unix_timestamp(date_time))
    }

    fn name(&self) -> (r: &str) {
        self.name.as_str()
    }
}

} // verus!
