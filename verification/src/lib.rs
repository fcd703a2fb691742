//! Time zone offsets for the `time` crate: which UTC offset a zone observes at
//! an instant, and which offsets, if any, a local wall-clock time can carry.
//!
//! A zone is a table of transitions (`timezone_impl`), searched by bisection
//! (`binary_search`). A local time near a transition may never have occurred,
//! where the clocks went forward, or have occurred twice, where they went
//! back: `OffsetResult` tells the three cases apart and no function guesses.
//! Zones are found by name in a directory (`timezones`). The traits of this
//! file carry a date-time of the `time` crate into a zone; `datetime` holds
//! what is taken on trust from that crate, and `lemmas` what is proved of
//! every table.

use vstd::prelude::*;
use time::OffsetDateTime;
use time::PrimitiveDateTime;
use crate::datetime::assume_offset;
use crate::datetime::assume_utc;
use crate::datetime::is_local_timestamp;
use crate::datetime::local_nanosecond_of;
use crate::datetime::local_timestamp_of;
use crate::datetime::nanosecond_of;
use crate::datetime::offset_seconds_of;
use crate::datetime::to_offset;
use crate::datetime::unix_timestamp;
use crate::datetime::unix_timestamp_of;
use crate::datetime::MAX_LOCAL_TIMESTAMP;
use crate::datetime::MIN_LOCAL_TIMESTAMP;

pub mod binary_search;
pub mod datetime;
pub mod interface;
pub mod lemmas;
mod sealing;
pub mod text;
pub mod timezone_impl;
pub mod timezones;

pub use interface::Offset;
pub use interface::OffsetResult;
pub use interface::TimeZone;
pub use timezone_impl::TableError;
pub use timezone_impl::TransitionEntry;
pub use timezone_impl::Tz;

verus! {

/// Whether `result` is the instant of `date_time` shown under `offset`.
pub open spec fn is_moved_to(date_time: OffsetDateTime, offset: Offset, result: OffsetDateTime) -> bool {
    &&& unix_timestamp_of(result) == unix_timestamp_of(date_time)
    &&& nanosecond_of(result) == nanosecond_of(date_time)
    &&& offset_seconds_of(result) == offset.seconds()
}

/// Whether `result` shows the date and the time of `date_time` under `offset`.
pub open spec fn is_attached_to(
    date_time: PrimitiveDateTime,
    offset: Offset,
    result: OffsetDateTime,
) -> bool {
    &&& unix_timestamp_of(result) == local_timestamp_of(date_time) - offset.seconds()
    &&& nanosecond_of(result) == local_nanosecond_of(date_time)
    &&& offset_seconds_of(result) == offset.seconds()
}

/// The local time, in seconds from the Unix epoch as if it were UTC, that
/// `date_time` shows once it is moved to `tz`.
pub open spec fn local_timestamp_in<T: TimeZone>(date_time: OffsetDateTime, tz: &T) -> int {
    unix_timestamp_of(date_time) + tz.offset_at(unix_timestamp_of(date_time)).seconds()
}

/// Conversions of an `OffsetDateTime` between time zones. Only this library
/// implements the trait.
pub trait OffsetDateTimeExt: sealing::OffsetDateTimeExt {
    /// The date-time itself.
    spec fn as_offset_date_time(&self) -> OffsetDateTime;

    /// The same instant under the offset that `tz` observes at it. The local
    /// date-time there has to lie in the years from -9999 to 9999.
    fn to_timezone<T: TimeZone>(&self, tz: &T) -> (r: OffsetDateTime)
        requires
            is_local_timestamp(local_timestamp_in(self.as_offset_date_time(), tz)),
        ensures
            is_moved_to(
                self.as_offset_date_time(),
                tz.offset_at(unix_timestamp_of(self.as_offset_date_time())),
                r,
            ),
    ;

    /// The same instant under the offset that `tz` observes at it, or nothing
    /// where the local date-time there leaves the years from -9999 to 9999.
    fn checked_to_timezone<T: TimeZone>(&self, tz: &T) -> (r: Option<OffsetDateTime>)
        ensures
            r is Some <==> is_local_timestamp(local_timestamp_in(self.as_offset_date_time(), tz)),
            r matches Some(moved) ==> is_moved_to(
                self.as_offset_date_time(),
                tz.offset_at(unix_timestamp_of(self.as_offset_date_time())),
                moved,
            ),
    ;
}

/// Conversions of a `PrimitiveDateTime` into a time zone. Only this library
/// implements the trait.
pub trait PrimitiveDateTimeExt: sealing::PrimitiveDateTimeExt {
    /// The date-time itself.
    spec fn as_primitive_date_time(&self) -> PrimitiveDateTime;

    /// Reads the date-time as a local time of `tz` and gives it each offset
    /// that it can carry there: none in a gap, two where the clock showed it
    /// twice, the earlier occurrence first.
    fn assume_timezone<T: TimeZone>(&self, tz: &T) -> (r: OffsetResult<OffsetDateTime>)
        ensures
            match tz.offsets_for_local(local_timestamp_of(self.as_primitive_date_time())) {
                OffsetResult::Single(a) => r matches OffsetResult::Single(x) && is_attached_to(
                    self.as_primitive_date_time(),
                    a,
                    x,
                ),
                OffsetResult::Ambiguous(a, b) => r matches OffsetResult::Ambiguous(x, y)
                    && is_attached_to(self.as_primitive_date_time(), a, x) && is_attached_to(
                    self.as_primitive_date_time(),
                    b,
                    y,
                ),
                OffsetResult::Gap => r is Gap,
            },
            r matches OffsetResult::Ambiguous(x, y) ==> unix_timestamp_of(x) < unix_timestamp_of(
                y,
            ),
    ;

    /// Reads the date-time as UTC, finds the offset that `tz` observes at
    /// that instant, and gives the date and the time that offset.
    fn assume_timezone_utc<T: TimeZone>(&self, tz: &T) -> (r: OffsetDateTime)
        ensures
            is_attached_to(
                self.as_primitive_date_time(),
                tz.offset_at(local_timestamp_of(self.as_primitive_date_time())),
                r,
            ),
    ;
}

impl PrimitiveDateTimeExt for PrimitiveDateTime {
    open spec fn as_primitive_date_time(&self) -> PrimitiveDateTime {
        *self
    }

    fn assume_timezone<T: TimeZone>(&self, tz: &T) -> (r: OffsetResult<OffsetDateTime>) {
        match tz.get_offset_local(&assume_utc(self)) {
            OffsetResult::Single(a) => OffsetResult::Single(assume_offset(self, a.to_utc())),
            OffsetResult::Ambiguous(a, b) => OffsetResult::Ambiguous(
                assume_offset(self, a.to_utc()),
                assume_offset(self, b.to_utc()),
            ),
            OffsetResult::Gap => OffsetResult::Gap,
        }
    }

    fn assume_timezone_utc<T: TimeZone>(&self, tz: &T) -> (r: OffsetDateTime) {
        let offset = tz.get_offset_utc(&assume_utc(self));
        assume_offset(self, offset.to_utc())
    }
}

impl OffsetDateTimeExt for OffsetDateTime {
    open spec fn as_offset_date_time(&self) -> OffsetDateTime {
        *self
    }

    fn to_timezone<T: TimeZone>(&self, tz: &T) -> (r: OffsetDateTime) {
        let offset = tz.get_offset_utc(self);
        to_offset(self, offset.to_utc())
    }

    fn checked_to_timezone<T: TimeZone>(&self, tz: &T) -> (r: Option<OffsetDateTime>) {
        let offset = tz.get_offset_utc(self);
        let local: i128 = unix_timestamp(self) as i128 + offset.seconds() as i128;
        if MIN_LOCAL_TIMESTAMP as i128 <= local && local <= MAX_LOCAL_TIMESTAMP as i128 {
            Some(self.to_timezone(tz))
        } else {
            None
        }
    }
}

} // verus!
