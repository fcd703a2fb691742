//! What the library takes from the `time` crate: its date-time types, and the
//! few of their functions that the conversions call. Nothing here is proved;
//! each contract says what the `time` crate's source shows.
//!
//! A date-time is described by integers. An `OffsetDateTime` has a Unix
//! timestamp, a nanosecond within the second and an offset in seconds; a
//! `PrimitiveDateTime` has the timestamp that it would have in UTC and a
//! nanosecond; a `UtcOffset` has its number of seconds.

use vstd::prelude::*;
use time::OffsetDateTime;
use time::PrimitiveDateTime;
use time::UtcOffset;
use time::error::ComponentRange;

verus! {

/// `time::OffsetDateTime`, carried through as it is: a date and a time with
/// an offset from UTC.
#[verifier::external_type_specification]
#[verifier::external_body]
pub struct ExOffsetDateTime(OffsetDateTime);

/// `time::PrimitiveDateTime`, carried through as it is: a date and a time
/// without offset.
#[verifier::external_type_specification]
#[verifier::external_body]
pub struct ExPrimitiveDateTime(PrimitiveDateTime);

/// `time::UtcOffset`, carried through as it is.
#[verifier::external_type_specification]
#[verifier::external_body]
pub struct ExUtcOffset(UtcOffset);

/// `time::error::ComponentRange`: what `UtcOffset::from_whole_seconds` says
/// of seconds that it does not accept.
#[verifier::external_type_specification]
#[verifier::external_body]
pub struct ExComponentRange(ComponentRange);

/// What `OffsetDateTime::unix_timestamp` returns: the seconds from the Unix
/// epoch to the instant, rounded down.
pub uninterp spec fn unix_timestamp_of(date_time: OffsetDateTime) -> int;

/// What `OffsetDateTime::nanosecond` returns.
pub uninterp spec fn nanosecond_of(date_time: OffsetDateTime) -> int;

/// What `OffsetDateTime::offset` returns, in whole seconds.
pub uninterp spec fn offset_seconds_of(date_time: OffsetDateTime) -> int;

/// What `UtcOffset::whole_seconds` returns.
pub uninterp spec fn whole_seconds_of(offset: UtcOffset) -> int;

/// The Unix timestamp that a date-time without offset has when it is read as
/// UTC: what `PrimitiveDateTime::assume_utc` followed by
/// `OffsetDateTime::unix_timestamp` returns.
pub uninterp spec fn local_timestamp_of(date_time: PrimitiveDateTime) -> int;

/// What `PrimitiveDateTime::nanosecond` returns.
pub uninterp spec fn local_nanosecond_of(date_time: PrimitiveDateTime) -> int;

/// The smallest number of seconds from the Unix epoch that a local date-time
/// can hold: midnight of the first day of the year -9999.
pub const MIN_LOCAL_TIMESTAMP: i64 = -377_705_116_800;

/// The largest number of seconds from the Unix epoch that a local date-time
/// can hold: the last second of the year 9999.
pub const MAX_LOCAL_TIMESTAMP: i64 = 253_402_300_799;

/// Whether a local date-time `local` seconds from the Unix epoch lies in the
/// years from -9999 to 9999, which every build of the `time` crate can hold.
pub open spec fn is_local_timestamp(local: int) -> bool {
    MIN_LOCAL_TIMESTAMP <= local <= MAX_LOCAL_TIMESTAMP
}

/// `OffsetDateTime::unix_timestamp`. The contract gives the result its name.
#[verifier::external_body]
pub(crate) fn unix_timestamp(date_time: &OffsetDateTime) -> (r: i64)
    ensures
        r == unix_timestamp_of(*date_time),
{
    date_time.unix_timestamp()
}

/// `UtcOffset::from_whole_seconds`. It accepts exactly the displacements up
/// to 25:59:59 either way, and the offset it makes has the seconds it was given.
#[verifier::external_body]
pub(crate) fn utc_offset_from_whole_seconds(seconds: i32) -> (r: Result<
    UtcOffset,
    ComponentRange,
>)
    ensures
        r is Ok <==> -93_599 <= seconds <= 93_599,
        r matches Ok(offset) ==> whole_seconds_of(offset) == seconds,
{
    UtcOffset::from_whole_seconds(seconds)
}

/// `PrimitiveDateTime::assume_utc`. The result keeps the date and the time and
/// has the offset zero.
#[verifier::external_body]
pub(crate) fn assume_utc(date_time: &PrimitiveDateTime) -> (r: OffsetDateTime)
    ensures
        unix_timestamp_of(r) == local_timestamp_of(*date_time),
        nanosecond_of(r) == local_nanosecond_of(*date_time),
        offset_seconds_of(r) == 0,
{
    date_time.assume_utc()
}

/// `PrimitiveDateTime::assume_offset`. The result keeps the date and the time
/// and has the offset given, so its instant lies that many seconds before the
/// one it would have in UTC.
#[verifier::external_body]
pub(crate) fn assume_offset(date_time: &PrimitiveDateTime, offset: UtcOffset) -> (r:
    OffsetDateTime)
    ensures
        unix_timestamp_of(r) == local_timestamp_of(*date_time) - whole_seconds_of(offset),
        nanosecond_of(r) == local_nanosecond_of(*date_time),
        offset_seconds_of(r) == whole_seconds_of(offset),
{
    date_time.assume_offset(offset)
}

/// `OffsetDateTime::to_offset`. The result is the same instant under the
/// offset given. The call panics where the local date-time under that offset
/// leaves the years that the `time` crate can hold; `requires` keeps it within
/// the years from -9999 to 9999.
#[verifier::external_body]
pub(crate) fn to_offset(date_time: &OffsetDateTime, offset: UtcOffset) -> (r: OffsetDateTime)
    requires
        is_local_timestamp(unix_timestamp_of(*date_time) + whole_seconds_of(offset)),
    ensures
        unix_timestamp_of(r) == unix_timestamp_of(*date_time),
        nanosecond_of(r) == nanosecond_of(*date_time),
        offset_seconds_of(r) == whole_seconds_of(offset),
{
    date_time.to_offset(offset)
}

} // verus!
