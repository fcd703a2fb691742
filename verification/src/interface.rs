//! The value types shared by every kind of time zone, and the contract a
//! time zone has to meet.

use vstd::prelude::*;
use time::OffsetDateTime;
use time::UtcOffset;
use crate::datetime::unix_timestamp_of;
use crate::datetime::utc_offset_from_whole_seconds;
use crate::datetime::whole_seconds_of;

verus! {

/// The largest displacement, in seconds, that a `UtcOffset` can hold: 25:59:59.
pub const MAX_UTC_OFFSET_SECONDS: i32 = 93_599;

/// Whether `seconds` is a displacement that a `UtcOffset` can hold.
pub open spec fn is_utc_offset(seconds: int) -> bool {
    -MAX_UTC_OFFSET_SECONDS <= seconds <= MAX_UTC_OFFSET_SECONDS
}

/// A displacement from UTC together with the abbreviation it is known by.
///
/// Two offsets are equal when they displace by the same number of seconds;
/// the name and the daylight saving flag only describe.
#[derive(Clone, Copy, Debug)]
pub struct Offset {
    seconds: i32,
    name: &'static str,
    is_dst: bool,
}

impl Offset {
    /// An offset of `seconds` east of UTC, known as `name`, outside daylight saving time.
    pub fn new(seconds: i32, name: &'static str) -> (r: Offset)
        ensures
            r.seconds() == seconds,
            r.name() == name,
            !r.is_dst(),
    {
        Offset { seconds, name, is_dst: false }
    }

    /// The same offset with its daylight saving flag set to `is_dst`.
    pub fn with_dst(self, is_dst: bool) -> (r: Offset)
        ensures
            r.seconds() == self.seconds(),
            r.name() == self.name(),
            r.is_dst() == is_dst,
    {
        Offset { seconds: self.seconds, name: self.name, is_dst }
    }

    pub closed spec fn spec_seconds(&self) -> i32 {
        self.seconds
    }

    /// The displacement east of UTC, in seconds.
    #[verifier::when_used_as_spec(spec_seconds)]
    pub fn seconds(&self) -> (r: i32)
        ensures
            r == self.seconds(),
    {
        self.seconds
    }

    pub closed spec fn spec_name(&self) -> &'static str {
        self.name
    }

    /// The abbreviation the offset is known by.
    #[verifier::when_used_as_spec(spec_name)]
    pub fn name(&self) -> (r: &'static str)
        ensures
            r == self.name(),
    {
        self.name
    }

    pub closed spec fn spec_is_dst(&self) -> bool {
        self.is_dst
    }

    /// Whether the offset belongs to daylight saving time.
    #[verifier::when_used_as_spec(spec_is_dst)]
    pub fn is_dst(&self) -> (r: bool)
        ensures
            r == self.is_dst(),
    {
        self.is_dst
    }

    /// Whether a `UtcOffset` can hold this displacement.
    pub fn is_utc_offset(&self) -> (r: bool)
        ensures
            r == is_utc_offset(self.seconds() as int),
    {
        -MAX_UTC_OFFSET_SECONDS <= self.seconds && self.seconds <= MAX_UTC_OFFSET_SECONDS
    }

    /// The offset as the `time` crate holds it.
    pub fn to_utc(&self) -> (r: UtcOffset)
        requires
            is_utc_offset(self.seconds() as int),
        ensures
            whole_seconds_of(r) == self.seconds(),
    {
        match utc_offset_from_whole_seconds(self.seconds) {
            Ok(offset) => offset,
            Err(_) => vstd::pervasive::unreached(),
        }
    }
}

impl PartialEq for Offset {
    fn eq(&self, other: &Offset) -> (r: bool) {
        self.seconds == other.seconds
    }
}

impl Eq for Offset {

}

impl vstd::std_specs::cmp::PartialEqSpecImpl for Offset {
    open spec fn obeys_eq_spec() -> bool {
        true
    }

    open spec fn eq_spec(&self, other: &Offset) -> bool {
        self.seconds() == other.seconds()
    }
}

/// What a local wall-clock time resolves to in a zone.
#[derive(Clone, Copy, Debug, PartialEq, Eq)]
pub enum OffsetResult<T> {
    /// Exactly one value applies.
    Single(T),
    /// Two values apply: that of the earlier occurrence, then that of the later.
    Ambiguous(T, T),
    /// The local time never occurred: it falls in a gap.
    Gap,
}

impl<T> OffsetResult<T> {
    /// The value of the only or of the earlier occurrence, if there is any.
    pub open spec fn first(self) -> Option<T> {
        match self {
            OffsetResult::Single(v) => Some(v),
            OffsetResult::Ambiguous(v, _) => Some(v),
            OffsetResult::Gap => None,
        }
    }

    /// The value of the only or of the later occurrence, if there is any.
    pub open spec fn second(self) -> Option<T> {
        match self {
            OffsetResult::Single(v) => Some(v),
            OffsetResult::Ambiguous(_, v) => Some(v),
            OffsetResult::Gap => None,
        }
    }

    /// The value, if exactly one applies.
    pub open spec fn single(self) -> Option<T> {
        match self {
            OffsetResult::Single(v) => Some(v),
            _ => None,
        }
    }

    /// The one value. To ask for it of a gap or of an ambiguous result is a
    /// mistake of the caller.
    pub fn unwrap(self) -> (r: T)
        requires
            self is Single,
        ensures
            self == OffsetResult::Single(r),
    {
        match self {
            OffsetResult::Single(v) => v,
            _ => vstd::pervasive::unreached(),
        }
    }

    /// The value of the earlier occurrence. To ask for it of a gap is a mistake
    /// of the caller.
    pub fn unwrap_first(self) -> (r: T)
        requires
            !(self is Gap),
        ensures
            self.first() == Some(r),
    {
        match self {
            OffsetResult::Single(v) => v,
            OffsetResult::Ambiguous(v, _) => v,
            OffsetResult::Gap => vstd::pervasive::unreached(),
        }
    }

    /// The value of the later occurrence. To ask for it of a gap is a mistake
    /// of the caller.
    pub fn unwrap_second(self) -> (r: T)
        requires
            !(self is Gap),
        ensures
            self.second() == Some(r),
    {
        match self {
            OffsetResult::Single(v) => v,
            OffsetResult::Ambiguous(_, v) => v,
            OffsetResult::Gap => vstd::pervasive::unreached(),
        }
    }

    /// The value if exactly one applies, nothing otherwise.
    pub fn take(self) -> (r: Option<T>)
        ensures
            r == self.single(),
    {
        match self {
            OffsetResult::Single(v) => Some(v),
            _ => None,
        }
    }

    /// The value of the earlier occurrence, nothing for a gap.
    pub fn take_first(self) -> (r: Option<T>)
        ensures
            r == self.first(),
    {
        match self {
            OffsetResult::Single(v) => Some(v),
            OffsetResult::Ambiguous(v, _) => Some(v),
            OffsetResult::Gap => None,
        }
    }

    /// The value of the later occurrence, nothing for a gap.
    pub fn take_second(self) -> (r: Option<T>)
        ensures
            r == self.second(),
    {
        match self {
            OffsetResult::Single(v) => Some(v),
            OffsetResult::Ambiguous(_, v) => Some(v),
            OffsetResult::Gap => None,
        }
    }

    /// Whether the local time fell in a gap.
    pub fn is_none(&self) -> (r: bool)
        ensures
            r == (self is Gap),
    {
        match self {
            OffsetResult::Gap => true,
            _ => false,
        }
    }

    /// Whether two values apply.
    pub fn is_ambiguous(&self) -> (r: bool)
        ensures
            r == (self is Ambiguous),
    {
        match self {
            OffsetResult::Ambiguous(_, _) => true,
            _ => false,
        }
    }
}

/// Whether `result` is something that a zone can resolve a local time to: a
/// `UtcOffset` can hold each offset, and of two offsets the first is the
/// greater, since it belongs to the earlier of the two instants.
pub open spec fn is_resolution(result: OffsetResult<Offset>) -> bool {
    match result {
        OffsetResult::Single(a) => is_utc_offset(a.seconds() as int),
        OffsetResult::Ambiguous(a, b) => {
            &&& is_utc_offset(a.seconds() as int)
            &&& is_utc_offset(b.seconds() as int)
            &&& a.seconds() > b.seconds()
        },
        OffsetResult::Gap => true,
    }
}

/// What every time zone can do, wherever its rules come from.
///
/// A zone is described by two functions of an integer, the number of seconds
/// since the Unix epoch: the offset in force at a UTC instant, and what a
/// local time, read as if it were UTC, resolves to. The methods compute those
/// for a date-time of the `time` crate.
pub trait TimeZone {
    /// The offset in force at the UTC instant `instant`.
    spec fn offset_at(&self, instant: int) -> Offset;

    /// What the local time `local` resolves to.
    spec fn offsets_for_local(&self, local: int) -> OffsetResult<Offset>;

    /// The characters of the zone's name.
    spec fn name_chars(&self) -> Seq<char>;

    /// The offset in force at the instant of `date_time`.
    fn get_offset_utc(&self, date_time: &OffsetDateTime) -> (r: Offset)
        ensures
            r == self.offset_at(unix_timestamp_of(*date_time)),
            is_utc_offset(r.seconds() as int),
    ;

    /// The offsets that the wall-clock reading of `date_time` can carry, where
    /// `date_time` holds the local time as if it were UTC.
    fn get_offset_local(&self, date_time: &OffsetDateTime) -> (r: OffsetResult<Offset>)
        ensures
            r == self.offsets_for_local(unix_timestamp_of(*date_time)),
            is_resolution(r),
    ;

    /// The zone's name.
    fn name(&self) -> (r: &str)
        ensures
            r@ == self.name_chars(),
    ;
}

} // verus!
