//! The marks that keep the extension traits to the date-time types of the
//! `time` crate.

use vstd::prelude::*;
use time::OffsetDateTime;
use time::PrimitiveDateTime;

verus! {

pub trait OffsetDateTimeExt {

}

pub trait PrimitiveDateTimeExt {

}

impl OffsetDateTimeExt for OffsetDateTime {

}

impl PrimitiveDateTimeExt for PrimitiveDateTime {

}

} // verus!
