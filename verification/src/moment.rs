//! Instants in time, measured in whole seconds since the Unix epoch (UTC).
//!
//! A price point's moment is hour-aligned; partitioning happens on the UTC
//! calendar day. A `ZonedMoment` carries an instant together with the fixed
//! offset in which it is displayed: the offset never changes the instant.

use vstd::prelude::*;

verus! {

/// Seconds in one hour.
pub const SECS_PER_HOUR: i64 = 3600;

/// Seconds in one calendar day.
pub const SECS_PER_DAY: i64 = 86400;

/// A window that starts on the hour ends 59 minutes and 59 seconds later.
pub const HOUR_END_OFFSET: i64 = 3599;

/// Largest instant the library accepts, comfortably in the far future.
pub const MOMENT_MAX: i64 = 4_000_000_000_000;

/// Widest displacement from UTC a zone offset may have, exclusive (one day).
pub const OFFSET_BOUND: i32 = 86400;

/// A moment is storable when it is non-negative, bounded, and hour-aligned.
pub open spec fn wf_moment(m: int) -> bool {
    0 <= m <= MOMENT_MAX && m % (SECS_PER_HOUR as int) == 0
}

/// The UTC calendar day a moment falls on, as a day number since the epoch.
pub open spec fn day_of(m: int) -> int {
    m / (SECS_PER_DAY as int)
}

/// Day number of a moment, computed executably.
pub fn day_of_moment(m: i64) -> (d: i64)
    requires
        0 <= m <= MOMENT_MAX,
    ensures
        d == day_of(m as int),
{
    m / SECS_PER_DAY
}

/// An instant paired with the fixed zone offset it is displayed in.
/// `epoch_secs` is always the UTC instant; `offset_secs` is presentation only.
#[derive(Clone, Copy, Debug, PartialEq, Eq, Structural)]
pub struct ZonedMoment {
    pub epoch_secs: i64,
    pub offset_secs: i32,
}

impl ZonedMoment {
    /// A moment displayed in UTC.
    pub fn utc(epoch_secs: i64) -> (z: ZonedMoment)
        ensures
            z.epoch_secs == epoch_secs,
            z.offset_secs == 0,
    {
        ZonedMoment { epoch_secs, offset_secs: 0 }
    }

    /// The same instant displayed at another fixed offset.
    pub fn at_offset(&self, offset_secs: i32) -> (z: ZonedMoment)
        ensures
            z.epoch_secs == self.epoch_secs,
            z.offset_secs == offset_secs,
    {
        ZonedMoment { epoch_secs: self.epoch_secs, offset_secs }
    }

    /// Reinterpret the moment in UTC: the instant itself is untouched.
    pub fn to_utc(&self) -> (z: ZonedMoment)
        ensures
            z.epoch_secs == self.epoch_secs,
            z.offset_secs == 0,
    {
        ZonedMoment { epoch_secs: self.epoch_secs, offset_secs: 0 }
    }
}

} // verus!
