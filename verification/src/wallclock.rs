//! Snapshots of the current time.
//!
//! The calendar logic never asks the operating system for the time itself: it
//! receives a [`NowParts`] snapshot — civil fields, weekday, Unix timestamp
//! and UTC offset of one reference frame at one instant — and computes from
//! those plain values.  The two functions here take such a snapshot from
//! chrono, in the machine's local frame or in UTC.

use crate::calendar::{civil_seconds, days_in_month_of, weekday_of};
use chrono::{Datelike, Timelike};
use vstd::prelude::*;

verus! {

/// One reference frame's reading of one instant: the instant itself
/// (`timestamp`, seconds since the Unix epoch), the frame's offset east of
/// UTC in seconds at that instant, and the civil fields the frame's wall
/// clock shows.
pub struct NowParts {
    pub year: i32,
    pub month: u8,
    pub day: u8,
    pub hour: u8,
    pub minute: u8,
    pub second: u8,
    pub weekday: u8,
    pub timestamp: i64,
    pub offset: i32,
}

impl NowParts {
    /// The civil fields form a valid date-time that agrees with the weekday
    /// and names the instant `timestamp + offset` seconds after the epoch.
    pub open spec fn wf(self) -> bool {
        &&& 1 <= self.month <= 12
        &&& 1 <= self.day <= days_in_month_of(self.year as int, self.month as int)
        &&& self.hour < 24
        &&& self.minute < 60
        &&& self.second < 60
        &&& self.weekday == weekday_of(self.year as int, self.month as int, self.day as int)
        &&& self.timestamp + self.offset == civil_seconds(
            self.year as int,
            self.month as int,
            self.day as int,
            self.hour as int,
            self.minute as int,
            self.second as int,
        )
        &&& -86400 < self.offset < 86400
        &&& 0 <= self.timestamp < 8_400_000_000_000
        &&& 1969 <= self.year < 300_000
    }

    /// Seconds already elapsed on this frame's wall clock since its midnight.
    pub open spec fn secs_of_day(self) -> int {
        self.hour * 3600 + self.minute * 60 + self.second
    }
}

/// Relies on chrono's `Local::now`: the returned date-time reads the system
/// clock (at or after the epoch, within chrono's representable years), its
/// civil accessors show the local wall-clock fields of that instant, and
/// those fields equal the instant shifted east by `local_minus_utc` seconds.
#[verifier::external_body]
pub fn now_local() -> (r: NowParts)
    ensures
        r.wf(),
{
    let n = chrono::Local::now();
    NowParts {
        year: n.year(),
        month: n.month() as u8,
        day: n.day() as u8,
        hour: n.hour() as u8,
        minute: n.minute() as u8,
        second: n.second() as u8,
        weekday: n.weekday().num_days_from_sunday() as u8,
        timestamp: n.timestamp(),
        offset: n.offset().local_minus_utc(),
    }
}

/// Relies on chrono's `Utc::now`: as `Local::now`, with the civil accessors
/// showing the UTC fields of the instant, at offset zero.
#[verifier::external_body]
pub fn now_utc() -> (r: NowParts)
    ensures
        r.wf(),
        r.offset == 0,
{
    let n = chrono::Utc::now();
    NowParts {
        year: n.year(),
        month: n.month() as u8,
        day: n.day() as u8,
        hour: n.hour() as u8,
        minute: n.minute() as u8,
        second: n.second() as u8,
        weekday: n.weekday().num_days_from_sunday() as u8,
        timestamp: n.timestamp(),
        offset: 0,
    }
}

} // verus!
