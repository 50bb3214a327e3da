//! Task-identifier generation.
//!
//! Identifiers come from an explicitly constructed [`IdGenerator`], either
//! as a monotonically increasing sequence seeded by the caller, or composed
//! from the current epoch second and a small rolling counter.  A
//! timestamp-composed identifier repeats whenever more than 98 identifiers
//! are drawn within one second, and is not unique across processes.

use crate::wallclock::now_local;
use vstd::prelude::*;

verus! {

/// How task identifiers are generated.
#[derive(Debug, Clone, Copy)]
pub enum IDMode {
    SequenceId,
    TimestampId,
}

/// The rolling sub-counter after one draw: it walks 1, 2, ..., 98 and
/// starts over, recovering to 1 from any value outside that range.
pub open spec fn rolled(s: int) -> int {
    if s >= 98 || s <= 0 {
        1
    } else {
        s + 1
    }
}

/// Generator state for both identifier modes: the next sequence identifier
/// and the rolling sub-counter of the timestamp mode.
pub struct IdGenerator {
    pub large: i64,
    pub stamp: i16,
}

impl IdGenerator {
    /// A generator seeded at 1 in both modes.
    pub fn new() -> (r: IdGenerator)
        ensures
            r.large == 1,
            r.stamp == 1,
    {
        IdGenerator { large: 1, stamp: 1 }
    }

    /// Restarts the sequence at `seed`; the next sequence identifier drawn
    /// is `seed` itself.
    pub fn set_seed(&mut self, seed: i64)
        ensures
            final(self).large == seed,
            final(self).stamp == old(self).stamp,
    {
        self.large = seed;
    }

    /// Draws the next sequence identifier: the current value, after which
    /// the sequence advances by one, wrapping at the integer boundary.
    pub fn next_big_id(&mut self) -> (r: i64)
        ensures
            r == old(self).large,
            final(self).large == if old(self).large == i64::MAX {
                i64::MIN as int
            } else {
                old(self).large + 1
            },
            final(self).stamp == old(self).stamp,
    {
        let rvalue = self.large;
        if self.large == i64::MAX {
            self.large = i64::MIN;
        } else {
            self.large = self.large + 1;
        }
        rvalue
    }

    /// Composes a timestamp identifier from a given epoch second: one
    /// hundred times the second plus the advanced rolling sub-counter.  Two
    /// calls with the same second and the same sub-counter state return the
    /// same identifier: drawing more than 98 identifiers within one second
    /// repeats identifiers.
    pub fn compose_timestamp_id(&mut self, now_ts: i64) -> (r: i64)
        requires
            -92_000_000_000_000_000 <= now_ts <= 92_000_000_000_000_000,
        ensures
            final(self).stamp == rolled(old(self).stamp as int),
            final(self).large == old(self).large,
            r == now_ts * 100 + final(self).stamp,
    {
        if self.stamp >= 98 || self.stamp <= 0 {
            self.stamp = 1;
        } else {
            self.stamp = self.stamp + 1;
        }
        now_ts * 100 + self.stamp as i64
    }

    /// Draws a timestamp identifier from the current local clock second.
    pub fn next_timestamp_id(&mut self) -> (r: i64)
        ensures
            final(self).stamp == rolled(old(self).stamp as int),
            final(self).large == old(self).large,
            r % 100 == final(self).stamp,
    {
        let now = now_local();
        let r = self.compose_timestamp_id(now.timestamp);
        proof {
            vstd::arithmetic::div_mod::lemma_mod_multiples_vanish(
                now.timestamp as int,
                self.stamp as int,
                100,
            );
        }
        r
    }
}

} // verus!
