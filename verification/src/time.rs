//! Spans of simulated time.

use vstd::prelude::*;

verus! {

/// Nanoseconds in a millisecond.
pub const NANOS_PER_MILLI: u128 = 1_000_000;

/// Nanoseconds in a second.
pub const NANOS_PER_SEC: u128 = 1_000_000_000;

/// A span of simulated time, counted in nanoseconds.
#[derive(Clone, Copy, Debug, PartialEq, Eq, Structural)]
pub struct SimDuration {
    pub nanos: u128,
}

impl SimDuration {
    /// A span of `nanos` nanoseconds.
    pub fn from_nanos(nanos: u128) -> (d: SimDuration)
        ensures
            d.nanos == nanos,
    {
        SimDuration { nanos }
    }

    /// A span of `millis` milliseconds.
    pub fn from_millis(millis: u64) -> (d: SimDuration)
        ensures
            d.nanos == millis * NANOS_PER_MILLI,
    {
        assert(millis * NANOS_PER_MILLI <= u128::MAX) by (nonlinear_arith)
            requires
                millis <= u64::MAX,
                NANOS_PER_MILLI == 1_000_000,
        ;
        SimDuration { nanos: (millis as u128) * NANOS_PER_MILLI }
    }

    /// A span of `secs` seconds.
    pub fn from_secs(secs: u64) -> (d: SimDuration)
        ensures
            d.nanos == secs * NANOS_PER_SEC,
    {
        assert(secs * NANOS_PER_SEC <= u128::MAX) by (nonlinear_arith)
            requires
                secs <= u64::MAX,
                NANOS_PER_SEC == 1_000_000_000,
        ;
        SimDuration { nanos: (secs as u128) * NANOS_PER_SEC }
    }

    /// The span taken `count` times, or `None` where that is more
    /// nanoseconds than the counter holds.
    pub fn checked_times(self, count: u64) -> (d: Option<SimDuration>)
        ensures
            match d {
                Some(d) => d.nanos == self.nanos * count,
                None => self.nanos * count > u128::MAX,
            },
    {
        match self.nanos.checked_mul(count as u128) {
            Some(nanos) => Some(SimDuration { nanos }),
            None => None,
        }
    }
}

} // verus!
