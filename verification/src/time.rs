//! The clock: durations in ticks of the arch's monotonic counter, and the
//! deadline a bounded receive waits for.

use vstd::prelude::*;

verus! {

/// The counter frequency, in ticks per second.
pub const COUNTER_FREQ: u64 = 1_000_000_000;

/// A duration, in counter ticks.
#[derive(Clone, Copy, Debug, PartialEq, Eq, Structural, PartialOrd, Ord)]
pub struct Duration {
    /// The duration, in ticks.
    pub ticks: u64,
}

impl Duration {
    /// A duration of `secs` seconds (which must be representable in ticks).
    pub fn from_secs(secs: u64) -> (r: Duration)
        requires
            secs * COUNTER_FREQ <= u64::MAX,
        ensures
            r.ticks == secs * COUNTER_FREQ,
    {
        Duration { ticks: secs * COUNTER_FREQ }
    }

    /// A duration of `ticks` ticks.
    pub fn from_ticks(ticks: u64) -> (r: Duration)
        ensures
            r.ticks == ticks,
    {
        Duration { ticks }
    }

    /// The deadline `d` from the counter value `now`: their sum, saturating
    /// at the counter's maximum.
    pub fn deadline_from(now: u64, d: Duration) -> (r: u64)
        ensures
            r == (if now + d.ticks <= u64::MAX { (now + d.ticks) as u64 } else { u64::MAX }),
    {
        now.saturating_add(d.ticks)
    }
}

} // verus!
