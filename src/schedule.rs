//! Pacing of the cycles: one interval shared by all instances, with a floor.

use vstd::prelude::*;

verus! {

/// The shortest interval between cycles, in seconds.
pub const MIN_INTERVAL_SECS: u64 = 300;

/// The interval used when none is configured, in seconds.
pub const DEFAULT_INTERVAL_SECS: u64 = 600;

/// The configured interval raised to the floor.
pub fn effective_interval(configured_secs: u64) -> (r: u64)
    ensures
        r == (if configured_secs < MIN_INTERVAL_SECS {
            MIN_INTERVAL_SECS
        } else {
            configured_secs
        }),
        r >= MIN_INTERVAL_SECS,
{
    if configured_secs < MIN_INTERVAL_SECS {
        MIN_INTERVAL_SECS
    } else {
        configured_secs
    }
}

/// How long to wait before the next tick: what is left of the interval after
/// the tick's own processing time, and nothing once that overran it.
pub fn next_delay(interval_ms: u64, elapsed_ms: u64) -> (r: u64)
    ensures
        r == (if elapsed_ms >= interval_ms {
            0
        } else {
            interval_ms - elapsed_ms
        }),
        r <= interval_ms,
{
    if elapsed_ms >= interval_ms {
        0
    } else {
        interval_ms - elapsed_ms
    }
}

} // verus!
