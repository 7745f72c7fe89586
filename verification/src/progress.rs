//! When a progress update is due.

use vstd::prelude::*;

verus! {

/// Least time between two progress updates, in milliseconds.
pub const UPDATE_INTERVAL_MS: u64 = 300;

/// Whether a progress update is due at `now_ms`, the last one having gone
/// out at `last_ms`: true once the interval has passed, so that updates
/// come no faster than one per interval.
pub fn update_due(last_ms: u64, now_ms: u64) -> (due: bool)
    ensures
        due == (now_ms - last_ms >= UPDATE_INTERVAL_MS),
{
    now_ms >= last_ms && now_ms - last_ms >= UPDATE_INTERVAL_MS
}

} // verus!
