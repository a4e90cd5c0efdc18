use vstd::prelude::*;

verus! {

/// Seconds between two rebuilds of the alliance queue.
pub const ALLIANCE_QUEUE_UPDATE_SECS: u64 = 7200;

/// Seconds between two drain passes over the alliance queue.
pub const ALLIANCE_QUEUE_PROCESS_SECS: u64 = 10;

/// Alliances refreshed at most by one scheduled drain pass.
pub const ALLIANCE_QUEUE_BATCH: usize = 20;

/// Seconds between two occupancy refreshes.
pub const ADM_UPDATE_TIME_SECONDS: u64 = 3600;

/// Milliseconds a service loop idles between two checks.
pub const IDLE_MILLIS: u64 = 100;

/// Whether an action that runs every `interval_secs` seconds is due, given
/// the whole seconds elapsed since it last ran (`None`: it never ran).
pub fn is_due(elapsed_secs: Option<u64>, interval_secs: u64) -> (due: bool)
    ensures
        due == match elapsed_secs {
            Some(elapsed) => elapsed >= interval_secs,
            None => true,
        },
{
    match elapsed_secs {
        Some(elapsed) => elapsed >= interval_secs,
        None => true,
    }
}

} // verus!
