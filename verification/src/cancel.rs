//! Cooperative cancellation: a search asks between moves whether to go on.

use crate::time::{time_is_up, TimeManager};
use std::sync::atomic::AtomicBool;
use std::sync::atomic::Ordering;
use vstd::prelude::*;

verus! {

/// A search that has no stop flag and no time limit is never cancelled.
pub open spec fn never_cancelled(stop_flag: Option<&AtomicBool>, clock: &TimeManager) -> bool {
    stop_flag.is_none() && clock.unlimited()
}

/// Whether the search has to stop now: the stop flag is set, or the time is
/// up. Without a flag the answer is that of the clock, whatever time it
/// shows; with one, the search goes on only if the clock allows it.
pub fn cancelled(stop_flag: Option<&AtomicBool>, clock: &TimeManager) -> (stop: bool)
    ensures
        never_cancelled(stop_flag, clock) ==> !stop,
        stop_flag.is_none() ==> exists|elapsed: u64|
            stop == #[trigger] time_is_up(clock.budget(), elapsed),
        !stop ==> exists|elapsed: u64| !#[trigger] time_is_up(clock.budget(), elapsed),
{
    let flagged = match stop_flag {
        Some(flag) => flag.load(Ordering::Relaxed),
        None => false,
    };
    if flagged {
        true
    } else {
        let timed_out = clock.should_stop();
        proof {
            let elapsed = choose|elapsed: u64| timed_out == time_is_up(clock.budget(), elapsed);
            assert(timed_out == time_is_up(clock.budget(), elapsed));
        }
        timed_out
    }
}

} // verus!
