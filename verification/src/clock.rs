//! The time of day, in whole seconds since the unix epoch.

use std::time::Duration;
use vstd::prelude::*;

verus! {

/// Calls `std::time::SystemTime::elapsed` on `std::time::UNIX_EPOCH`: the
/// time that has passed since the epoch, or nothing where the system clock
/// reads a time before the epoch.
///
/// Trusted, not proved: nothing is claimed of the result.
#[verifier::external_body]
fn elapsed_since_epoch() -> (elapsed: Option<Duration>) {
    std::time::UNIX_EPOCH.elapsed().ok()
}

/// Calls `std::time::Duration::as_secs`: the whole seconds of a duration.
///
/// Trusted, not proved: nothing is claimed of the result.
#[verifier::external_body]
fn whole_seconds(elapsed: &Duration) -> (seconds: u64) {
    elapsed.as_secs()
}

/// The timestamp for a reading of the clock: the seconds that have passed
/// since the epoch, and the epoch itself where the clock is behind it.
pub fn timestamp_of(elapsed: Option<u64>) -> (time: u64)
    ensures
        time == match elapsed {
            Some(seconds) => seconds,
            None => 0,
        },
{
    match elapsed {
        Some(seconds) => seconds,
        None => 0,
    }
}

/// The current time in unix seconds.
pub fn current_timestamp() -> (time: u64) {
    let elapsed = match elapsed_since_epoch() {
        Some(duration) => Some(whole_seconds(&duration)),
        None => None,
    };
    timestamp_of(elapsed)
}

} // verus!
