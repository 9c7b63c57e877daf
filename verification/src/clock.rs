//! The wall clock, read in whole seconds.

use std::time::{Duration, SystemTime, SystemTimeError, UNIX_EPOCH};
use vstd::prelude::*;

verus! {

/// `std::time::SystemTime`: a reading of the system clock.
#[verifier::external_type_specification]
#[verifier::external_body]
pub struct ExSystemTime(SystemTime);

/// `std::time::SystemTimeError`: the clock reading lies before the moment it
/// was measured against.
#[verifier::external_type_specification]
#[verifier::external_body]
pub struct ExSystemTimeError(SystemTimeError);

/// Calls `SystemTime::now`. Nothing is claimed of the reading.
#[verifier::external_body]
fn system_now() -> (reading: SystemTime) {
    SystemTime::now()
}

/// Calls `SystemTime::duration_since` with `UNIX_EPOCH`. Nothing is claimed
/// of the outcome: the clock may stand before or after the epoch.
#[verifier::external_body]
fn since_unix_epoch(reading: &SystemTime) -> (elapsed: Result<Duration, SystemTimeError>) {
    reading.duration_since(UNIX_EPOCH)
}

/// Calls `Duration::as_secs`. Nothing is claimed of the count.
#[verifier::external_body]
fn whole_seconds(span: &Duration) -> (secs: u64) {
    span.as_secs()
}

/// The time to report for a clock that stands `elapsed` whole seconds after
/// the Unix epoch, or before the epoch where `elapsed` is `None`: the seconds
/// themselves, or zero.
pub fn epoch_seconds(elapsed: Option<u64>) -> (secs: u64)
    ensures
        secs == (match elapsed {
            Some(count) => count,
            None => 0,
        }),
{
    match elapsed {
        Some(count) => count,
        None => 0,
    }
}

/// The present time in whole seconds since the Unix epoch, or zero where the
/// system clock stands before the epoch.
pub fn now_unix() -> (secs: u64) {
    let reading = system_now();
    let elapsed = match since_unix_epoch(&reading) {
        Ok(span) => Some(whole_seconds(&span)),
        Err(_) => None,
    };
    epoch_seconds(elapsed)
}

} // verus!
