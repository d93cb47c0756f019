use vstd::prelude::*;
use std::time::{Duration, Instant, SystemTime, SystemTimeError, UNIX_EPOCH};

verus! {

/// `std::time::SystemTime`, held as an opaque value.
#[verifier::external_type_specification]
#[verifier::external_body]
pub struct ExSystemTime(SystemTime);

/// `std::time::SystemTime`, held as an opaque value.
/// `std::time::SystemTimeError`, held as an opaque value.
#[verifier::external_type_specification]
#[verifier::external_body]
pub struct ExSystemTimeError(SystemTimeError);

/// `std::time::Instant`, held as an opaque value.
#[verifier::external_type_specification]
#[verifier::external_body]
pub struct ExInstant(Instant);

/// `SystemTime::now`: a reading of the wall clock. Nothing is claimed of it.
#[verifier::external_body]
fn wall_clock() -> (reading: SystemTime) {
    SystemTime::now()
}

/// `SystemTime::duration_since`, measured from `UNIX_EPOCH`: the time from
/// the epoch to `reading`, or an error where `reading` lies before the
/// epoch. Nothing is claimed of the length.
#[verifier::external_body]
fn since_epoch(reading: &SystemTime) -> (elapsed: Result<Duration, SystemTimeError>) {
    reading.duration_since(UNIX_EPOCH)
}

/// `Duration::as_secs`: the whole seconds of a duration. A `Duration` is
/// opaque here, so nothing is claimed of the number.
#[verifier::external_body]
fn whole_seconds(elapsed: &Duration) -> (seconds: u64) {
    elapsed.as_secs()
}

/// `Instant::now`: a reading of the monotonic clock. Nothing is claimed of
/// it.
#[verifier::external_body]
pub(crate) fn monotonic_clock() -> (reading: Instant) {
    Instant::now()
}

/// `Instant::elapsed`: the time that has passed since `reading` was taken.
/// Nothing is claimed of the length.
#[verifier::external_body]
pub(crate) fn time_since(reading: &Instant) -> (elapsed: Duration) {
    reading.elapsed()
}

/// The wall-clock time in whole seconds since the Unix epoch. A clock that
/// is set before the epoch reads as the epoch itself.
pub(crate) fn unix_seconds() -> (now: u64) {
    let reading = wall_clock();
    let measured: Option<u64> = match since_epoch(&reading) {
        Ok(elapsed) => Some(whole_seconds(&elapsed)),
        Err(_) => None,
    };
    seconds_or_epoch(measured)
}

/// The time that a reading of the clock stands for: the seconds measured
/// from the epoch, or the epoch itself where the clock was set before it
/// and nothing could be measured.
pub fn seconds_or_epoch(measured: Option<u64>) -> (now: u64)
    ensures
        now == (match measured {
            Some(seconds) => seconds,
            None => 0,
        }),
{
    match measured {
        Some(seconds) => seconds,
        None => 0,
    }
}

} // verus!
