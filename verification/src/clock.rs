//! The wall clock, read once per call and never interpreted further.

use vstd::prelude::*;

use std::time::Duration;

verus! {

/// `SystemTime::elapsed` on `UNIX_EPOCH`: the wall clock as a duration since
/// the Unix epoch; `None` when the clock reads a time before the epoch.
/// Nothing is promised of the value: it is the time.
#[verifier::external_body]
fn since_epoch() -> Option<Duration> {
    std::time::UNIX_EPOCH.elapsed().ok()
}

/// `Duration::as_micros`: the whole microseconds of a duration. Nothing is
/// stated of the value: the duration is opaque here.
#[verifier::external_body]
fn whole_micros(d: &Duration) -> u128 {
    d.as_micros()
}

/// The wall clock in whole microseconds since the Unix epoch; `None` when
/// it reads a time before the epoch.
fn epoch_elapsed_micros() -> Option<u128> {
    match since_epoch() {
        Some(d) => Some(whole_micros(&d)),
        None => None,
    }
}

/// Whole milliseconds of a clock reading in microseconds, truncated to 64
/// bits; 0 for a reading before the epoch (`None`).
pub open spec fn millis_of_reading(reading: Option<u128>) -> u64 {
    match reading {
        Some(us) => (us / 1000) as u64,
        None => 0,
    }
}

/// A clock reading in microseconds, capped at `u64::MAX`; 0 for a reading
/// before the epoch (`None`).
pub open spec fn capped_micros_of_reading(reading: Option<u128>) -> u64 {
    match reading {
        Some(us) => if us > u64::MAX as u128 {
            u64::MAX
        } else {
            us as u64
        },
        None => 0,
    }
}

/// Milliseconds of a reading of the wall clock in microseconds since the
/// epoch (`None` before the epoch).
pub fn millis_from_reading(reading: Option<u128>) -> (r: u64)
    ensures
        r == millis_of_reading(reading),
{
    match reading {
        Some(us) => {
            let ms: u128 = us / 1000;
            #[verifier::truncate]
            (ms as u64)
        },
        None => 0,
    }
}

/// Microseconds of a reading of the wall clock (`None` before the epoch),
/// capped at `u64::MAX`.
pub fn micros_from_reading(reading: Option<u128>) -> (r: u64)
    ensures
        r == capped_micros_of_reading(reading),
{
    match reading {
        Some(us) => if us > u64::MAX as u128 {
            u64::MAX
        } else {
            us as u64
        },
        None => 0,
    }
}

/// Milliseconds since the Unix epoch, truncated to 64 bits; 0 when the clock
/// reads a time before the epoch. The value is the time: nothing more is
/// stated of it than that `millis_from_reading` made it from a reading.
pub fn now_ms() -> u64 {
    millis_from_reading(epoch_elapsed_micros())
}

/// Microseconds since the Unix epoch, capped at `u64::MAX`; 0 when the clock
/// reads a time before the epoch. The value is the time: nothing more is
/// stated of it than that `micros_from_reading` made it from a reading.
pub fn unix_time_micros() -> u64 {
    micros_from_reading(epoch_elapsed_micros())
}

} // verus!
