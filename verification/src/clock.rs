//! The system clock.
//!
//! The clock is read in three steps, none of which can stop the process: the
//! standard library reads the system time and measures it from the Unix
//! epoch, and chrono turns the measure into whole milliseconds. What the
//! steps hand back is not trusted to be a time on the library's timeline;
//! [`unix_millis`] puts it there.

use crate::scan::SCAN_EPOCH;
use std::time::{Duration, SystemTime, UNIX_EPOCH};
use vstd::prelude::*;

verus! {

/// `std::time::SystemTime`, a reading of the system clock. Nothing of what it
/// holds is told.
#[verifier::external_type_specification]
#[verifier::external_body]
pub struct ExSystemTime(SystemTime);

/// Reads the system clock with `SystemTime::now`. Nothing is claimed of the
/// reading: two readings may differ in either direction.
#[verifier::external_body]
fn system_now() -> SystemTime {
    SystemTime::now()
}

/// The time from the Unix epoch to `reading`, measured with
/// `SystemTime::duration_since`, which gives an error in place of a measure
/// when the reading lies before the epoch; then the result is `None`.
/// Nothing is claimed of the measure.
#[verifier::external_body]
fn since_epoch(reading: &SystemTime) -> Option<Duration> {
    match reading.duration_since(UNIX_EPOCH) {
        Ok(measure) => Some(measure),
        Err(_) => None,
    }
}

/// The whole milliseconds in `measure`, taken with `chrono::TimeDelta::from_std`
/// and `TimeDelta::num_milliseconds`. `from_std` gives an error in place of a
/// `TimeDelta` when the measure is longer than a `TimeDelta` can hold; then
/// the result is `None`. Nothing is claimed of the number.
#[verifier::external_body]
fn millis_of(measure: Duration) -> Option<i64> {
    match chrono::TimeDelta::from_std(measure) {
        Ok(delta) => Some(delta.num_milliseconds()),
        Err(_) => None,
    }
}

/// The current time as a Unix timestamp in milliseconds, on the library's
/// timeline: a clock that reads before the epoch gives the epoch, and a
/// clock that reads later than can be told in milliseconds gives the latest
/// time. Two readings may differ in either direction.
pub(crate) fn unix_millis() -> (t: i64)
    ensures
        t >= SCAN_EPOCH,
{
    let reading = system_now();
    match since_epoch(&reading) {
        Some(measure) => match millis_of(measure) {
            Some(t) => if t < SCAN_EPOCH {
                SCAN_EPOCH
            } else {
                t
            },
            None => i64::MAX,
        },
        None => SCAN_EPOCH,
    }
}

} // verus!
