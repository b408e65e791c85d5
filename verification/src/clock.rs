//! Wall-clock readings, reduced to milliseconds since the Unix epoch.

use std::time::{SystemTime, UNIX_EPOCH};
use vstd::prelude::*;

verus! {

#[verifier::external_type_specification]
#[verifier::external_body]
pub struct ExSystemTime(SystemTime);

/// Reads the system clock with `SystemTime::now`. Nothing is stated of the reading: it depends
/// on the machine and the moment of the call.
#[verifier::external_body]
fn system_now() -> SystemTime {
    SystemTime::now()
}

/// Measures `time` against the Unix epoch with `SystemTime::duration_since`, or `None` when
/// `time` lies before the epoch. Nothing is stated of the value: it depends on the reading.
#[verifier::external_body]
fn since_unix_epoch(time: SystemTime) -> Option<std::time::Duration> {
    match time.duration_since(UNIX_EPOCH) {
        Ok(elapsed) => Some(elapsed),
        Err(_) => None,
    }
}

/// The whole milliseconds of `elapsed` (`Duration::as_millis`). Nothing is stated: the
/// standard duration is opaque here.
#[verifier::external_body]
fn whole_millis(elapsed: std::time::Duration) -> u128 {
    elapsed.as_millis()
}

/// The timestamp recorded for a clock reading: the milliseconds since the epoch saturated to
/// `u64::MAX`, or `0` for a reading before the epoch.
pub open spec fn timestamp_of(reading: Option<u128>) -> u64 {
    match reading {
        Some(ms) => if ms > u64::MAX { u64::MAX } else { ms as u64 },
        None => 0,
    }
}

/// Turns a clock reading into a timestamp (see [`timestamp_of`]).
pub fn timestamp_from_reading(reading: Option<u128>) -> (ms: u64)
    ensures
        ms == timestamp_of(reading),
{
    match reading {
        Some(ms) => if ms > u64::MAX as u128 {
            u64::MAX
        } else {
            ms as u64
        },
        None => 0,
    }
}

/// Milliseconds since the Unix epoch, as read from the system clock now. Nothing is stated of
/// the value, which depends on the clock; the reading is turned into a timestamp by
/// [`timestamp_from_reading`].
pub fn now_unix_ms() -> u64 {
    let reading = match since_unix_epoch(system_now()) {
        Some(elapsed) => Some(whole_millis(elapsed)),
        None => None,
    };
    timestamp_from_reading(reading)
}

} // verus!
