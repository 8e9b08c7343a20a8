//! The current time, as commits and agents record it.

use vstd::prelude::*;

verus! {

/// The timestamp for a number of milliseconds since the UNIX epoch: that
/// number, at most the largest timestamp there is.
pub open spec fn timestamp_of(millis: u128) -> i64 {
    if millis <= i64::MAX as u128 {
        millis as i64
    } else {
        i64::MAX
    }
}

/// The type of a reading of the system clock, `std::time::SystemTime`.
/// Nothing is known of what a value of it holds.
#[verifier::external_type_specification]
#[verifier::external_body]
pub struct ExSystemTime(std::time::SystemTime);

/// Calls `std::time::SystemTime::now`. Nothing is claimed of the reading.
#[verifier::external_body]
fn system_now() -> std::time::SystemTime {
    std::time::SystemTime::now()
}

/// Calls `std::time::SystemTime::duration_since` with the UNIX epoch: the
/// time since the epoch, or nothing where the reading lies before it.
/// Nothing is claimed of the result.
#[verifier::external_body]
fn since_epoch(reading: &std::time::SystemTime) -> Option<std::time::Duration> {
    reading.duration_since(std::time::UNIX_EPOCH).ok()
}

/// Calls `std::time::Duration::as_millis`. Nothing is claimed of the
/// result.
#[verifier::external_body]
fn whole_millis(elapsed: &std::time::Duration) -> u128 {
    elapsed.as_millis()
}

/// The milliseconds since the UNIX epoch by the system clock, or nothing
/// where the clock stands before it.
fn unix_millis() -> Option<u128> {
    let reading = system_now();
    match since_epoch(&reading) {
        Some(elapsed) => Some(whole_millis(&elapsed)),
        None => None,
    }
}

/// The timestamp for a number of milliseconds since the UNIX epoch.
pub fn timestamp_from(millis: u128) -> (r: i64)
    ensures
        r == timestamp_of(millis),
{
    if millis <= i64::MAX as u128 {
        millis as i64
    } else {
        i64::MAX
    }
}

/// The current timestamp in milliseconds since the UNIX epoch. It is
/// never negative. Where the clock stands before the epoch, there is
/// none.
pub fn now() -> (r: Option<i64>)
    ensures
        r matches Some(t) ==> t >= 0,
{
    match unix_millis() {
        Some(millis) => Some(timestamp_from(millis)),
        None => None,
    }
}

} // verus!
