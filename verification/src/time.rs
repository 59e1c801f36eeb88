use std::time::{Duration, SystemTime, SystemTimeError, UNIX_EPOCH};
use vstd::prelude::*;

verus! {

#[verifier::external_type_specification]
#[verifier::external_body]
pub struct ExSystemTime(SystemTime);

#[verifier::external_type_specification]
#[verifier::external_body]
pub struct ExSystemTimeError(SystemTimeError);

/// Calls `SystemTime::now`. The result is the machine's wall-clock time, so nothing is
/// stated of it.
#[verifier::external_body]
fn system_now() -> SystemTime {
    SystemTime::now()
}

/// Calls `SystemTime::duration_since` against `UNIX_EPOCH`. It fails when the clock reads
/// a time before the epoch; nothing is stated of the duration, which depends on the clock.
#[verifier::external_body]
fn since_unix_epoch(time: SystemTime) -> Result<Duration, SystemTimeError> {
    time.duration_since(UNIX_EPOCH)
}

/// Calls `Duration::as_millis`: the whole milliseconds of a duration. `Duration` is opaque
/// here, so nothing is stated of the number.
#[verifier::external_body]
fn whole_millis(duration: Duration) -> u128 {
    duration.as_millis()
}

/// Milliseconds since the UNIX epoch as a `u64`, from the whole milliseconds the clock
/// reported (`None` when it read a time before the epoch): 0 without a reading, the count
/// truncated to 64 bits otherwise.
pub open spec fn epoch_millis(reading: Option<u128>) -> u64 {
    match reading {
        Some(millis) => millis as u64,
        None => 0,
    }
}

/// Turns a clock reading in whole milliseconds since the epoch into the `u64` that
/// `now_ms` reports.
pub fn epoch_millis_u64(reading: Option<u128>) -> (ms: u64)
    ensures
        ms == epoch_millis(reading),
{
    match reading {
        Some(millis) => millis as u64,
        None => 0,
    }
}

/// The current time in milliseconds since the UNIX epoch: 0 when the clock reads a time
/// before the epoch, and the millisecond count truncated to 64 bits otherwise. The reading
/// comes from the machine's clock, so any `u64` is a possible result and none is stated.
pub fn now_ms() -> u64 {
    let reading: Option<u128> = match since_unix_epoch(system_now()) {
        Ok(duration) => Some(whole_millis(duration)),
        Err(_) => None,
    };
    epoch_millis_u64(reading)
}

} // verus!
