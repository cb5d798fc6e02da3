//! The wall clock, in milliseconds since the Unix epoch.
use std::time::{Duration, SystemTime, SystemTimeError, UNIX_EPOCH};
use vstd::prelude::*;

verus! {

#[verifier::external_type_specification]
#[verifier::external_body]
pub struct ExSystemTime(SystemTime);

#[verifier::external_type_specification]
#[verifier::external_body]
pub struct ExSystemTimeError(SystemTimeError);

/// `SystemTime::now`: the current time; nothing is promised of it.
#[verifier::external_body]
fn system_now() -> SystemTime {
    SystemTime::now()
}

/// `SystemTime::duration_since` with `UNIX_EPOCH`: the time elapsed since
/// the epoch, or an error when `t` lies before it. Which one comes back is
/// left unsaid: it depends on the clock.
#[verifier::external_body]
fn since_unix_epoch(t: &SystemTime) -> Result<Duration, SystemTimeError> {
    t.duration_since(UNIX_EPOCH)
}

/// `Duration::as_millis`: the whole milliseconds of `d`. A `Duration` is
/// opaque here, so nothing is stated of the number.
#[verifier::external_body]
fn whole_millis(d: &Duration) -> u128 {
    d.as_millis()
}

/// What is made of a reading of the clock: the whole milliseconds since the
/// Unix epoch cut to their low 64 bits, or `None` for a reading before the
/// epoch.
pub open spec fn millis_of(reading: Option<u128>) -> Option<u64> {
    match reading {
        Some(ms) => Some(ms as u64),
        None => None,
    }
}

/// Turns a clock reading in milliseconds (`None` before the epoch) into the
/// 64-bit time that the program works with.
pub fn epoch_millis(reading: Option<u128>) -> (r: Option<u64>)
    ensures
        r == millis_of(reading),
{
    match reading {
        Some(ms) => Some(#[verifier::truncate] (ms as u64)),
        None => None,
    }
}

/// The current time in milliseconds since the Unix epoch, cut to 64 bits;
/// `None` when the clock reads a time before the epoch: `epoch_millis` of
/// the clock's reading. The reading is the clock's to say, so nothing is
/// stated of the result here.
pub fn now_millis() -> Option<u64> {
    let reading = match since_unix_epoch(&system_now()) {
        Ok(d) => Some(whole_millis(&d)),
        Err(_) => None,
    };
    epoch_millis(reading)
}

} // verus!
