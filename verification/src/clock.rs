//! The system clock, read once per use, and what is computed from it.
use vstd::prelude::*;

verus! {

/// std's `SystemTime`, carried through as an opaque value.
#[verifier::external_type_specification]
#[verifier::external_body]
pub struct ExSystemTime(std::time::SystemTime);

/// std's `SystemTimeError`, carried through as an opaque value.
#[verifier::external_type_specification]
#[verifier::external_body]
pub struct ExSystemTimeError(std::time::SystemTimeError);

/// The current time on the system clock (`SystemTime::now`). It depends on
/// the moment of the call, so nothing is stated of it.
#[verifier::external_body]
fn system_now() -> std::time::SystemTime {
    std::time::SystemTime::now()
}

/// The time elapsed from the Unix epoch to `t`
/// (`SystemTime::duration_since(UNIX_EPOCH)`), an error where `t` is before
/// the epoch. Nothing is stated of the value, which depends on `t` alone
/// but is opaque here.
#[verifier::external_body]
fn since_epoch(
    t: &std::time::SystemTime,
) -> Result<std::time::Duration, std::time::SystemTimeError> {
    t.duration_since(std::time::UNIX_EPOCH)
}

/// The whole milliseconds of `d` (`Duration::as_millis`); `Duration` is
/// opaque here, so nothing is stated of the value.
#[verifier::external_body]
fn whole_millis(d: &std::time::Duration) -> u128 {
    d.as_millis()
}

/// Milliseconds since the Unix epoch on the system clock, or `None` when
/// the clock is set before the epoch. The value depends on the moment of
/// the call, so nothing is stated of it.
pub(crate) fn clock_millis() -> Option<u128> {
    let now = system_now();
    match since_epoch(&now) {
        Ok(d) => Some(whole_millis(&d)),
        Err(_) => None,
    }
}

/// A clock reading in milliseconds, 0 where the clock is before the epoch.
pub open spec fn millis_or_zero(reading: Option<u128>) -> u128 {
    match reading {
        Some(ms) => ms,
        None => 0,
    }
}

/// A clock reading in whole seconds, as a signed 64-bit value.
pub open spec fn seconds_of(reading: Option<u128>) -> i64 {
    match reading {
        Some(ms) => (ms / 1000) as i64,
        None => 0,
    }
}

/// The milliseconds of a clock reading, 0 where the clock is before the epoch.
pub fn millis_from(reading: Option<u128>) -> (ms: u128)
    ensures
        ms == millis_or_zero(reading),
{
    match reading {
        Some(ms) => ms,
        None => 0,
    }
}

/// The whole seconds of a clock reading, 0 where the clock is before the epoch.
pub fn seconds_from(reading: Option<u128>) -> (s: i64)
    ensures
        s == seconds_of(reading),
{
    match reading {
        Some(ms) => (ms / 1000) as i64,
        None => 0,
    }
}

} // verus!
