//! The wall clock, read as milliseconds since the UNIX epoch.
use std::time::{Duration, SystemTime, SystemTimeError, UNIX_EPOCH};
use vstd::prelude::*;

verus! {

/// `std::time::SystemTime`, a point on the system clock. Opaque here.
#[verifier::external_type_specification]
#[verifier::external_body]
pub struct ExSystemTime(SystemTime);

/// `std::time::SystemTimeError`, the error of `SystemTime::duration_since`.
/// Opaque here.
#[verifier::external_type_specification]
#[verifier::external_body]
pub struct ExSystemTimeError(SystemTimeError);

/// `SystemTime::now` reads the system clock. Nothing is promised of the reading.
pub assume_specification[ SystemTime::now ]() -> SystemTime;

/// `Duration::as_millis` gives the whole milliseconds in a duration. No caller
/// relies on more than the type of the result.
pub assume_specification[ Duration::as_millis ](duration: &Duration) -> u128;

/// `SystemTime::duration_since` with `UNIX_EPOCH` as the earlier point: the time
/// elapsed from the epoch to `now`, or the error when `now` lies before the epoch.
/// Nothing is promised of the outcome.
#[verifier::external_body]
fn since_epoch(now: &SystemTime) -> Result<Duration, SystemTimeError> {
    now.duration_since(UNIX_EPOCH)
}

/// Why the clock could not be read.
#[derive(Debug, Clone, Copy, PartialEq, Eq, Structural)]
pub enum ClockError {
    /// The system clock is set to a time before the UNIX epoch.
    BeforeEpoch,
}

/// The low 64 bits of a millisecond count.
pub fn low_u64(millis: u128) -> (low: u64)
    ensures
        low == millis % 0x1_0000_0000_0000_0000,
{
    assert(millis as u64 == millis % 0x1_0000_0000_0000_0000) by (bit_vector);
    #[verifier::truncate]
    (millis as u64)
}

/// Reads the clock: milliseconds since the UNIX epoch, or the error when the
/// clock is set before the epoch.
pub(crate) fn unix_millis() -> Result<u64, ClockError> {
    let now = SystemTime::now();
    match since_epoch(&now) {
        Ok(elapsed) => reading(Ok(elapsed.as_millis())),
        Err(e) => reading(Err(e)),
    }
}

/// What the clock is taken to read, given the time elapsed since the UNIX epoch
/// in milliseconds or the error that the clock is set before the epoch: the low
/// 64 bits of the count, or [`ClockError::BeforeEpoch`].
pub fn reading(elapsed: Result<u128, SystemTimeError>) -> (read: Result<u64, ClockError>)
    ensures
        match elapsed {
            Ok(millis) => read == Ok::<u64, ClockError>(
                (millis % 0x1_0000_0000_0000_0000) as u64,
            ),
            Err(_) => read == Err::<u64, ClockError>(ClockError::BeforeEpoch),
        },
{
    match elapsed {
        Ok(millis) => Ok(low_u64(millis)),
        Err(_) => Err(ClockError::BeforeEpoch),
    }
}

} // verus!
