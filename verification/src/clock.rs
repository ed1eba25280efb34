//! The wall clock, reduced to the absolute hour that counters are bucketed by.

use vstd::prelude::*;

verus! {

/// Length of one bucket, in seconds.
pub const SECONDS_PER_HOUR: u64 = 3600;

/// Why a reading of the wall clock cannot be used.
#[derive(Clone, Copy, Debug, PartialEq, Eq, Structural)]
pub enum ClockError {
    /// The system clock reads a moment before the Unix epoch.
    BeforeEpoch,
    /// The clock reads an hour earlier than one that was already recorded.
    Regression,
}

/// The absolute hour that holds the moment `secs` seconds after the epoch.
pub open spec fn hour_at(secs: u64) -> u64 {
    (secs / SECONDS_PER_HOUR) as u64
}

/// Turns seconds since the epoch into the index of the hour that holds them.
pub fn hour_of(secs: u64) -> (hour: u64)
    ensures
        hour == hour_at(secs),
        hour * SECONDS_PER_HOUR <= secs < (hour + 1) * SECONDS_PER_HOUR,
{
    secs / SECONDS_PER_HOUR
}

/// Whole seconds that the system clock counts since the Unix epoch, read
/// through `std::time::SystemTime::elapsed` on `UNIX_EPOCH` and
/// `Duration::as_secs`. `None` stands for the error that `elapsed` gives when
/// the clock is set before the epoch. Nothing is claimed of the number: it is
/// whatever the clock says at the moment of the call.
#[verifier::external_body]
fn epoch_seconds() -> (secs: Option<u64>) {
    match std::time::UNIX_EPOCH.elapsed() {
        Ok(since) => Some(since.as_secs()),
        Err(_) => None,
    }
}

/// The hour that the wall clock is in now, or `BeforeEpoch` when the clock is
/// set before the Unix epoch. Two calls may differ; whatever the clock says,
/// the result is what `hour_reading` makes of it.
pub fn current_hour() -> (hour: Result<u64, ClockError>)
    ensures
        is_reading(hour),
{
    let secs = epoch_seconds();
    hour_reading(secs)
}

/// What a look at the clock gives: the hour that holds the seconds counted
/// since the epoch, or `BeforeEpoch` where the clock has none to count.
pub open spec fn reading_of(secs: Option<u64>) -> Result<u64, ClockError> {
    match secs {
        Some(count) => Ok(hour_at(count)),
        None => Err(ClockError::BeforeEpoch),
    }
}

/// `reading` is what some state of the clock gives: an hour that a number of
/// seconds lies in, or `BeforeEpoch`.
pub open spec fn is_reading(reading: Result<u64, ClockError>) -> bool {
    exists|secs: Option<u64>| reading == #[trigger] reading_of(secs)
}

/// Turns what the clock counts into a reading: the hour of the seconds, or
/// `BeforeEpoch` where there are none.
pub fn hour_reading(secs: Option<u64>) -> (reading: Result<u64, ClockError>)
    ensures
        reading == reading_of(secs),
        is_reading(reading),
{
    match secs {
        Some(count) => Ok(hour_of(count)),
        None => Err(ClockError::BeforeEpoch),
    }
}

} // verus!
