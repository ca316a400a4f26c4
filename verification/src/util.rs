//! The clock.

use vstd::prelude::*;
use std::time::{Duration, SystemTime, SystemTimeError};

verus! {

/// `std::time::SystemTime`, a reading of the system clock.
#[verifier::external_type_specification]
#[verifier::external_body]
pub struct ExSystemTime(SystemTime);

/// `std::time::SystemTimeError`, by how much a time lies before another.
#[verifier::external_type_specification]
#[verifier::external_body]
pub struct ExSystemTimeError(SystemTimeError);

/// `SystemTime::now` reads the system clock. Nothing is known of what it
/// returns.
pub assume_specification[ SystemTime::now ]() -> (now: SystemTime)
;

/// The time from the start of 1970 in UTC to a reading of the clock, or by
/// how much the reading lies before that.
pub uninterp spec fn since_epoch(time: SystemTime) -> Result<Duration, SystemTimeError>;

/// `SystemTime::duration_since`, asked for the time since `UNIX_EPOCH`. It
/// gives the time between the two, or an error where the reading is the
/// earlier one. The result depends on the reading alone: `since_epoch` names
/// it.
#[verifier::external_body]
fn time_since_epoch(time: &SystemTime) -> (elapsed: Result<Duration, SystemTimeError>)
    ensures
        elapsed == since_epoch(*time),
{
    time.duration_since(std::time::UNIX_EPOCH)
}

/// The whole milliseconds that a duration holds.
pub uninterp spec fn whole_millis(duration: Duration) -> u128;

/// `Duration::as_millis` gives the whole milliseconds that the duration
/// holds. Nothing is proved of it: `whole_millis` names the result.
pub assume_specification[ Duration::as_millis ](duration: &Duration) -> (millis: u128)
    ensures
        millis == whole_millis(*duration),
;

/// The milliseconds of the time since the start of 1970; zero for a time
/// before that.
pub open spec fn millis_of(elapsed: Result<Duration, SystemTimeError>) -> u128 {
    match elapsed {
        Ok(elapsed) => whole_millis(elapsed),
        Err(_) => 0,
    }
}

/// Turns the time since the start of 1970 into milliseconds.
pub fn elapsed_millis(elapsed: Result<Duration, SystemTimeError>) -> (millis: u128)
    ensures
        millis == millis_of(elapsed),
{
    match elapsed {
        Ok(elapsed) => elapsed.as_millis(),
        Err(_) => 0,
    }
}

/// Whether a time is what some reading of the clock shows: the milliseconds
/// from the start of 1970 to the reading, or zero for a reading before that.
pub open spec fn shown_by_clock(millis: u128) -> bool {
    exists|now: SystemTime| millis == millis_of(#[trigger] since_epoch(now))
}

/// The milliseconds since the start of 1970 by the system clock: those of
/// the time from then to one reading of the clock, and zero where the
/// reading lies before that.
pub fn current_time_millis() -> (millis: u128)
    ensures
        shown_by_clock(millis),
{
    let now = SystemTime::now();
    elapsed_millis(time_since_epoch(&now))
}

} // verus!
