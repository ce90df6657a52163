//! Reading the wall clock.

use std::time::{Duration, SystemTime, SystemTimeError};
use vstd::prelude::*;

verus! {

/// A point in time as the operating system reports it.
#[verifier::external_type_specification]
#[verifier::external_body]
pub struct ExSystemTime(SystemTime);

/// Why one point in time does not lie after another.
#[verifier::external_type_specification]
#[verifier::external_body]
pub struct ExSystemTimeError(SystemTimeError);

/// How many nanoseconds a duration holds.
pub uninterp spec fn duration_nanos(d: Duration) -> nat;

/// `Duration::as_nanos` is the whole duration in nanoseconds.
pub assume_specification[ Duration::as_nanos ](d: &Duration) -> (r: u128)
    ensures
        r == duration_nanos(*d),
;

/// `Duration::as_secs` is the number of whole seconds in the duration.
pub assume_specification[ Duration::as_secs ](d: &Duration) -> (r: u64)
    ensures
        r == duration_nanos(*d) / 1_000_000_000,
;

/// `SystemTime::now` reads the clock. Nothing can be said of the time it finds.
pub assume_specification[ SystemTime::now ]() -> SystemTime
;

/// How many nanoseconds after the Unix epoch a point in time lies; `None` of
/// one that lies before it.
pub uninterp spec fn epoch_nanos(t: SystemTime) -> Option<nat>;

/// `SystemTime::duration_since`, counted from the Unix epoch, is how far the
/// point in time lies after the epoch. It is an error exactly when the point
/// lies before it.
#[verifier::external_body]
fn since_unix_epoch(t: &SystemTime) -> (r: Result<Duration, SystemTimeError>)
    ensures
        match r {
            Ok(elapsed) => epoch_nanos(*t) == Some(duration_nanos(elapsed)),
            Err(_) => epoch_nanos(*t) is None,
        },
{
    t.duration_since(SystemTime::UNIX_EPOCH)
}

/// How many nanoseconds a reading of the clock is after the Unix epoch.
pub open spec fn elapsed(reading: Option<Duration>) -> Option<nat> {
    match reading {
        Some(d) => Some(duration_nanos(d)),
        None => None,
    }
}

/// How long after the Unix epoch a point in time lies, or `None` of one that
/// lies before it.
pub fn reading_of(t: &SystemTime) -> (r: Option<Duration>)
    ensures
        elapsed(r) == epoch_nanos(*t),
{
    match since_unix_epoch(t) {
        Ok(elapsed) => Some(elapsed),
        Err(_) => None,
    }
}

/// How long after the Unix epoch it is now, or `None` on a clock that is set
/// before it. What the clock says is up to whoever set it.
pub fn now() -> (r: Option<Duration>)
    ensures
        exists|t: SystemTime| elapsed(r) == #[trigger] epoch_nanos(t),
{
    let t = SystemTime::now();
    reading_of(&t)
}

/// The whole seconds in this many nanoseconds after the epoch, unsigned; 0
/// before it.
pub open spec fn whole_seconds(nanos: Option<nat>) -> u64 {
    match nanos {
        Some(n) => (n / 1_000_000_000) as u64,
        None => 0,
    }
}

/// The nanoseconds after the epoch; 0 before it.
pub open spec fn whole_nanos(nanos: Option<nat>) -> nat {
    match nanos {
        Some(n) => n,
        None => 0,
    }
}

/// Whole seconds in a reading of the clock.
pub fn seconds(reading: Option<Duration>) -> (r: u64)
    ensures
        r == whole_seconds(elapsed(reading)),
{
    match reading {
        Some(elapsed) => elapsed.as_secs(),
        None => 0,
    }
}

/// Nanoseconds in a reading of the clock.
pub fn nanoseconds(reading: Option<Duration>) -> (r: u128)
    ensures
        r == whole_nanos(elapsed(reading)),
{
    match reading {
        Some(elapsed) => elapsed.as_nanos(),
        None => 0,
    }
}

} // verus!
