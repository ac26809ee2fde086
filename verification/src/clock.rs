//! The system clock.
//!
//! What the clock reads is not known in advance. Of the values handed out here
//! it is stated that the clock gave them and what was made of what it gave;
//! everything that depends on the time takes it as an argument somewhere below.

use vstd::prelude::*;

verus! {

/// A moment of the system clock, `std::time::SystemTime`.
#[verifier::external_type_specification]
#[verifier::external_body]
pub struct ExSystemTime(std::time::SystemTime);

/// `std::time::SystemTime::now`: the current moment. Nothing is claimed of it.
pub assume_specification[ std::time::SystemTime::now ]() -> std::time::SystemTime
;

/// `std::time::Duration::as_secs`: the whole seconds of a duration. A duration
/// is opaque here, so nothing is claimed of the number.
pub assume_specification[ std::time::Duration::as_secs ](d: &std::time::Duration) -> u64
;

/// `std::time::Duration::default`: a duration of zero. A duration is opaque
/// here, so nothing is claimed of it.
pub assume_specification[ <std::time::Duration as Default>::default ]() -> std::time::Duration
;

/// `std::time::SystemTime::elapsed`: the time that has passed since `start`, or
/// nothing when the clock now stands before it. It depends on the clock, so
/// nothing is claimed of it.
#[verifier::external_body]
fn elapsed_since(start: &std::time::SystemTime) -> Option<std::time::Duration> {
    start.elapsed().ok()
}

/// `std::time::SystemTime::elapsed` of the Unix epoch: the time since then, or
/// nothing when the clock stands before it. It depends on the clock, so nothing
/// is claimed of it.
#[verifier::external_body]
fn elapsed_since_epoch() -> Option<std::time::Duration> {
    std::time::UNIX_EPOCH.elapsed().ok()
}

/// The time that has passed; a duration's default, zero, where the clock has
/// been set back.
pub fn elapsed_or_default(elapsed: Option<std::time::Duration>) -> (r: std::time::Duration)
    ensures
        match elapsed {
            Some(d) => r == d,
            None => call_ensures(<std::time::Duration as Default>::default, (), r),
        },
{
    match elapsed {
        Some(d) => d,
        None => <std::time::Duration as Default>::default(),
    }
}

/// The seconds that have passed, none where the clock has been set back.
pub fn seconds_or_zero(elapsed: Option<u64>) -> (r: u64)
    ensures
        r == (match elapsed {
            Some(secs) => secs,
            None => 0,
        }),
{
    match elapsed {
        Some(secs) => secs,
        None => 0,
    }
}

/// The seconds as a signed number.
pub fn signed_seconds(secs: u64) -> (r: i64)
    ensures
        r == secs as i64,
        secs <= i64::MAX ==> r == secs,
{
    secs as i64
}

/// The clock can give this as the present moment.
pub open spec fn clock_moment(t: std::time::SystemTime) -> bool {
    call_ensures(std::time::SystemTime::now, (), t)
}

/// The clock can give this as the seconds since the Unix epoch: the whole
/// seconds that have passed since then, or zero where it stands before.
pub closed spec fn clock_reads(secs: u64) -> bool {
    exists|elapsed: Option<std::time::Duration>|
        {
            &&& #[trigger] call_ensures(elapsed_since_epoch, (), elapsed)
            &&& match elapsed {
                Some(since) => call_ensures(std::time::Duration::as_secs, (&since,), secs),
                None => secs == 0,
            }
        }
}

/// The clock can give this as the time since `start`: the time that has passed
/// since then, or a duration's default where the clock stands before.
pub closed spec fn time_since(start: std::time::SystemTime, r: std::time::Duration) -> bool {
    exists|elapsed: Option<std::time::Duration>|
        {
            &&& #[trigger] call_ensures(elapsed_since, (&start,), elapsed)
            &&& match elapsed {
                Some(d) => r == d,
                None => call_ensures(<std::time::Duration as Default>::default, (), r),
            }
        }
}

/// The time since `start`, as the clock has it now.
pub(crate) fn time_passed(start: &std::time::SystemTime) -> (r: std::time::Duration)
    ensures
        time_since(*start, r),
{
    let elapsed = elapsed_since(start);
    elapsed_or_default(elapsed)
}

/// Seconds since the Unix epoch, as the clock has it now; zero where it stands
/// before the epoch. Which number that is rests with the clock.
pub fn unix_now() -> (r: u64)
    ensures
        clock_reads(r),
{
    let elapsed = elapsed_since_epoch();
    let secs: Option<u64> = match elapsed {
        Some(since) => Some(since.as_secs()),
        None => None,
    };
    seconds_or_zero(secs)
}

} // verus!
