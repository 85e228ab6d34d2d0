//! The wall clock, as seconds since the Unix epoch.
//!
//! Nothing is assumed about what the clock shows: two readings may differ in
//! either direction. Every operation that needs the time also comes in a
//! form that takes it as an argument.

use vstd::prelude::*;

verus! {

/// `std::time::SystemTime`, a reading of the system clock. Nothing is known
/// of what a value holds.
#[verifier::external_type_specification]
#[verifier::external_body]
pub struct ExSystemTime(std::time::SystemTime);

/// `std::time::SystemTimeError`, the error of `SystemTime::duration_since`.
/// Nothing is known of what a value holds.
#[verifier::external_type_specification]
#[verifier::external_body]
pub struct ExSystemTimeError(std::time::SystemTimeError);

/// `SystemTime::now` reads the system clock. Nothing is claimed about the
/// value it returns.
pub assume_specification[ std::time::SystemTime::now ]() -> (t: std::time::SystemTime);

/// `SystemTime::duration_since` measures the time from `earlier` to `t`, or
/// reports that `earlier` is the later of the two. Nothing is claimed about
/// which of the two it returns, nor about the amount.
pub assume_specification[ std::time::SystemTime::duration_since ](
    t: &std::time::SystemTime,
    earlier: std::time::SystemTime,
) -> (r: Result<std::time::Duration, std::time::SystemTimeError>);

/// `Duration::as_secs` gives the whole seconds of a duration. Nothing is
/// claimed about the number.
pub assume_specification[ std::time::Duration::as_secs ](d: &std::time::Duration) -> (s: u64);

/// The constant `std::time::UNIX_EPOCH`. Nothing is claimed about it.
#[verifier::external_body]
fn unix_epoch() -> (t: std::time::SystemTime) {
    std::time::UNIX_EPOCH
}

/// The current time in whole seconds since the Unix epoch, or `None` if the
/// clock stands before the epoch or the seconds do not fit an `i64`.
pub fn unix_seconds() -> (r: Option<i64>)
    ensures
        r matches Some(t) ==> t >= 0,
{
    let now = std::time::SystemTime::now();
    match now.duration_since(unix_epoch()) {
        Ok(elapsed) => timestamp_from_secs(elapsed.as_secs()),
        Err(_) => None,
    }
}

/// The timestamp for a clock that stands `seconds` whole seconds after the
/// epoch: the same number, unless it is more than an `i64` holds.
pub fn timestamp_from_secs(seconds: u64) -> (r: Option<i64>)
    ensures
        r == if seconds <= i64::MAX {
            Some(seconds as i64)
        } else {
            None::<i64>
        },
{
    if seconds <= 0x7fff_ffff_ffff_ffff {
        Some(seconds as i64)
    } else {
        None
    }
}

} // verus!
