use vstd::prelude::*;
use crate::arith::{tdiv, lemma_tdiv_bounds};
use core::time::Duration;
use std::time::{SystemTime, SystemTimeError};

verus! {

/// `std::time::SystemTime`, an instant of the system clock.
#[verifier::external_type_specification]
#[verifier::external_body]
pub struct ExSystemTime(SystemTime);

/// `std::time::SystemTimeError`, the error of an instant before another.
#[verifier::external_type_specification]
#[verifier::external_body]
pub struct ExSystemTimeError(SystemTimeError);

/// `SystemTime::now`: the clock's present instant. Nothing is claimed of it.
#[verifier::external_body]
fn system_time_now() -> SystemTime {
    SystemTime::now()
}

/// `SystemTime::duration_since(UNIX_EPOCH)`: how long after the Unix epoch
/// the instant lies, or an error for an instant before it. Nothing is
/// claimed of which comes back: the instant is opaque here.
#[verifier::external_body]
fn since_unix_epoch(time: &SystemTime) -> Result<Duration, SystemTimeError> {
    time.duration_since(std::time::UNIX_EPOCH)
}

/// `Duration::as_millis`: the whole milliseconds of a duration. Nothing is
/// claimed of the number: the duration is opaque here.
#[verifier::external_body]
fn duration_millis(duration: &Duration) -> u128 {
    duration.as_millis()
}

/// `millis` milliseconds expressed in units of `timescale` per second.
pub open spec fn millis_to_timescale(millis: int, timescale: int) -> int {
    tdiv(millis * timescale, 1000)
}

/// Converts `millis` milliseconds to units of `timescale` per second.
pub fn scale_millis(millis: i64, timescale: i64) -> (res: i64)
    requires
        i64::MIN <= millis * timescale <= i64::MAX,
    ensures
        res == millis_to_timescale(millis as int, timescale as int),
{
    proof {
        lemma_tdiv_bounds(millis * timescale, 1000);
    }
    millis * timescale / 1000
}

/// The present time in units of `timescale` per second since the Unix
/// epoch, from `reading`, the clock's whole milliseconds since the epoch
/// (`None` where the clock lies before the epoch): the milliseconds are cut to
/// an `i64`, then scaled; `None` where the clock gave no reading or the
/// scaling overflows.
pub open spec fn clock_in_timescale(reading: Option<u128>, timescale: int) -> Option<i64> {
    match reading {
        None => None,
        Some(millis) => {
            let m = millis as i64;
            if i64::MIN <= m * timescale <= i64::MAX {
                Some(millis_to_timescale(m as int, timescale) as i64)
            } else {
                None
            }
        },
    }
}

/// The present time in units of `timescale`, from the clock's reading.
pub fn timescale_from_clock(reading: Option<u128>, timescale: i64) -> (res: Option<i64>)
    ensures
        res == clock_in_timescale(reading, timescale as int),
{
    match reading {
        None => None,
        Some(millis) => {
            let m = #[verifier::truncate] (millis as i64);
            match m.checked_mul(timescale) {
                Some(_) => {
                    proof {
                        lemma_tdiv_bounds(m * timescale, 1000);
                    }
                    Some(scale_millis(m, timescale))
                },
                None => None,
            }
        },
    }
}

/// The present time, in units of `timescale` per second since the Unix
/// epoch; `None` where the clock lies before the epoch or the product of its
/// milliseconds (cut to an `i64`) and `timescale` overflows.
pub fn now_in_timescale(timescale: i64) -> (res: Option<i64>)
    ensures
        exists|reading: Option<u128>| res == #[trigger] clock_in_timescale(reading, timescale as int),
        res matches Some(now) ==> exists|millis: i64|
            i64::MIN <= millis * timescale <= i64::MAX && now == millis_to_timescale(millis as int, timescale as int),
{
    let time = system_time_now();
    let reading = match since_unix_epoch(&time) {
        Ok(duration) => Some(duration_millis(&duration)),
        Err(_) => None,
    };
    let res = timescale_from_clock(reading, timescale);
    proof {
        if let Some(millis) = reading {
            let m = millis as i64;
            if res is Some {
                assert(i64::MIN <= m * timescale <= i64::MAX && res->0 == millis_to_timescale(m as int, timescale as int));
            }
        }
    }
    res
}

} // verus!
