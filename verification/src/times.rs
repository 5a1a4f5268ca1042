//! Points in time, counted in nanoseconds since the Unix epoch.

use headers::{Expires, Header, HeaderValue, LastModified};
use std::time::{Duration, SystemTime, UNIX_EPOCH};
use vstd::prelude::*;

verus! {

/// Nanoseconds in a second.
pub const SECOND: u128 = 1_000_000_000;

/// The first point in time that is too late for a date in a header: the start of the year 10000.
pub const END_OF_DATES: i128 = 253_402_300_800_000_000_000;

/// The first point in time that there is for the machine, whose seconds are counted in 64 bits with
/// a sign.
pub const FIRST_TIME: i128 = -9_223_372_036_854_775_808_000_000_000;

/// The last point in time that there is for the machine.
pub const LAST_TIME: i128 = 9_223_372_036_854_775_807_999_999_999;

/// Whether there is a point in time for the machine.
pub open spec fn is_time(time: int) -> bool {
    FIRST_TIME <= time <= LAST_TIME
}

/// Whether a clock can show a point in time: the whole seconds between it and the Unix epoch fit in
/// 64 bits.
pub open spec fn is_reading(time: int) -> bool {
    -(u64::MAX + 1) * SECOND < time < (u64::MAX + 1) * SECOND
}

/// Whether a point in time has a date in a header: it is not before the Unix epoch, and not past
/// the year 9999.
pub open spec fn has_date(time: int) -> bool {
    0 <= time < END_OF_DATES
}

/// The `Expires` header of a point in time, given in whole seconds since the Unix epoch.
pub uninterp spec fn expires_header(secs: u64) -> Seq<char>;

/// The `Last-Modified` header of a point in time, given in whole seconds since the Unix epoch.
pub uninterp spec fn last_modified_header(secs: u64) -> Seq<char>;

/// `Expires::from` of a time, and its text: a date that leaves fractions of a second out.
#[verifier::external_body]
pub(crate) fn write_expires(secs: u64, nanos: u32) -> (text: String)
    requires
        secs < 253_402_300_800,
        nanos < 1_000_000_000,
    ensures
        text@ == expires_header(secs),
{
    let mut values: Vec<HeaderValue> = Vec::new();
    Expires::from(UNIX_EPOCH + Duration::new(secs, nanos)).encode(&mut values);
    String::from_utf8_lossy(values[0].as_bytes()).into_owned()
}

/// `LastModified::from` of a time, and its text: a date that leaves fractions of a second out.
#[verifier::external_body]
pub(crate) fn write_last_modified(secs: u64, nanos: u32) -> (text: String)
    requires
        secs < 253_402_300_800,
        nanos < 1_000_000_000,
    ensures
        text@ == last_modified_header(secs),
{
    let mut values: Vec<HeaderValue> = Vec::new();
    LastModified::from(UNIX_EPOCH + Duration::new(secs, nanos)).encode(&mut values);
    String::from_utf8_lossy(values[0].as_bytes()).into_owned()
}

/// `SystemTime::now` and `SystemTime::duration_since`: the seconds and nanoseconds since the Unix
/// epoch, or, as an error, those up to it if the clock stands before it.
#[verifier::external_body]
fn system_time() -> (clock: Result<(u64, u32), (u64, u32)>)
    ensures
        clock matches Ok((_, nanos)) ==> nanos < 1_000_000_000,
        clock matches Err((_, nanos)) ==> nanos < 1_000_000_000,
{
    match SystemTime::now().duration_since(UNIX_EPOCH) {
        Ok(since) => Ok((since.as_secs(), since.subsec_nanos())),
        Err(error) => Err((error.duration().as_secs(), error.duration().subsec_nanos())),
    }
}

/// The current time.
pub fn now() -> (time: i128)
    ensures
        is_reading(time as int),
{
    since_epoch(system_time())
}

/// The time that a clock shows, from its seconds and nanoseconds since the Unix epoch or, as an
/// error, from those up to it.
pub fn since_epoch(clock: Result<(u64, u32), (u64, u32)>) -> (time: i128)
    ensures
        time == (match clock {
            Ok((secs, nanos)) => secs * SECOND + nanos,
            Err((secs, nanos)) => -(secs * SECOND + nanos),
        }),
{
    match clock {
        Ok((secs, nanos)) => secs as i128 * SECOND as i128 + nanos as i128,
        Err((secs, nanos)) => -(secs as i128 * SECOND as i128 + nanos as i128),
    }
}

/// The whole seconds of a span of time, and the nanoseconds left over.
pub fn split(span: u128) -> (parts: (u64, u32))
    requires
        span / SECOND <= u64::MAX,
    ensures
        parts.0 == span / SECOND,
        parts.1 == span % SECOND,
{
    ((span / SECOND) as u64, (span % SECOND) as u32)
}

/// How a point in time is reached from the Unix epoch: by so many seconds back, or so many forward,
/// and by so many nanoseconds forward then.
pub(crate) fn from_epoch(time: i128) -> (way: (u64, u64, u32))
    requires
        is_time(time as int),
    ensures
        way.0 == 0 || way.1 == 0,
        way.0 <= 0x8000_0000_0000_0000,
        way.1 < 0x8000_0000_0000_0000,
        way.2 < 1_000_000_000,
        time == (way.1 - way.0) * SECOND + way.2,
{
    if time < 0 {
        let span: u128 = (-time) as u128;
        let back: u128 = (span + (SECOND - 1)) / SECOND;
        (back as u64, 0, (back * SECOND - span) as u32)
    } else {
        let (forward, nanos) = split(time as u128);
        (0, forward, nanos)
    }
}

} // verus!
