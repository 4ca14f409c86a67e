//! Points in time as seconds since the Unix epoch, written out with `chrono`.
use vstd::prelude::*;
use std::fmt::Write;

verus! {

/// Calls `chrono::Utc::now` and reads its `timestamp`: the current time in whole seconds
/// since the Unix epoch. Nothing is claimed of the value, which depends on the clock.
#[verifier::external_body]
pub(crate) fn now_timestamp() -> i64 {
    chrono::Utc::now().timestamp()
}

/// What `chrono` writes for the UTC time `secs` seconds after the Unix epoch under the
/// `strftime`-style pattern, or `None` where the time is out of `chrono`'s range or the
/// pattern is rejected.
pub uninterp spec fn utc_formatted(secs: i64, pattern: Seq<char>) -> Option<Seq<char>>;

/// What the `Debug` of `chrono::DateTime<Utc>` writes for the time `secs` seconds after the
/// Unix epoch, or `None` where the time is out of `chrono`'s range.
pub uninterp spec fn utc_debug(secs: i64) -> Option<Seq<char>>;

/// Calls `chrono::DateTime::from_timestamp` and writes the result with `format`. Claims
/// that the text is `utc_formatted` of the arguments.
#[verifier::external_body]
pub(crate) fn format_utc(secs: i64, pattern: &str) -> (r: Option<String>)
    ensures
        match r {
            Some(s) => utc_formatted(secs, pattern@) == Some(s@),
            None => utc_formatted(secs, pattern@) is None,
        },
{
    let t = chrono::DateTime::from_timestamp(secs, 0)?;
    let mut out = String::new();
    write!(out, "{}", t.format(pattern)).ok()?;
    Some(out)
}

/// Calls `chrono::DateTime::from_timestamp` and writes the result with its `Debug`. Claims
/// that the text is `utc_debug` of the argument.
#[verifier::external_body]
pub(crate) fn debug_utc(secs: i64) -> (r: Option<String>)
    ensures
        match r {
            Some(s) => utc_debug(secs) == Some(s@),
            None => utc_debug(secs) is None,
        },
{
    chrono::DateTime::from_timestamp(secs, 0).map(|t| format!("{:?}", t))
}

/// The time, in seconds since the Unix epoch, that `chrono` reads from a date-time text
/// such as `2016-08-01T12:00:00Z` when it parses it into a UTC date-time, or `None` where
/// it rejects the text.
pub uninterp spec fn utc_parsed(text: Seq<char>) -> Option<i64>;

/// Parses the text into a `chrono::DateTime<Utc>` with `str::parse`, as serde does for a
/// date-time field, and reads its `timestamp`. Claims that the result is `utc_parsed` of
/// the text.
#[verifier::external_body]
pub(crate) fn parse_utc(text: &str) -> (r: Option<i64>)
    ensures
        r == utc_parsed(text@),
{
    match text.parse::<chrono::DateTime<chrono::Utc>>() {
        Ok(t) => Some(t.timestamp()),
        Err(_) => None,
    }
}

/// Whole days from `then` to `now`, counted as `chrono` counts a duration's days (toward
/// zero), kept where they fit in a `u32` and `0` otherwise.
pub open spec fn days_since(now: i64, then: i64) -> u32 {
    let diff = now - then;
    if diff >= 0 && diff / 86400 <= u32::MAX {
        (diff / 86400) as u32
    } else {
        0
    }
}

/// Whole days from `then` to `now`; `0` where that is negative or does not fit in a `u32`.
pub fn days_between(now: i64, then: i64) -> (r: u32)
    ensures
        r == days_since(now, then),
{
    let diff: i128 = (now as i128) - (then as i128);
    if diff < 0 {
        return 0;
    }
    let days: i128 = diff / 86400;
    if days <= (u32::MAX as i128) {
        days as u32
    } else {
        0
    }
}

} // verus!
