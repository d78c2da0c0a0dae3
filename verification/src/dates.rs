//! Dates: how times are shown, and days as seconds since the epoch.
use crate::text::opt_text;
use chrono::Datelike;
use vstd::prelude::*;

verus! {

/// The day number of 1970-01-01, counted from the first day of the year 1.
pub const EPOCH_DAY: i64 = 719_163;

/// The number of the last day that a calendar date can name.
pub const LAST_DAY: i64 = 95_745_399;

/// How a time in seconds since the epoch is shown by a pattern, in UTC; none
/// where the time is out of the calendar's range.
pub uninterp spec fn utc_shown(ts: i64, pattern: Seq<char>) -> Option<Seq<char>>;

/// The number of the day that a `YYYY-MM-DD` text names, counted from the first
/// day of the year 1; none where it names no day.
pub uninterp spec fn ymd_day(s: Seq<char>) -> Option<i32>;

/// `chrono::DateTime::from_timestamp` and the `format` of its result: the time
/// in UTC as the pattern shows it. The patterns admitted are ones that `format`
/// writes without failing.
#[verifier::external_body]
fn utc_text(ts: i64, pattern: &str) -> (r: Option<String>)
    requires
        pattern@ == "%Y-%m-%d"@ || pattern@ == "%Y-%m-%d %H:%M"@ || pattern@
            == "%Y-%m-%d %H:%M:%S"@,
    ensures
        opt_text(r) == utc_shown(ts, pattern@),
{
    chrono::DateTime::from_timestamp(ts, 0).map(|d| d.format(pattern).to_string())
}

/// `chrono::NaiveDate::parse_from_str` by the pattern `%Y-%m-%d`, the date as
/// its `num_days_from_ce`, which lies between the first and the last day that
/// the calendar has.
#[verifier::external_body]
fn parse_day(s: &str) -> (r: Option<i32>)
    ensures
        r == ymd_day(s@),
        r is Some ==> r->0 <= LAST_DAY,
{
    chrono::NaiveDate::parse_from_str(s, "%Y-%m-%d").ok().map(|d| d.num_days_from_ce())
}

/// A time by a pattern; nothing where the calendar does not reach.
pub open spec fn shown_or_empty(ts: i64, pattern: Seq<char>) -> Seq<char> {
    match utc_shown(ts, pattern) {
        Some(s) => s,
        None => Seq::empty(),
    }
}

/// Shows a time to the day; nothing where the calendar does not reach.
pub fn fmt_ts(ts: i64) -> (r: String)
    ensures
        r@ == shown_or_empty(ts, "%Y-%m-%d"@),
{
    match utc_text(ts, "%Y-%m-%d") {
        Some(s) => s,
        None => String::new(),
    }
}

/// Shows a time to the minute; nothing where the calendar does not reach.
pub fn fmt_minute(ts: i64) -> (r: String)
    ensures
        r@ == shown_or_empty(ts, "%Y-%m-%d %H:%M"@),
{
    match utc_text(ts, "%Y-%m-%d %H:%M") {
        Some(s) => s,
        None => String::new(),
    }
}

/// Shows a time to the second; nothing where the calendar does not reach.
pub fn fmt_second(ts: i64) -> (r: String)
    ensures
        r@ == shown_or_empty(ts, "%Y-%m-%d %H:%M:%S"@),
{
    match utc_text(ts, "%Y-%m-%d %H:%M:%S") {
        Some(s) => s,
        None => String::new(),
    }
}

/// The first second of a day.
pub open spec fn day_start(day: int) -> int {
    (day - EPOCH_DAY) * 86400
}

/// The first second of a day.
pub fn day_start_epoch(day: i32) -> (r: i64)
    ensures
        r == day_start(day as int),
{
    (day as i64 - EPOCH_DAY) * 86400
}

/// The first second of the day after; of the day itself where it is the last.
pub open spec fn next_day_start(day: int) -> int {
    if day < LAST_DAY {
        day_start(day + 1)
    } else {
        day_start(day)
    }
}

/// The message for a text that names no day.
pub open spec fn bad_date(d: Seq<char>) -> Seq<char> {
    "invalid date '"@ + d + "' (expected YYYY-MM-DD)"@
}

/// Reads the day that a text names.
pub fn parse_ymd(d: &str) -> (r: Result<i32, String>)
    ensures
        match r {
            Ok(n) => ymd_day(d@) == Some(n) && n <= LAST_DAY,
            Err(e) => ymd_day(d@) is None && e@ == bad_date(d@),
        },
{
    match parse_day(d) {
        Some(n) => Ok(n),
        None => {
            let mut e = "invalid date '".to_string();
            e.append(d);
            e.append("' (expected YYYY-MM-DD)");
            Err(e)
        },
    }
}

/// The first second of the day after.
pub fn next_day_epoch(day: i32) -> (r: i64)
    requires
        day <= LAST_DAY,
    ensures
        r == next_day_start(day as int),
{
    if (day as i64) < LAST_DAY {
        day_start_epoch(day + 1)
    } else {
        day_start_epoch(day)
    }
}

/// Reads the day that a text names, where it names one.
pub fn day_named(s: &str) -> (r: Option<i32>)
    ensures
        r == ymd_day(s@),
{
    parse_day(s)
}

} // verus!
