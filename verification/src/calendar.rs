//! Timestamps and calendar dates, read and written with `chrono`.
//!
//! All timestamps are milliseconds since the Unix epoch, in UTC.
use vstd::prelude::*;
use vstd::arithmetic::div_mod::{lemma_fundamental_div_mod, lemma_fundamental_div_mod_converse, lemma_mod_pos_bound};
use chrono::{DateTime, Datelike, Local, NaiveDate, SecondsFormat, TimeZone, Utc};

verus! {

/// What `DateTime::parse_from_rfc3339` makes of `text`, in milliseconds
/// since the epoch.
pub uninterp spec fn rfc3339_millis(text: Seq<char>) -> Option<i64>;

/// What `DateTime::<Utc>::to_rfc3339_opts` writes for the instant `millis`,
/// with the fraction of a second only where it is not zero and `Z` for UTC, when
/// `DateTime::<Utc>::from_timestamp_millis` can represent it.
pub uninterp spec fn rfc3339_text(millis: i64) -> Option<Seq<char>>;

/// The year, month and day that `NaiveDate::parse_from_str` reads from
/// `text` with the format `%Y-%m-%d`.
pub uninterp spec fn calendar_date(text: Seq<char>) -> Option<(i32, u32, u32)>;

/// Whether `year` is a leap year of the proleptic Gregorian calendar.
pub open spec fn is_leap_year(year: int) -> bool {
    year % 4 == 0 && (year % 100 != 0 || year % 400 == 0)
}

/// The number of days in `month` of `year`.
pub open spec fn days_in_month(year: int, month: int) -> int {
    if month == 2 {
        if is_leap_year(year) { 29 } else { 28 }
    } else if month == 4 || month == 6 || month == 9 || month == 11 {
        30
    } else {
        31
    }
}

/// The first year of the dates that chrono represents.
pub open spec fn first_year() -> int {
    -262_143
}

/// The last year of the dates that chrono represents.
pub open spec fn last_year() -> int {
    262_142
}

/// Whether `(year, month, day)` is a date that chrono represents.
pub open spec fn is_calendar_date(date: (i32, u32, u32)) -> bool {
    let (year, month, day) = date;
    &&& first_year() <= year <= last_year()
    &&& 1 <= month <= 12
    &&& 1 <= day <= days_in_month(year as int, month as int)
}

/// The day after `date`: absent for a triple that is no date and after the
/// last date chrono represents.
pub open spec fn following_date(date: (i32, u32, u32)) -> Option<(i32, u32, u32)> {
    let (year, month, day) = date;
    if !is_calendar_date(date) {
        None
    } else if (day as int) < days_in_month(year as int, month as int) {
        Some((year, month, (day + 1) as u32))
    } else if month < 12 {
        Some((year, (month + 1) as u32, 1u32))
    } else if year < last_year() {
        Some(((year + 1) as i32, 1u32, 1u32))
    } else {
        None
    }
}

/// Milliseconds in a day.
pub open spec fn day_ms() -> int {
    86_400_000
}

/// The number of days from 1970-01-01 to the proleptic Gregorian date
/// `(year, month, day)`, counting years in eras of 400 years from March on.
pub open spec fn days_from_civil(date: (i32, u32, u32)) -> int {
    let (year, month, day) = date;
    let y = if month <= 2 { year - 1 } else { year as int };
    let era = y / 400;
    let yoe = y - era * 400;
    let mp = if month > 2 { month - 3 } else { month + 9 };
    let doy = (153 * mp + 2) / 5 + day - 1;
    let doe = yoe * 365 + yoe / 4 - yoe / 100 + doy;
    era * 146_097 + doe - 719_468
}

/// The instant at which `date` begins in UTC, in milliseconds since the epoch.
pub open spec fn utc_midnight(date: (i32, u32, u32)) -> int {
    days_from_civil(date) * day_ms()
}

/// Parses an RFC 3339 timestamp with `DateTime::parse_from_rfc3339` and
/// converts it to milliseconds since the epoch; `None` when chrono rejects
/// the text. The result is named, not described.
#[verifier::external_body]
pub(crate) fn parse_rfc3339_millis(text: &str) -> (r: Option<i64>)
    ensures
        r == rfc3339_millis(text@),
{
    match DateTime::parse_from_rfc3339(text) {
        Ok(value) => Some(value.with_timezone(&Utc).timestamp_millis()),
        Err(_) => None,
    }
}

/// Writes the instant `millis` with `DateTime::<Utc>::to_rfc3339_opts`,
/// fraction of a second only where needed and `Z` for UTC; `None`
/// when `DateTime::<Utc>::from_timestamp_millis` cannot represent it. The
/// text is named, not described.
#[verifier::external_body]
pub(crate) fn format_rfc3339(millis: i64) -> (r: Option<String>)
    ensures
        r is Some <==> rfc3339_text(millis) is Some,
        r matches Some(text) ==> rfc3339_text(millis) == Some(text@),
{
    match DateTime::<Utc>::from_timestamp_millis(millis) {
        Some(value) => Some(value.to_rfc3339_opts(SecondsFormat::AutoSi, true)),
        None => None,
    }
}

/// Reads a calendar date written `YYYY-MM-DD` with
/// `NaiveDate::parse_from_str`; `None` when chrono rejects the text.
#[verifier::external_body]
pub(crate) fn parse_calendar_date(text: &str) -> (r: Option<(i32, u32, u32)>)
    ensures
        r == calendar_date(text@),
{
    match NaiveDate::parse_from_str(text, "%Y-%m-%d") {
        Ok(day) => Some((day.year(), day.month(), day.day())),
        Err(_) => None,
    }
}

/// The day after `date` with `NaiveDate::from_ymd_opt` and
/// `NaiveDate::succ_opt`, which is `following_date`: `None` after the last
/// date chrono can represent, or for a triple that is no date.
#[verifier::external_body]
pub(crate) fn next_calendar_date(date: (i32, u32, u32)) -> (r: Option<(i32, u32, u32)>)
    ensures
        r == following_date(date),
{
    match NaiveDate::from_ymd_opt(date.0, date.1, date.2) {
        Some(day) => match day.succ_opt() {
            Some(next) => Some((next.year(), next.month(), next.day())),
            None => None,
        },
        None => None,
    }
}

/// The days before the March that begins shifted year `y` (a year counted
/// from March), from the start of its 400-year era on, plus the era's days.
spec fn shifted_year_days(y: int) -> int {
    let era = y / 400;
    let yoe = y - era * 400;
    era * 146_097 + yoe * 365 + yoe / 4 - yoe / 100
}

proof fn lemma_step_div(x: int, d: int)
    requires
        0 <= x,
        d > 0,
    ensures
        (x + 1) / d - x / d == (if (x + 1) % d == 0 { 1int } else { 0int }),
{
    lemma_fundamental_div_mod(x, d);
    lemma_fundamental_div_mod(x + 1, d);
    let q = x / d;
    let r = x % d;
    lemma_mod_pos_bound(x, d);
    assert(q * d == d * q) by (nonlinear_arith);
    assert((q + 1) * d == q * d + d) by (nonlinear_arith);
    if r + 1 < d {
        lemma_fundamental_div_mod_converse(x + 1, d, q, r + 1);
    } else {
        lemma_fundamental_div_mod_converse(x + 1, d, q + 1, 0);
    }
}

proof fn lemma_shifted_year_length(y: int)
    ensures
        shifted_year_days(y + 1) - shifted_year_days(y) == 365 + (if is_leap_year(y + 1) { 1int } else { 0int }),
{
    lemma_fundamental_div_mod(y, 400);
    let era = y / 400;
    let yoe = y - era * 400;
    assert(yoe == y % 400);
    assert(0 <= yoe < 400);
    if yoe < 399 {
        lemma_fundamental_div_mod_converse(y + 1, 400, era, yoe + 1);
        lemma_fundamental_div_mod(yoe + 1, 4);
        lemma_fundamental_div_mod(yoe + 1, 100);
        lemma_fundamental_div_mod_converse(y + 1, 4, 100 * era + (yoe + 1) / 4, (yoe + 1) % 4);
        lemma_fundamental_div_mod_converse(y + 1, 100, 4 * era + (yoe + 1) / 100, (yoe + 1) % 100);
        lemma_step_div(yoe, 4);
        lemma_step_div(yoe, 100);
        if (yoe + 1) % 100 == 0 {
            lemma_fundamental_div_mod_converse(yoe + 1, 4, 25 * ((yoe + 1) / 100), 0);
        }
    } else {
        lemma_fundamental_div_mod_converse(y + 1, 400, era + 1, 0);
        lemma_fundamental_div_mod_converse(y + 1, 4, 100 * (era + 1), 0);
        lemma_fundamental_div_mod_converse(y + 1, 100, 4 * (era + 1), 0);
        assert(399int / 4 == 99);
        assert(399int / 100 == 3);
    }
}

/// The following date begins one day after `date` does.
pub proof fn lemma_following_date_next_day(date: (i32, u32, u32))
    requires
        following_date(date) is Some,
    ensures
        utc_midnight(following_date(date)->0) == utc_midnight(date) + day_ms(),
{
    let (year, month, day) = date;
    let next = following_date(date)->0;
    assert(days_from_civil(next) == days_from_civil(date) + 1) by {
        if (day as int) < days_in_month(year as int, month as int) {
        } else if month == 2 {
            lemma_shifted_year_length(year - 1);
            assert((153 * 11 + 2) / 5 == 337);
        } else if month < 12 {
            assert((153 * 1 + 2) / 5 == 31);
            assert((153 * 2 + 2) / 5 == 61);
            assert((153 * 3 + 2) / 5 == 92);
            assert((153 * 4 + 2) / 5 == 122);
            assert((153 * 5 + 2) / 5 == 153);
            assert((153 * 6 + 2) / 5 == 184);
            assert((153 * 7 + 2) / 5 == 214);
            assert((153 * 8 + 2) / 5 == 245);
            assert((153 * 9 + 2) / 5 == 275);
            assert((153 * 10 + 2) / 5 == 306);
            assert((153 * 11 + 2) / 5 == 337);
        } else {
            assert((153 * 9 + 2) / 5 == 275);
            assert((153 * 10 + 2) / 5 == 306);
        }
    }
    assert(days_from_civil(next) * day_ms() == days_from_civil(date) * day_ms() + day_ms()) by (nonlinear_arith)
        requires days_from_civil(next) == days_from_civil(date) + 1;
}

/// The instant at which `date` begins in the machine's local time zone, via
/// `Local::from_local_datetime(..).single()`; `None` when local midnight of
/// that date does not exist or is ambiguous, or the triple is no date. The
/// answer depends on the time zone of the machine: all that is stated is
/// that it lies less than a day from UTC midnight of `date`, since chrono's
/// offsets are shorter than a day.
#[verifier::external_body]
pub(crate) fn local_midnight_millis(date: (i32, u32, u32)) -> (r: Option<i64>)
    ensures
        r matches Some(m) ==> utc_midnight(date) - day_ms() < m < utc_midnight(date) + day_ms(),
{
    match NaiveDate::from_ymd_opt(date.0, date.1, date.2) {
        Some(day) => match day.and_hms_opt(0, 0, 0) {
            Some(midnight) => match Local.from_local_datetime(&midnight).single() {
                Some(local) => Some(local.with_timezone(&Utc).timestamp_millis()),
                None => None,
            },
            None => None,
        },
        None => None,
    }
}

} // verus!
