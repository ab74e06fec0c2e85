//! Calendar days: reading a `DD/MM/YYYY` date and the window of epoch
//! seconds that the day covers in UTC.

use crate::decimal::is_digit;
use vstd::prelude::*;

verus! {

/// Seconds in a day.
pub const SEC_PER_DAY: i64 = 86400;

/// Whether `y` is a leap year of the proleptic Gregorian calendar.
pub open spec fn is_leap(y: int) -> bool {
    (y % 4 == 0 && y % 100 != 0) || y % 400 == 0
}

/// The number of days of month `m` of year `y`.
pub open spec fn month_days(y: int, m: int) -> int {
    if m == 2 {
        if is_leap(y) {
            29
        } else {
            28
        }
    } else if m == 4 || m == 6 || m == 9 || m == 11 {
        30
    } else {
        31
    }
}

/// Whether day `d` of month `m` of year `y` exists.
pub open spec fn valid_date(y: int, m: int, d: int) -> bool {
    1 <= m <= 12 && 1 <= d <= month_days(y, m)
}

/// The number of leap years among years `1..=x` (negative below year 1).
pub open spec fn leaps_through(x: int) -> int {
    x / 4 - x / 100 + x / 400
}

/// The days of year `y` before the first of month `m`.
pub open spec fn days_before_month(y: int, m: int) -> int
    decreases m,
{
    if m <= 1 {
        0
    } else {
        days_before_month(y, m - 1) + month_days(y, m - 1)
    }
}

/// The number of days from 1970-01-01 to the given date.
pub open spec fn days_from_epoch(y: int, m: int, d: int) -> int {
    365 * (y - 1970) + leaps_through(y - 1) - leaps_through(1969) + days_before_month(y, m) + d
        - 1
}

/// The value of the digit at position `i` of `s`.
pub open spec fn digit_at(s: Seq<char>, i: int) -> int {
    s[i] as int - '0' as int
}

/// The day, month and year written in `s` as `DD/MM/YYYY`: two digits, a
/// slash, two digits, a slash, four digits.
pub open spec fn day_fields(s: Seq<char>) -> Option<(int, int, int)> {
    if s.len() == 10 && s[2] == '/' && s[5] == '/' && (forall|i: int|
        0 <= i < 10 && i != 2 && i != 5 ==> is_digit(#[trigger] s[i])) {
        Some(
            (
                digit_at(s, 0) * 10 + digit_at(s, 1),
                digit_at(s, 3) * 10 + digit_at(s, 4),
                digit_at(s, 6) * 1000 + digit_at(s, 7) * 100 + digit_at(s, 8) * 10 + digit_at(s, 9),
            ),
        )
    } else {
        None
    }
}

/// The epoch second at which the UTC day written in `s` starts, if `s` is
/// a well-formed `DD/MM/YYYY` date of a day that exists.
pub open spec fn day_start(s: Seq<char>) -> Option<int> {
    match day_fields(s) {
        Some((d, m, y)) => if valid_date(y, m, d) {
            Some(SEC_PER_DAY * days_from_epoch(y, m, d))
        } else {
            None
        },
        None => None,
    }
}

proof fn lemma_days_before_month_bounds(y: int, m: int)
    requires
        m <= 13,
    ensures
        0 <= days_before_month(y, m) <= 372,
        m >= 1 ==> days_before_month(y, m) <= 31 * (m - 1),
    decreases m,
{
    if m > 1 {
        lemma_days_before_month_bounds(y, m - 1);
    }
}

/// A day that exists in years `0..=9999` starts well within `i64`.
pub proof fn lemma_day_start_bounds(s: Seq<char>)
    ensures
        day_start(s) matches Some(t) ==> -100_000_000_000 < t < 300_000_000_000,
{
    if let Some((d, m, y)) = day_fields(s) {
        if valid_date(y, m, d) {
            lemma_days_before_month_bounds(y, m);
            assert(0 <= y <= 9999);
            let days = days_from_epoch(y, m, d);
            assert(-1_000_000 < days < 3_000_000);
        }
    }
}

/// Relies on chrono's `NaiveDate::from_ymd_opt` (`None` exactly for a day
/// that does not exist; years up to 9999 are in its range) and on
/// `NaiveDateTime::and_utc().timestamp()`, the non-leap seconds since
/// 1970-01-01 00:00:00 UTC.
#[verifier::external_body]
fn utc_midnight(year: i32, month: u32, day: u32) -> (r: Option<i64>)
    requires
        0 <= year <= 9999,
    ensures
        r.is_some() == valid_date(year as int, month as int, day as int),
        r matches Some(t) ==> t == SEC_PER_DAY * days_from_epoch(
            year as int,
            month as int,
            day as int,
        ),
{
    match chrono::NaiveDate::from_ymd_opt(year, month, day) {
        Some(date) => Some(date.and_time(chrono::NaiveTime::MIN).and_utc().timestamp()),
        None => None,
    }
}

/// The value of the digit character `c`.
fn digit_value(c: char) -> (r: u32)
    requires
        is_digit(c),
    ensures
        r == c as int - '0' as int,
        r < 10,
{
    c as u32 - '0' as u32
}

/// Reads a `DD/MM/YYYY` date as (day, month, year).
pub fn parse_day(s: &str) -> (r: Option<(u32, u32, u32)>)
    ensures
        match r {
            Some((d, m, y)) => day_fields(s@) == Some((d as int, m as int, y as int)),
            None => day_fields(s@).is_none(),
        },
{
    if s.unicode_len() != 10 {
        return None;
    }
    let mut i: usize = 0;
    while i < 10
        invariant
            s@.len() == 10,
            i <= 10,
            forall|k: int| 0 <= k < i && k != 2 && k != 5 ==> is_digit(#[trigger] s@[k]),
            i > 2 ==> s@[2] == '/',
            i > 5 ==> s@[5] == '/',
        decreases 10 - i,
    {
        let c = s.get_char(i);
        if i == 2 || i == 5 {
            if c != '/' {
                return None;
            }
        } else if !('0' <= c && c <= '9') {
            assert(!is_digit(s@[i as int]));
            return None;
        }
        i = i + 1;
    }
    let day = digit_value(s.get_char(0)) * 10 + digit_value(s.get_char(1));
    let month = digit_value(s.get_char(3)) * 10 + digit_value(s.get_char(4));
    let year = digit_value(s.get_char(6)) * 1000 + digit_value(s.get_char(7)) * 100 + digit_value(
        s.get_char(8),
    ) * 10 + digit_value(s.get_char(9));
    Some((day, month, year))
}

/// The epoch second at which the UTC day written as `DD/MM/YYYY` starts;
/// `None` for malformed text or a day that does not exist.
pub fn day_start_secs(s: &str) -> (r: Option<i64>)
    ensures
        match r {
            Some(t) => day_start(s@) == Some(t as int),
            None => day_start(s@).is_none(),
        },
{
    match parse_day(s) {
        Some((d, m, y)) => utc_midnight(y as i32, m, d),
        None => None,
    }
}

} // verus!
