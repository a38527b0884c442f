//! The proleptic Gregorian calendar in UTC, as chrono computes it.
use vstd::prelude::*;
use chrono::Datelike;
use chrono::Timelike;
use crate::fmt_num::{decimal, digit_char};

verus! {

/// The largest magnitude of a timestamp (in seconds) that the calendar functions accept:
/// about 221,000 years on either side of 1970, well inside what chrono represents.
pub open spec fn max_timestamp() -> int {
    7_000_000_000_000
}

pub open spec fn timestamp_in_range(t: int) -> bool {
    -max_timestamp() <= t <= max_timestamp()
}

/// The years chrono can represent a date in.
pub open spec fn year_in_range(y: int) -> bool {
    -262143 <= y <= 262142
}

pub open spec fn is_leap(y: int) -> bool {
    y % 4 == 0 && (y % 100 != 0 || y % 400 == 0)
}

/// The number of leap years among the years before `y` (counted from year 1).
pub open spec fn leaps_before(y: int) -> int {
    (y - 1) / 4 - (y - 1) / 100 + (y - 1) / 400
}

/// Days from 1970-01-01 to January 1 of year `y`.
pub open spec fn days_before_year(y: int) -> int {
    365 * (y - 1970) + leaps_before(y) - leaps_before(1970)
}

/// Days from January 1 to the first of month `m` (1 to 12) in year `y`.
pub open spec fn days_before_month(y: int, m: int) -> int {
    let base: int = if m <= 1 { 0 }
        else if m == 2 { 31 }
        else if m == 3 { 59 }
        else if m == 4 { 90 }
        else if m == 5 { 120 }
        else if m == 6 { 151 }
        else if m == 7 { 181 }
        else if m == 8 { 212 }
        else if m == 9 { 243 }
        else if m == 10 { 273 }
        else if m == 11 { 304 }
        else { 334 };
    base + if m > 2 && is_leap(y) { 1int } else { 0int }
}

/// The number of days of month `m` (1 to 12) in year `y`.
pub open spec fn days_in_month(y: int, m: int) -> int {
    if m == 2 {
        if is_leap(y) { 29 } else { 28 }
    } else if m == 4 || m == 6 || m == 9 || m == 11 {
        30
    } else {
        31
    }
}

pub open spec fn valid_date(y: int, m: int, d: int) -> bool {
    1 <= m <= 12 && 1 <= d <= days_in_month(y, m)
}

/// Days from 1970-01-01 to the given date.
pub open spec fn days_from_civil(y: int, m: int, d: int) -> int {
    days_before_year(y) + days_before_month(y, m) + d - 1
}

/// A point in time broken down in UTC. Months and days count from one, the weekday
/// from Monday as zero.
#[derive(Debug, Copy, Clone, PartialEq, Eq, Structural)]
pub struct Civil {
    pub year: i32,
    pub month: u32,
    pub day: u32,
    pub hour: u32,
    pub minute: u32,
    pub second: u32,
    pub weekday: u32,
}

/// `c` is timestamp `t` broken down in UTC.
pub open spec fn civil_of(c: Civil, t: int) -> bool {
    let days = t / 86400;
    let secs = t % 86400;
    &&& valid_date(c.year as int, c.month as int, c.day as int)
    &&& days_from_civil(c.year as int, c.month as int, c.day as int) == days
    &&& c.hour == secs / 3600
    &&& c.minute == (secs % 3600) / 60
    &&& c.second == secs % 60
    &&& c.weekday == (days + 3) % 7
    &&& -230000 <= c.year <= 230000
}

/// Break a timestamp down into its UTC date and time, with chrono's
/// `DateTime::<Utc>::from_timestamp` and the `Datelike` and `Timelike` accessors.
/// The contract states the Gregorian calendar chrono implements: the date is the one
/// that many days after 1970-01-01, the time of day and the weekday (1970-01-01 was a
/// Thursday) follow from the remaining seconds and the day count.
#[verifier::external_body]
pub(crate) fn civil_from_timestamp(t: i64) -> (c: Civil)
    requires
        timestamp_in_range(t as int),
    ensures
        civil_of(c, t as int),
{
    let d = chrono::DateTime::from_timestamp(t, 0).unwrap();
    Civil {
        year: d.year(),
        month: d.month(),
        day: d.day(),
        hour: d.hour(),
        minute: d.minute(),
        second: d.second(),
        weekday: d.weekday().num_days_from_monday(),
    }
}

/// The timestamp of midnight UTC starting the given date, with chrono's
/// `NaiveDate::from_ymd_opt`, `and_hms_opt(0, 0, 0)`, `and_utc` and `timestamp`.
/// The contract states it is that date's day count from 1970-01-01 times a day's seconds.
#[verifier::external_body]
pub(crate) fn timestamp_from_ymd(year: i32, month: u32, day: u32) -> (t: i64)
    requires
        year_in_range(year as int),
        valid_date(year as int, month as int, day as int),
    ensures
        t == days_from_civil(year as int, month as int, day as int) * 86400,
{
    chrono::NaiveDate::from_ymd_opt(year, month, day).unwrap().and_hms_opt(0, 0, 0).unwrap().and_utc().timestamp()
}

/// The two decimal digits of `n`, below one hundred.
pub open spec fn two_digits(n: int) -> Seq<char> {
    seq![digit_char(n / 10), digit_char(n % 10)]
}

/// The four decimal digits of `n`, below ten thousand.
pub open spec fn four_digits(n: int) -> Seq<char> {
    two_digits(n / 100) + two_digits(n % 100)
}

/// How chrono writes a year: four digits from 0 to 9999, otherwise a sign and at
/// least four digits.
pub open spec fn year_text(y: int) -> Seq<char> {
    if 0 <= y <= 9999 {
        four_digits(y)
    } else {
        let a = if y < 0 { -y } else { y };
        seq![if y < 0 { '-' } else { '+' }] + (if a < 10000 { four_digits(a) } else { decimal(a as nat) })
    }
}

/// How chrono's `Display` for a `DateTime<Utc>` writes a date and time of whole
/// seconds: `YYYY-MM-DD HH:MM:SS UTC`.
pub open spec fn datetime_text(c: Civil) -> Seq<char> {
    year_text(c.year as int) + seq!['-'] + two_digits(c.month as int) + seq!['-'] + two_digits(c.day as int)
        + seq![' '] + two_digits(c.hour as int) + seq![':'] + two_digits(c.minute as int) + seq![':']
        + two_digits(c.second as int) + seq![' ', 'U', 'T', 'C']
}

/// What chrono's `Display` for a `DateTime<Utc>` writes for a timestamp.
pub open spec fn utc_datetime_text(t: int) -> Seq<char> {
    datetime_text(utc_civil(t))
}

/// Write a timestamp the way chrono's `Display` for `DateTime<Utc>` does (as in
/// `2022-01-15 07:41:40 UTC`): the date as chrono's `NaiveDate` writes it, the time of
/// day, and the offset's name.
#[verifier::external_body]
pub(crate) fn utc_datetime_string(t: i64) -> (s: String)
    requires
        timestamp_in_range(t as int),
    ensures
        s@ == utc_datetime_text(t as int),
{
    chrono::DateTime::from_timestamp(t, 0).unwrap().to_string()
}

/// chrono's error for a text that does not parse.
#[verifier::external_type_specification]
#[verifier::external_body]
pub struct ExParseError(chrono::ParseError);

/// The date and time of day that chrono's `NaiveDateTime::parse_from_str` reads from
/// text `s` with format `fmt`, as year, month, day, hour, minute and second; none where
/// it fails.
pub uninterp spec fn parsed_datetime(s: Seq<char>, fmt: Seq<char>) -> Option<(int, int, int, int, int, int)>;

/// Parse a date and time with chrono's `NaiveDateTime::parse_from_str`, and hand out
/// its fields (`year`, `month`, `day`, `hour`, `minute`, `second`). What the parser
/// reads is named, not stated: it succeeds exactly when the named result is some date
/// and time, and then gives its fields. Of those the contract also states what every
/// `NaiveDateTime` holds: a valid date in chrono's years, and a time of day with an
/// hour below 24, a minute and a second below 60 (a leap second is kept in the
/// fraction, which is not handed out).
#[verifier::external_body]
pub(crate) fn parse_naive_datetime(s: &str, fmt: &str) -> (r: Result<(i32, u32, u32, u32, u32, u32), chrono::ParseError>)
    ensures
        r is Ok <==> parsed_datetime(s@, fmt@) is Some,
        r matches Ok(v) ==> {
            &&& parsed_datetime(s@, fmt@) == Some((v.0 as int, v.1 as int, v.2 as int, v.3 as int, v.4 as int, v.5 as int))
            &&& year_in_range(v.0 as int)
            &&& valid_date(v.0 as int, v.1 as int, v.2 as int)
            &&& v.3 < 24 && v.4 < 60 && v.5 < 60
        },
{
    match chrono::NaiveDateTime::parse_from_str(s, fmt) {
        Ok(x) => Ok((x.year(), x.month(), x.day(), x.hour(), x.minute(), x.second())),
        Err(e) => Err(e),
    }
}

// ---------------------------------------------------------------------------
// Calendar lemmas

/// Stepping from `y - 1` to `y` increases `y / d` exactly when `d` divides `y`.
pub proof fn lemma_div_step(y: int, d: int)
    requires
        d > 0,
    ensures
        y / d - (y - 1) / d == if y % d == 0 { 1int } else { 0int },
{
    vstd::arithmetic::div_mod::lemma_fundamental_div_mod(y - 1, d);
    let q = (y - 1) / d;
    let r = (y - 1) % d;
    assert(d * q == q * d) by (nonlinear_arith);
    assert((q + 1) * d == q * d + d) by (nonlinear_arith);
    if r == d - 1 {
        vstd::arithmetic::div_mod::lemma_fundamental_div_mod_converse(y, d, q + 1, 0);
    } else {
        vstd::arithmetic::div_mod::lemma_fundamental_div_mod_converse(y, d, q, r + 1);
    }
}

/// One year later is 365 days later, plus one when the year is a leap year.
pub proof fn lemma_days_before_next_year(y: int)
    ensures
        days_before_year(y + 1) == days_before_year(y) + 365 + if is_leap(y) { 1int } else { 0int },
{
    lemma_div_step(y, 4);
    lemma_div_step(y, 100);
    lemma_div_step(y, 400);
    assert(y % 100 == 0 ==> y % 4 == 0) by {
        vstd::arithmetic::div_mod::lemma_fundamental_div_mod(y, 100);
        if y % 100 == 0 {
            vstd::arithmetic::div_mod::lemma_fundamental_div_mod_converse(y, 4, (y / 100) * 25, 0);
        }
    }
    assert(y % 400 == 0 ==> y % 100 == 0) by {
        vstd::arithmetic::div_mod::lemma_fundamental_div_mod(y, 400);
        if y % 400 == 0 {
            vstd::arithmetic::div_mod::lemma_fundamental_div_mod_converse(y, 100, (y / 400) * 4, 0);
        }
    }
}

/// Later years start later.
pub proof fn lemma_days_before_year_strict(y1: int, y2: int)
    requires
        y1 < y2,
    ensures
        days_before_year(y1) + 365 * (y2 - y1) <= days_before_year(y2),
    decreases y2 - y1,
{
    lemma_days_before_next_year(y2 - 1);
    if y1 < y2 - 1 {
        lemma_days_before_year_strict(y1, y2 - 1);
    }
}

/// A date of year `y` falls between January 1 of `y` and January 1 of `y + 1`.
pub proof fn lemma_date_within_year(y: int, m: int, d: int)
    requires
        valid_date(y, m, d),
    ensures
        days_before_year(y) <= days_from_civil(y, m, d) < days_before_year(y + 1),
{
    lemma_days_before_next_year(y);
}

/// If January 1 of year `y` is at or before time `t`, then `y` is at most the year of `t`.
pub proof fn lemma_year_start_before(y: int, c: Civil, t: int)
    requires
        civil_of(c, t),
        days_from_civil(y, 1, 1) * 86400 <= t,
    ensures
        y <= c.year,
{
    lemma_date_within_year(c.year as int, c.month as int, c.day as int);
    if y > c.year {
        lemma_days_before_year_strict(c.year as int + 1, y + 0);
        if y == c.year + 1 {
        }
        assert(days_before_year(y) >= days_before_year(c.year + 1));
        assert(days_from_civil(y, 1, 1) == days_before_year(y));
        assert(days_from_civil(y, 1, 1) > t / 86400);
        assert(days_from_civil(y, 1, 1) * 86400 > t);
    }
}

/// The first day of the month with index `idx` (months since January of year zero).
pub open spec fn first_of_month(idx: int) -> int {
    days_from_civil(idx / 12, idx % 12 + 1, 1)
}

/// The next month starts as many days later as the month has.
pub proof fn lemma_first_of_next_month(idx: int)
    ensures
        first_of_month(idx + 1) == first_of_month(idx) + days_in_month(idx / 12, idx % 12 + 1),
        days_in_month(idx / 12, idx % 12 + 1) >= 28,
{
    let y = idx / 12;
    let m = idx % 12;
    if m == 11 {
        assert((idx + 1) / 12 == y + 1);
        assert((idx + 1) % 12 == 0);
        lemma_days_before_next_year(y);
    } else {
        assert((idx + 1) / 12 == y);
        assert((idx + 1) % 12 == m + 1);
    }
}

/// Later months start later.
pub proof fn lemma_first_of_month_strict(i1: int, i2: int)
    requires
        i1 < i2,
    ensures
        first_of_month(i1) < first_of_month(i2),
    decreases i2 - i1,
{
    lemma_first_of_next_month(i2 - 1);
    if i1 < i2 - 1 {
        lemma_first_of_month_strict(i1, i2 - 1);
    }
}

/// A date falls between the first of its month and the first of the next month.
pub proof fn lemma_date_within_month(y: int, m: int, d: int)
    requires
        valid_date(y, m, d),
    ensures
        first_of_month(y * 12 + m - 1) <= days_from_civil(y, m, d) < first_of_month(y * 12 + m),
{
    let idx = y * 12 + m - 1;
    assert(idx / 12 == y);
    assert(idx % 12 == m - 1);
    lemma_first_of_next_month(idx);
}

/// If the month with index `idx` starts at or before time `t`, then it is at most
/// the month of `t`.
pub proof fn lemma_month_start_before(idx: int, c: Civil, t: int)
    requires
        civil_of(c, t),
        first_of_month(idx) * 86400 <= t,
    ensures
        idx <= c.year * 12 + c.month - 1,
{
    lemma_date_within_month(c.year as int, c.month as int, c.day as int);
    let e = c.year * 12 + c.month - 1;
    if idx > e {
        if idx > e + 1 {
            lemma_first_of_month_strict(e + 1, idx);
        }
        assert(first_of_month(idx) > t / 86400);
    }
}


/// Different valid dates have different day counts.
pub proof fn lemma_days_from_civil_injective(y1: int, m1: int, d1: int, y2: int, m2: int, d2: int)
    requires
        valid_date(y1, m1, d1),
        valid_date(y2, m2, d2),
        days_from_civil(y1, m1, d1) == days_from_civil(y2, m2, d2),
    ensures
        y1 == y2 && m1 == m2 && d1 == d2,
{
    lemma_date_within_year(y1, m1, d1);
    lemma_date_within_year(y2, m2, d2);
    if y1 < y2 {
        lemma_days_before_year_strict(y1 + 1, y2 + 1);
        if y1 + 1 < y2 {
            lemma_days_before_year_strict(y1 + 1, y2);
        }
    } else if y2 < y1 {
        if y2 + 1 < y1 {
            lemma_days_before_year_strict(y2 + 1, y1);
        }
    } else {
        lemma_date_within_month(y1, m1, d1);
        lemma_date_within_month(y2, m2, d2);
        if m1 < m2 {
            if m1 < m2 - 1 {
                lemma_first_of_month_strict(y1 * 12 + m1, y1 * 12 + m2 - 1);
            }
        } else if m2 < m1 {
            if m2 < m1 - 1 {
                lemma_first_of_month_strict(y1 * 12 + m2, y1 * 12 + m1 - 1);
            }
        }
    }
}

/// Timestamp `t` broken down in UTC.
pub open spec fn utc_civil(t: int) -> Civil {
    choose|c: Civil| civil_of(c, t)
}

/// The breakdown of a timestamp is unique.
pub proof fn lemma_utc_civil(c: Civil, t: int)
    requires
        civil_of(c, t),
    ensures
        c == utc_civil(t),
{
    let c2 = utc_civil(t);
    assert(civil_of(c2, t));
    lemma_days_from_civil_injective(c.year as int, c.month as int, c.day as int, c2.year as int, c2.month as int, c2.day as int);
}

} // verus!
