pub mod calendar;
pub mod unixtime;
pub mod tick_finder;

use vstd::prelude::*;
use crate::fmt_num::{int_text, int_to_string};
use crate::num::timestamp::calendar::{
    civil_from_timestamp, lemma_utc_civil, parse_naive_datetime, parsed_datetime, timestamp_from_ymd, timestamp_in_range, utc_civil,
    utc_datetime_string, utc_datetime_text, valid_date, year_in_range, days_from_civil, Civil,
    civil_of,
};
use crate::num::timestamp::tick_finder::UnixTimeTickFmt;
use crate::num::timestamp::unixtime::{StepUnit, UnixTime};
use crate::plotnum::PlotNum;
use crate::ticks::{Axis, DefaultTickFmt, TickFmt};

verus! {

/// The UTC timestamp of a date and time of day given as year, month, day, hour,
/// minute and second.
pub open spec fn datetime_timestamp(v: (int, int, int, int, int, int)) -> int {
    days_from_civil(v.0, v.1, v.2) * 86400 + v.3 * 3600 + v.4 * 60 + v.5
}

/// The three letter name of a month (1 to 12).
pub open spec fn month_name(month: int) -> Seq<char> {
    if month == 1 { seq!['J', 'a', 'n'] }
    else if month == 2 { seq!['F', 'e', 'b'] }
    else if month == 3 { seq!['M', 'a', 'r'] }
    else if month == 4 { seq!['A', 'p', 'r'] }
    else if month == 5 { seq!['M', 'a', 'y'] }
    else if month == 6 { seq!['J', 'u', 'n'] }
    else if month == 7 { seq!['J', 'u', 'l'] }
    else if month == 8 { seq!['A', 'u', 'g'] }
    else if month == 9 { seq!['S', 'e', 'p'] }
    else if month == 10 { seq!['O', 'c', 't'] }
    else if month == 11 { seq!['N', 'o', 'v'] }
    else { seq!['D', 'e', 'c'] }
}

///
/// Returns a 3 letter string for a month. The input must be in the range `[1,12]`.
///
pub fn month_str(month: u32) -> (r: &'static str)
    requires
        1 <= month <= 12,
    ensures
        r@ == month_name(month as int),
{
    proof {
        reveal_strlit("Jan");
        reveal_strlit("Feb");
        reveal_strlit("Mar");
        reveal_strlit("Apr");
        reveal_strlit("May");
        reveal_strlit("Jun");
        reveal_strlit("Jul");
        reveal_strlit("Aug");
        reveal_strlit("Sep");
        reveal_strlit("Oct");
        reveal_strlit("Nov");
        reveal_strlit("Dec");
    }
    match month {
        1 => "Jan",
        2 => "Feb",
        3 => "Mar",
        4 => "Apr",
        5 => "May",
        6 => "Jun",
        7 => "Jul",
        8 => "Aug",
        9 => "Sep",
        10 => "Oct",
        11 => "Nov",
        _ => "Dec",
    }
}


/// The three letter name chrono writes for a weekday (Monday is zero).
pub open spec fn weekday_name(w: int) -> Seq<char> {
    if w == 0 { seq!['M', 'o', 'n'] }
    else if w == 1 { seq!['T', 'u', 'e'] }
    else if w == 2 { seq!['W', 'e', 'd'] }
    else if w == 3 { seq!['T', 'h', 'u'] }
    else if w == 4 { seq!['F', 'r', 'i'] }
    else if w == 5 { seq!['S', 'a', 't'] }
    else { seq!['S', 'u', 'n'] }
}

fn weekday_str(w: u32) -> (r: &'static str)
    ensures
        r@ == weekday_name(w as int),
{
    proof {
        reveal_strlit("Mon");
        reveal_strlit("Tue");
        reveal_strlit("Wed");
        reveal_strlit("Thu");
        reveal_strlit("Fri");
        reveal_strlit("Sat");
        reveal_strlit("Sun");
    }
    match w {
        0 => "Mon",
        1 => "Tue",
        2 => "Wed",
        3 => "Thu",
        4 => "Fri",
        5 => "Sat",
        _ => "Sun",
    }
}

/// The name of a step unit.
pub open spec fn unit_name(u: StepUnit) -> Seq<char> {
    match u {
        StepUnit::YR => seq!['Y', 'e', 'a', 'r', 's'],
        StepUnit::MO => seq!['M', 'o', 'n', 't', 'h', 's'],
        StepUnit::DY => seq!['D', 'a', 'y', 's'],
        StepUnit::HR => seq!['H', 'o', 'u', 'r', 's'],
        StepUnit::MI => seq!['M', 'i', 'n', 'u', 't', 'e', 's'],
        StepUnit::SE => seq!['S', 'e', 'c', 'o', 'n', 'd', 's'],
    }
}

impl StepUnit {
    pub fn is_years(&self) -> (b: bool)
        ensures
            b == (*self == StepUnit::YR),
    {
        *self == StepUnit::YR
    }

    pub fn is_months(&self) -> (b: bool)
        ensures
            b == (*self == StepUnit::MO),
    {
        *self == StepUnit::MO
    }

    pub fn is_days(&self) -> (b: bool)
        ensures
            b == (*self == StepUnit::DY),
    {
        *self == StepUnit::DY
    }

    pub fn is_hours(&self) -> (b: bool)
        ensures
            b == (*self == StepUnit::HR),
    {
        *self == StepUnit::HR
    }

    pub fn is_minutes(&self) -> (b: bool)
        ensures
            b == (*self == StepUnit::MI),
    {
        *self == StepUnit::MI
    }

    pub fn is_seconds(&self) -> (b: bool)
        ensures
            b == (*self == StepUnit::SE),
    {
        *self == StepUnit::SE
    }

    /// The unit's name, as `{}` writes it.
    pub fn fmt(&self) -> (s: String)
        ensures
            s@ == unit_name(*self),
    {
        let r = match self {
            StepUnit::YR => "Years",
            StepUnit::MO => "Months",
            StepUnit::DY => "Days",
            StepUnit::HR => "Hours",
            StepUnit::MI => "Minutes",
            StepUnit::SE => "Seconds",
        };
        proof {
            reveal_strlit("Years");
            reveal_strlit("Months");
            reveal_strlit("Days");
            reveal_strlit("Hours");
            reveal_strlit("Minutes");
            reveal_strlit("Seconds");
        }
        r.to_owned()
    }
}

/// A time in the given unit plus the unit one above: the year; the year and month;
/// the month and day; the weekday and hour; the hour and minute; the minute and second.
pub open spec fn dynamic_text(c: Civil, info: StepUnit) -> Seq<char> {
    match info {
        StepUnit::YR => int_text(c.year as int),
        StepUnit::MO => int_text(c.year as int) + seq![' '] + month_name(c.month as int),
        StepUnit::DY => month_name(c.month as int) + seq![' '] + int_text(c.day as int),
        StepUnit::HR => weekday_name(c.weekday as int) + seq![':'] + int_text(c.hour as int),
        StepUnit::MI => int_text(c.hour as int) + seq![':'] + int_text(c.minute as int),
        StepUnit::SE => int_text(c.minute as int) + seq![':'] + int_text(c.second as int),
    }
}

/// `a`, then the character `sep`, then `b`.
fn join3(a: String, sep: char, b: String) -> (s: String)
    ensures
        s@ == a@ + seq![sep] + b@,
{
    let mut s = a;
    s.push(sep);
    s.append(b.as_str());
    s
}

/// A text that does not read as a date and time in the given format.
pub struct TimeParseError(pub chrono::ParseError);

impl UnixTime {
    /// Read a date and time from text in the given format (as chrono's `strftime`
    /// escapes describe it), taken as UTC.
    pub fn parse_from_str(s: &str, fmt: &str) -> (r: Result<UnixTime, TimeParseError>)
        ensures
            r is Ok <==> parsed_datetime(s@, fmt@) is Some,
            r matches Ok(u) ==> u.0 == datetime_timestamp(parsed_datetime(s@, fmt@).unwrap()),
    {
        match parse_naive_datetime(s, fmt) {
            Ok(v) => Ok(UnixTime::from_ymd_hms((v.0, v.1, v.2), v.3, v.4, v.5)),
            Err(e) => Err(TimeParseError(e)),
        }
    }

    /// This time broken down in UTC.
    pub fn civil(&self) -> (c: Civil)
        requires
            timestamp_in_range(self.0 as int),
        ensures
            c == utc_civil(self.0 as int),
            civil_of(c, self.0 as int),
    {
        let c = civil_from_timestamp(self.0);
        proof {
            lemma_utc_civil(c, self.0 as int);
        }
        c
    }

    /// Convenience function: January 1 of the year, at midnight UTC.
    pub fn from_year(year: i32) -> (r: UnixTime)
        requires
            year_in_range(year as int),
        ensures
            r.0 == days_from_civil(year as int, 1, 1) * 86400,
    {
        UnixTime(timestamp_from_ymd(year, 1, 1))
    }

    /// Convenience function: the date at midnight UTC.
    pub fn from_ymd(year: i32, month: u32, day: u32) -> (r: UnixTime)
        requires
            year_in_range(year as int),
            valid_date(year as int, month as int, day as int),
        ensures
            r.0 == days_from_civil(year as int, month as int, day as int) * 86400,
    {
        UnixTime(timestamp_from_ymd(year, month, day))
    }

    /// Convenience function: the date and time of day in UTC.
    pub fn from_ymd_hms(ymd: (i32, u32, u32), hours: u32, min: u32, seconds: u32) -> (r: UnixTime)
        requires
            year_in_range(ymd.0 as int),
            valid_date(ymd.0 as int, ymd.1 as int, ymd.2 as int),
            hours < 24,
            min < 60,
            seconds < 60,
        ensures
            r.0 == days_from_civil(ymd.0 as int, ymd.1 as int, ymd.2 as int) * 86400 + hours * 3600 + min * 60 + seconds,
    {
        let (year, month, day) = ymd;
        let t = timestamp_from_ymd(year, month, day);
        UnixTime(t + (hours as i64) * 3600 + (min as i64) * 60 + seconds as i64)
    }

    ///
    /// Format a UnixTime with the given step unit specified.
    /// It will display that unit plus, the unit one above.
    /// So for example, if the step size is in hours,
    /// it will display the hour as well as the day of the week.
    ///
    pub fn dynamic_format(&self, info: StepUnit) -> (s: String)
        requires
            timestamp_in_range(self.0 as int),
        ensures
            s@ == dynamic_text(utc_civil(self.0 as int), info),
    {
        let val = self.civil();
        match info {
            StepUnit::YR => int_to_string(val.year as i128),
            StepUnit::MO => join3(int_to_string(val.year as i128), ' ', month_str(val.month).to_owned()),
            StepUnit::DY => join3(month_str(val.month).to_owned(), ' ', int_to_string(val.day as i128)),
            StepUnit::HR => join3(weekday_str(val.weekday).to_owned(), ':', int_to_string(val.hour as i128)),
            StepUnit::MI => join3(int_to_string(val.hour as i128), ':', int_to_string(val.minute as i128)),
            StepUnit::SE => join3(int_to_string(val.minute as i128), ':', int_to_string(val.second as i128)),
        }
    }

    /// Write the time the way `{}` does, as chrono writes a UTC date and time.
    pub fn fmt(&self) -> (s: String)
        requires
            timestamp_in_range(self.0 as int),
        ensures
            s@ == utc_datetime_text(self.0 as int),
    {
        utc_datetime_string(self.0)
    }
}

impl PlotNum for UnixTime {
    open spec fn spec_is_hole(&self) -> bool {
        false
    }

    open spec fn spec_lt(&self, other: &Self) -> bool {
        self.0 < other.0
    }

    open spec fn unit_range_ok(offset: Option<Self>) -> bool {
        offset matches Some(o) ==> o.0 < i64::MAX
    }

    open spec fn spec_unit_range(offset: Option<Self>) -> [Self; 2] {
        match offset {
            Some(o) => [o, UnixTime((o.0 + 1) as i64)],
            None => [UnixTime(0), UnixTime(1)],
        }
    }

    fn is_hole(&self) -> (b: bool) {
        false
    }

    fn less_than(&self, other: &Self) -> (b: bool) {
        self.0 < other.0
    }

    fn has_unit_range(offset: Option<Self>) -> (b: bool) {
        match offset {
            Some(o) => o.0 < i64::MAX,
            None => true,
        }
    }

    fn unit_range(offset: Option<Self>) -> (r: [Self; 2]) {
        if let Some(o) = offset {
            [o, UnixTime(o.0 + 1)]
        } else {
            [UnixTime(0), UnixTime(1)]
        }
    }

    proof fn lemma_lt_irreflexive(a: Self) {
    }

    proof fn lemma_lt_transitive(a: Self, b: Self, c: Self) {
    }

    proof fn lemma_lt_total(a: Self, b: Self) {
    }
}

/// The footnote of a time axis: `X: ` (or `Y: `), the first tick in the unit, ` in ` and
/// the unit's name.
pub open spec fn unixtime_where_text(f: UnixTimeTickFmt) -> Seq<char> {
    seq![if f.axis == Axis::X { 'X' } else { 'Y' }, ':', ' ']
        + dynamic_text(utc_civil(f.start.0 as int), f.step)
        + seq![' ', 'i', 'n', ' ']
        + unit_name(f.step)
}

/// Writes each time the way `{}` writes it, with no footnote.
impl TickFmt<UnixTime> for DefaultTickFmt {
    open spec fn tick_ok(&self, val: UnixTime) -> bool {
        timestamp_in_range(val.0 as int)
    }

    open spec fn tick_spec(&self, val: UnixTime, out: Seq<char>) -> bool {
        out == utc_datetime_text(val.0 as int)
    }

    open spec fn where_ok(&self) -> bool {
        true
    }

    open spec fn where_spec(&self, out: Seq<char>) -> bool {
        out == Seq::<char>::empty()
    }

    fn write_tick(&self, val: &UnixTime) -> (s: String) {
        val.fmt()
    }

    fn write_where(&self) -> (s: String) {
        String::new()
    }
}

impl TickFmt<UnixTime> for UnixTimeTickFmt {
    open spec fn tick_ok(&self, val: UnixTime) -> bool {
        timestamp_in_range(val.0 as int)
    }

    open spec fn tick_spec(&self, val: UnixTime, out: Seq<char>) -> bool {
        out == dynamic_text(utc_civil(val.0 as int), self.step)
    }

    open spec fn where_ok(&self) -> bool {
        timestamp_in_range(self.start.0 as int)
    }

    open spec fn where_spec(&self, out: Seq<char>) -> bool {
        out == unixtime_where_text(*self)
    }

    fn write_tick(&self, val: &UnixTime) -> (s: String) {
        val.dynamic_format(self.step)
    }

    fn write_where(&self) -> (s: String) {
        let mut s = String::new();
        match self.axis {
            Axis::X => s.push('X'),
            Axis::Y => s.push('Y'),
        }
        s.push(':');
        s.push(' ');
        let d = self.start.dynamic_format(self.step);
        s.append(d.as_str());
        s.push(' ');
        s.push('i');
        s.push('n');
        s.push(' ');
        let u = self.step.fmt();
        s.append(u.as_str());
        proof {
            assert(s@ =~= unixtime_where_text(*self));
        }
        s
    }
}

/// A date and time of day turned into a timestamp reads back as the same date and time
/// of day: what `from_ymd_hms` builds, `civil` gives back.
pub proof fn lemma_ymd_hms_round_trip(y: int, m: int, d: int, h: int, mi: int, s: int)
    requires
        valid_date(y, m, d),
        -230000 <= y <= 230000,
        0 <= h < 24,
        0 <= mi < 60,
        0 <= s < 60,
    ensures
        ({
            let c = utc_civil(days_from_civil(y, m, d) * 86400 + h * 3600 + mi * 60 + s);
            &&& c.year == y && c.month == m && c.day == d
            &&& c.hour == h && c.minute == mi && c.second == s
        }),
{
    let days = days_from_civil(y, m, d);
    let secs = h * 3600 + mi * 60 + s;
    let t = days * 86400 + secs;
    vstd::arithmetic::div_mod::lemma_fundamental_div_mod_converse(t, 86400, days, secs);
    vstd::arithmetic::div_mod::lemma_fundamental_div_mod_converse(secs, 3600, h, mi * 60 + s);
    vstd::arithmetic::div_mod::lemma_fundamental_div_mod_converse(mi * 60 + s, 60, mi, s);
    vstd::arithmetic::div_mod::lemma_fundamental_div_mod_converse(secs, 60, h * 60 + mi, s);
    let w = (days + 3) % 7;
    let c = Civil {
        year: y as i32,
        month: m as u32,
        day: d as u32,
        hour: h as u32,
        minute: mi as u32,
        second: s as u32,
        weekday: w as u32,
    };
    assert(civil_of(c, t));
    lemma_utc_civil(c, t);
}

} // verus!
