//! Unix timestamps and the sequences of tick times at calendar intervals.
use vstd::prelude::*;
use crate::num::integer::{lemma_round_up, spec_round_up};
use crate::num::timestamp::calendar::{
    civil_from_timestamp, civil_of, days_before_month, days_before_year, days_from_civil,
    days_in_month, is_leap, lemma_days_before_next_year, max_timestamp, timestamp_from_ymd,
    timestamp_in_range, valid_date, year_in_range, Civil, first_of_month, utc_civil, lemma_utc_civil,
    lemma_year_start_before, lemma_month_start_before, lemma_days_before_year_strict,
    lemma_date_within_year, lemma_first_of_month_strict, lemma_date_within_month,
};

verus! {

///
/// A 64 bit integer unix timestamp in seconds since the epoch in UTC.
///
#[derive(Debug, Copy, Clone, PartialEq, Eq, Structural)]
pub struct UnixTime(pub i64);

/// Round `val` up to the nearest multiple of `multiple`.
pub fn round_up_to_nearest_multiple(val: i64, multiple: i64) -> (r: i64)
    requires
        multiple > 0,
        val >= 0 ==> val + multiple - 1 <= i64::MAX,
    ensures
        r == spec_round_up(val as int, multiple as int),
{
    let ss = if val >= 0 { multiple - 1 } else { 0 };
    let x = val + ss;
    let q = x / multiple;
    proof {
        lemma_round_up(val as int, multiple as int);
        if val < 0 {
            assert(q == -((-(x as int)) / (multiple as int)));
        }
    }
    q * multiple
}

///
/// A year and a zero indexed month, stepped through by whole months.
///
#[derive(Debug, Copy, Clone, PartialEq, Eq, Structural)]
pub struct MonthCounter {
    year: i32,
    month: u32,
}

impl MonthCounter {
    /// The month is always one of the twelve.
    #[verifier::type_invariant]
    closed spec fn month_in_year(self) -> bool {
        self.month < 12
    }

    pub closed spec fn spec_year(&self) -> i32 {
        self.year
    }

    pub closed spec fn spec_month(&self) -> u32 {
        self.month
    }

    /// The months since January of year zero.
    pub open spec fn index(&self) -> int {
        self.spec_year() * 12 + self.spec_month()
    }

    pub fn year(&self) -> (r: i32)
        ensures
            r == self.spec_year(),
    {
        self.year
    }

    /// The zero indexed month: every counter's month is below twelve.
    pub fn month(&self) -> (r: u32)
        ensures
            r == self.spec_month(),
            r < 12,
    {
        proof {
            use_type_invariant(self);
        }
        self.month
    }

    /// `month` is zero indexed.
    pub fn new(year: i32, month: u32) -> (r: Self)
        requires
            month < 12,
        ensures
            r.spec_year() == year,
            r.spec_month() == month,
    {
        MonthCounter { year, month }
    }

    /// Advance to the next month (of the current year or a later one) whose
    /// zero indexed number is a multiple of `step_value`.
    pub fn round_up_to_nearest_multiple_month(&mut self, step_value: u32)
        requires
            step_value > 0,
            old(self).spec_year() as int + spec_round_up(old(self).spec_month() as int, step_value as int) / 12 <= i32::MAX,
        ensures
            ({
                let mc = spec_round_up(old(self).spec_month() as int, step_value as int);
                &&& final(self).spec_year() == old(self).spec_year() + mc / 12
                &&& final(self).spec_month() == mc % 12
            }),
            *final(self) == old(self).spec_round_up_month(step_value),
    {
        proof {
            use_type_invariant(&*self);
            let m = self.month as int;
            let st = step_value as int;
            lemma_round_up(m, st);
            let r = spec_round_up(m, st);
            vstd::arithmetic::div_mod::lemma_fundamental_div_mod(r, st);
            let q = r / st;
            if st > 11 {
                assert(r <= st) by (nonlinear_arith)
                    requires r == st * q + 0, 0 <= r < m + st, m <= 11, st > 11;
            }
            assert(r <= u32::MAX);
        }
        let month_counter = round_up_to_nearest_multiple(self.month as i64, step_value as i64) as u32;
        let month1 = month_counter / 12;
        let month2 = month_counter % 12;
        self.year = self.year + month1 as i32;
        self.month = month2;
    }

    /// Advance by `step_value` months.
    pub fn step(&mut self, step_value: u32)
        requires
            old(self).spec_month() + step_value <= u32::MAX,
            old(self).spec_year() + (old(self).spec_month() + step_value) / 12 <= i32::MAX,
        ensures
            final(self).spec_year() == old(self).spec_year() + (old(self).spec_month() + step_value) / 12,
            final(self).spec_month() == (old(self).spec_month() + step_value) % 12,
    {
        proof {
            use_type_invariant(&*self);
        }
        let new = self.month + step_value;
        let new1 = new / 12;
        let new2 = new % 12;
        self.year = self.year + new1 as i32;
        self.month = new2;
    }
}


///
/// The times of ticks at a calendar interval, from a first tick on: the first of January of
/// every `step_value`-th year, the first of every `step_value`-th month, or every
/// `step_value` seconds (days, hours and minutes being fixed numbers of seconds in UTC).
///
#[derive(Debug, Copy, Clone)]
pub enum TickSeq {
    Years { counter: i32, step_value: i32 },
    Months { counter: MonthCounter, step_value: u32 },
    Fixed { counter: i64, step_value: i64 },
}

/// The time of the next tick.
pub open spec fn seq_first(s: TickSeq) -> int {
    match s {
        TickSeq::Years { counter, .. } => days_from_civil(counter as int, 1, 1) * 86400,
        TickSeq::Months { counter, .. } => first_of_month(counter.index()) * 86400,
        TickSeq::Fixed { counter, .. } => counter as int,
    }
}

/// The next tick can be computed, and the one after it without overflow.
pub open spec fn seq_ok(s: TickSeq) -> bool {
    match s {
        TickSeq::Years { counter, step_value } => {
            &&& year_in_range(counter as int)
            &&& step_value >= 1
            &&& counter + step_value <= i32::MAX
        },
        TickSeq::Months { counter, step_value } => {
            &&& year_in_range(counter.spec_year() as int)
            &&& counter.spec_month() < 12
            &&& step_value >= 1
            &&& counter.spec_month() + step_value <= u32::MAX
            &&& counter.spec_year() + (counter.spec_month() + step_value) / 12 <= i32::MAX
        },
        TickSeq::Fixed { counter, step_value } => {
            &&& step_value >= 1
            &&& counter + step_value <= i64::MAX
        },
    }
}

/// The sequence after its next tick was taken.
pub open spec fn seq_advance(s: TickSeq) -> TickSeq {
    match s {
        TickSeq::Years { counter, step_value } => TickSeq::Years { counter: (counter + step_value) as i32, step_value },
        TickSeq::Months { counter, step_value } => TickSeq::Months { counter: counter.spec_step(step_value), step_value },
        TickSeq::Fixed { counter, step_value } => TickSeq::Fixed { counter: (counter + step_value) as i64, step_value },
    }
}

/// The sequence after `k` ticks were taken.
pub open spec fn seq_after(s: TickSeq, k: nat) -> TickSeq
    decreases k,
{
    if k == 0 {
        s
    } else {
        seq_advance(seq_after(s, (k - 1) as nat))
    }
}

/// The time of tick number `k`.
pub open spec fn seq_nth(s: TickSeq, k: nat) -> int {
    seq_first(seq_after(s, k))
}

impl MonthCounter {
    /// The counter after `step` months.
    pub closed spec fn spec_step(&self, step: u32) -> MonthCounter {
        MonthCounter { year: (self.year + (self.month + step) / 12) as i32, month: ((self.month + step) % 12) as u32 }
    }

    pub proof fn lemma_spec_step(&self, step: u32)
        requires
            self.spec_month() < 12,
            self.spec_year() + (self.spec_month() + step) / 12 <= i32::MAX,
        ensures
            self.spec_step(step).index() == self.index() + step,
            self.spec_step(step).spec_month() < 12,
            self.spec_step(step).spec_year() == self.spec_year() + (self.spec_month() + step) / 12,
    {
        let n = self.month + step;
        vstd::arithmetic::div_mod::lemma_fundamental_div_mod(n as int, 12);
    }

    /// The month with the given index.
    pub proof fn lemma_index(&self)
        requires
            self.spec_month() < 12,
        ensures
            self.index() / 12 == self.spec_year(),
            self.index() % 12 == self.spec_month(),
    {
        vstd::arithmetic::div_mod::lemma_fundamental_div_mod_converse(self.index(), 12, self.spec_year() as int, self.spec_month() as int);
    }
}

impl TickSeq {
    /// Take the next tick.
    pub fn next(&mut self) -> (r: UnixTime)
        requires
            seq_ok(*old(self)),
        ensures
            r.0 == seq_first(*old(self)),
            *final(self) == seq_advance(*old(self)),
    {
        match self {
            TickSeq::Years { counter, step_value } => {
                let y = timestamp_from_ymd(*counter, 1, 1);
                *counter = *counter + *step_value;
                UnixTime(y)
            },
            TickSeq::Months { counter, step_value } => {
                proof {
                    counter.lemma_index();
                }
                let y = timestamp_from_ymd(counter.year(), counter.month() + 1, 1);
                let ghost before = *counter;
                counter.step(*step_value);
                proof {
                    assert(*counter == before.spec_step(*step_value));
                }
                UnixTime(y)
            },
            TickSeq::Fixed { counter, step_value } => {
                let r = *counter;
                *counter = *counter + *step_value;
                UnixTime(r)
            },
        }
    }
}

/// The search for ticks looks at no more than `max + 2` ticks, each only after all the
/// earlier ones were at most `end`: those must be computable.
pub open spec fn gen_ok(s: TickSeq, end: int, max: int) -> bool {
    forall|k: nat| #![trigger seq_after(s, k)]
        k <= max + 1 && (forall|j: nat| j < k ==> seq_nth(s, j) <= end) ==> seq_ok(seq_after(s, k))
}

/// The index of the first tick after `end` among ticks `k..=max`, if there is one.
pub open spec fn first_above(s: TickSeq, end: int, k: nat, max: nat) -> Option<nat>
    decreases max + 1 - k,
{
    if k > max {
        None
    } else if seq_nth(s, k) > end {
        Some(k)
    } else {
        first_above(s, end, k + 1, max)
    }
}

/// Where `first_above` finds a tick past `end`, every tick before it is at most `end`.
pub proof fn lemma_first_above(s: TickSeq, end: int, k: nat, max: nat)
    ensures
        first_above(s, end, k, max) matches Some(n) ==> k <= n <= max && seq_nth(s, n) > end
            && forall|j: nat| k <= j < n ==> seq_nth(s, j) <= end,
        first_above(s, end, k, max) is None ==> forall|j: nat| k <= j <= max ==> seq_nth(s, j) <= end,
    decreases max + 1 - k,
{
    if k <= max && seq_nth(s, k) <= end {
        lemma_first_above(s, end, k + 1, max);
    }
}

/// The ticks collected up to `end` are the ticks of the sequence in order, each at most
/// `end`, stopping at the first one past `end`; and there are at most `max` of them.
pub proof fn lemma_gen_tick_upto_end(s: TickSeq, end: int, max: nat)
    ensures
        spec_gen_tick(s, end, max) matches Some(v) ==> v.len() <= max
            && seq_nth(s, v.len()) > end
            && forall|i: int| 0 <= i < v.len() ==> seq_nth(s, i as nat) <= end && v[i] == UnixTime(seq_nth(s, i as nat) as i64),
        spec_gen_tick(s, end, max) is None ==> forall|j: nat| j <= max ==> seq_nth(s, j) <= end,
{
    lemma_first_above(s, end, 0, max);
}

/// Rounding a month counter up to a multiple of a step that divides twelve gives a
/// month that is a multiple of the step, at most one step less one month later, and
/// rounding again changes nothing.
pub proof fn lemma_month_round_up(year: int, month: int, step: int)
    requires
        0 <= month < 12,
        step > 0,
        12int % step == 0,
    ensures
        ({
            let mc = spec_round_up(month, step);
            let y2 = year + mc / 12;
            let m2 = mc % 12;
            &&& m2 % step == 0
            &&& 0 <= (12 * y2 + m2) - (12 * year + month) < step
            &&& y2 + spec_round_up(m2, step) / 12 == y2
            &&& spec_round_up(m2, step) % 12 == m2
        }),
{
    let mc = spec_round_up(month, step);
    lemma_round_up(month, step);
    vstd::arithmetic::div_mod::lemma_fundamental_div_mod(mc, 12);
    let q = mc / 12;
    let m2 = mc % 12;
    vstd::arithmetic::div_mod::lemma_fundamental_div_mod(mc, step);
    vstd::arithmetic::div_mod::lemma_fundamental_div_mod(12, step);
    let a = mc / step;
    let k = 12int / step;
    assert(m2 == step * (a - k * q)) by (nonlinear_arith)
        requires mc == 12 * q + m2, mc == step * a + 0, 12 == step * k + 0;
    vstd::arithmetic::div_mod::lemma_fundamental_div_mod_converse(m2, step, a - k * q, 0);
    assert(spec_round_up(m2, step) == m2);
    vstd::arithmetic::div_mod::lemma_small_mod(m2 as nat, 12);
    assert(m2 / 12 == 0) by {
        vstd::arithmetic::div_mod::lemma_fundamental_div_mod_converse(m2, 12, 0, m2);
    }
}

impl MonthCounter {
    /// The counter after rounding up to a month that is a multiple of `step`.
    pub closed spec fn spec_round_up_month(&self, step: u32) -> MonthCounter {
        let mc = spec_round_up(self.month as int, step as int);
        MonthCounter { year: (self.year + mc / 12) as i32, month: (mc % 12) as u32 }
    }

    /// Rounding a counter up to a multiple of a step that divides twelve gives a
    /// month that is a multiple of the step, less than one step later, and rounding
    /// the result again leaves it as it is.
    pub proof fn lemma_round_up_month(&self, step: u32)
        requires
            self.spec_month() < 12,
            step > 0,
            12int % (step as int) == 0,
            self.spec_year() < i32::MAX,
        ensures
            ({
                let m = self.spec_round_up_month(step);
                &&& m.spec_month() < 12
                &&& m.spec_month() % step == 0
                &&& 0 <= m.index() - self.index() < step
                &&& m.spec_round_up_month(step) == m
            }),
    {
        let month = self.month as int;
        let st = step as int;
        lemma_month_round_up(self.year as int, month, st);
        lemma_round_up(month, st);
        let mc = spec_round_up(month, st);
        if st > 12 {
            vstd::arithmetic::div_mod::lemma_small_mod(12, step as nat);
        }
        assert(mc < 24);
        vstd::arithmetic::div_mod::lemma_fundamental_div_mod(mc, 12);
        assert(mc / 12 <= 1);
        let m = self.spec_round_up_month(step);
        assert(m.year == self.year + mc / 12);
        assert(m.month == mc % 12);
        let mc2 = spec_round_up(m.month as int, st);
        assert(mc2 / 12 == 0);
        assert(mc2 % 12 == m.month);
    }
}

/// Each tick of a sequence comes before the next one.
pub proof fn lemma_seq_step_increases(s: TickSeq)
    requires
        seq_ok(s),
    ensures
        seq_first(s) < seq_first(seq_advance(s)),
{
    match s {
        TickSeq::Years { counter, step_value } => {
            let c = counter as int;
            let n = (counter + step_value) as int;
            lemma_days_before_year_strict(c, n);
        },
        TickSeq::Months { counter, step_value } => {
            counter.lemma_spec_step(step_value);
            lemma_first_of_month_strict(counter.index(), counter.spec_step(step_value).index());
        },
        TickSeq::Fixed { .. } => {},
    }
}

proof fn lemma_gen_tick_step(s: TickSeq, end: int, max: nat, k: nat)
    requires
        gen_ok(s, end, max as int),
        spec_gen_tick(s, end, max) matches Some(v) && k + 1 < v.len(),
    ensures
        seq_nth(s, k) < seq_nth(s, k + 1),
{
    lemma_gen_tick_upto_end(s, end, max);
    let v = spec_gen_tick(s, end, max).unwrap();
    assert forall|m: nat| m < k implies seq_nth(s, m) <= end by {
        let mi = m as int;
        assert(0 <= mi < v.len());
        assert(v[mi] == UnixTime(seq_nth(s, mi as nat) as i64));
        assert(mi as nat == m);
    }
    assert(seq_ok(seq_after(s, k)));
    assert(seq_after(s, k + 1) == seq_advance(seq_after(s, k)));
    lemma_seq_step_increases(seq_after(s, k));
}

/// The ticks collected up to `end` come in strictly increasing order.
pub proof fn lemma_gen_tick_increasing(s: TickSeq, end: int, max: nat, i: nat, j: nat)
    requires
        gen_ok(s, end, max as int),
        spec_gen_tick(s, end, max) matches Some(v) && j < v.len(),
        i < j,
    ensures
        seq_nth(s, i) < seq_nth(s, j),
    decreases j - i,
{
    let k = (j - 1) as nat;
    lemma_gen_tick_step(s, end, max, k);
    if i < k {
        lemma_gen_tick_increasing(s, end, max, i, k);
    }
}

/// The ticks up to `end`, or nothing when there are more than `max` of them.
pub open spec fn spec_gen_tick(s: TickSeq, end: int, max: nat) -> Option<Seq<UnixTime>> {
    match first_above(s, end, 0, max) {
        Some(n) => Some(Seq::new(n, |i: int| UnixTime(seq_nth(s, i as nat) as i64))),
        None => None,
    }
}

/// Collect the ticks up to `end`, giving up when there are more than `max_tick_num`.
pub fn gen_tick(ticks: TickSeq, end: UnixTime, max_tick_num: u32) -> (r: Option<Vec<UnixTime>>)
    requires
        gen_ok(ticks, end.0 as int, max_tick_num as int),
    ensures
        r matches Some(v) ==> spec_gen_tick(ticks, end.0 as int, max_tick_num as nat) == Some(v@),
        r is None ==> spec_gen_tick(ticks, end.0 as int, max_tick_num as nat) is None,
{
    let ghost init = ticks;
    let mut it = ticks;
    let mut set: Vec<UnixTime> = Vec::new();
    loop
        invariant
            init == ticks,
            gen_ok(init, end.0 as int, max_tick_num as int),
            set@.len() <= max_tick_num + 1,
            it == seq_after(init, set@.len() as nat),
            forall|j: int| 0 <= j < set@.len() ==> set@[j] == UnixTime(seq_nth(init, j as nat) as i64),
            forall|j: nat| j < set@.len() ==> seq_nth(init, j) <= end.0,
            first_above(init, end.0 as int, 0, max_tick_num as nat)
                == first_above(init, end.0 as int, set@.len() as nat, max_tick_num as nat),
        decreases max_tick_num + 1 - set@.len(),
    {
        let ghost k = set@.len() as nat;
        proof {
            assert(seq_ok(seq_after(init, k)));
        }
        let b = it.next();
        if set.len() > max_tick_num as usize {
            proof {
                assert(first_above(init, end.0 as int, k, max_tick_num as nat) is None);
            }
            return None;
        }
        if b.0 > end.0 {
            proof {
                assert(seq_nth(init, k) == b.0);
                assert(first_above(init, end.0 as int, k, max_tick_num as nat) == Some(k));
                assert(set@ =~= Seq::new(k, |i: int| UnixTime(seq_nth(init, i as nat) as i64)));
            }
            return Some(set);
        }
        set.push(b);
        proof {
            assert(it == seq_after(init, k + 1));
        }
    }
}


/// Conveys what unit is being used for step sizes.
#[derive(Debug, Copy, Clone, PartialEq, Eq, Structural)]
pub enum StepUnit {
    YR,
    MO,
    DY,
    HR,
    MI,
    SE,
}

/// The step sizes each unit accepts.
pub open spec fn step_in_range(unit: StepUnit, step: int) -> bool {
    1 <= step && step <= match unit {
        StepUnit::YR => 10000int,
        StepUnit::MO => 12int,
        StepUnit::DY => 31int,
        StepUnit::HR => 24int,
        StepUnit::MI => 60int,
        StepUnit::SE => 60int,
    }
}

/// Seconds per step of one unit, for the units of fixed length.
pub open spec fn unit_seconds(unit: StepUnit) -> int {
    match unit {
        StepUnit::DY => 86400,
        StepUnit::HR => 3600,
        StepUnit::MI => 60,
        _ => 1,
    }
}

/// The first multiple of `step` at or after `v`, rounding `v` up by one first when
/// `up` holds (the time is past the start of the unit).
pub open spec fn round_up_after(v: int, up: bool, step: int) -> int {
    spec_round_up(if up { v + 1 } else { v }, step)
}

/// The tick sequence of `unit` at `step` that starts at time `t`: ticks fall on
/// multiples of `step` of the unit, at or (for years) around `t`.
pub open spec fn spec_unit_ticks(unit: StepUnit, t: int, step: int) -> TickSeq {
    let c = utc_civil(t);
    let midnight = days_from_civil(c.year as int, c.month as int, c.day as int) * 86400;
    match unit {
        StepUnit::YR => TickSeq::Years {
            counter: spec_round_up(c.year as int, step) as i32,
            step_value: step as i32,
        },
        StepUnit::MO => {
            let up = c.day != 1 || c.hour != 0 || c.minute != 0 || c.second != 0;
            let m0 = (c.month - 1) as int;
            let m1 = if up { m0 + 1 } else { m0 };
            let y1 = c.year + m1 / 12;
            let mc = spec_round_up(m1 % 12, step);
            TickSeq::Months {
                counter: MonthCounter::new_spec((y1 + mc / 12) as i32, (mc % 12) as u32),
                step_value: step as u32,
            }
        },
        StepUnit::DY => {
            let dd = round_up_after(c.day - 1, c.hour != 0 || c.minute != 0 || c.second != 0, step);
            TickSeq::Fixed {
                counter: (days_from_civil(c.year as int, c.month as int, 1) * 86400 + dd * 86400) as i64,
                step_value: (step * 86400) as i64,
            }
        },
        StepUnit::HR => {
            let hh = round_up_after(c.hour as int, c.minute != 0 || c.second != 0, step);
            TickSeq::Fixed { counter: (midnight + hh * 3600) as i64, step_value: (step * 3600) as i64 }
        },
        StepUnit::MI => {
            let mm = round_up_after(c.minute as int, c.second != 0, step);
            TickSeq::Fixed { counter: (midnight + c.hour * 3600 + mm * 60) as i64, step_value: (step * 60) as i64 }
        },
        StepUnit::SE => {
            let ss = spec_round_up(c.second as int, step);
            TickSeq::Fixed {
                counter: (midnight + c.hour * 3600 + c.minute * 60 + ss) as i64,
                step_value: step as i64,
            }
        },
    }
}

impl MonthCounter {
    pub closed spec fn new_spec(year: i32, month: u32) -> MonthCounter {
        MonthCounter { year, month }
    }

    pub proof fn lemma_new_spec(year: i32, month: u32)
        ensures
            MonthCounter::new_spec(year, month).spec_year() == year,
            MonthCounter::new_spec(year, month).spec_month() == month,
    {
    }
}

// ---------------------------------------------------------------------------
// The tick sequences stay computable while their ticks are at most the end.

/// January 1 of year 230000 is later than any timestamp in range.
proof fn lemma_far_year(y: int)
    requires
        y >= 230000,
    ensures
        days_before_year(y) * 86400 > max_timestamp(),
{
    if y > 230000 {
        lemma_days_before_year_strict(230000, y);
    }
    assert(days_before_year(230000) * 86400 > max_timestamp());
}

proof fn lemma_years_after(c: int, st: int, end: int, k: nat)
    requires
        -230000 <= c <= 240000,
        1 <= st <= 10000,
        end <= max_timestamp(),
        forall|j: nat| j < k ==> #[trigger] seq_nth(TickSeq::Years { counter: c as i32, step_value: st as i32 }, j) <= end,
    ensures
        seq_after(TickSeq::Years { counter: c as i32, step_value: st as i32 }, k)
            == (TickSeq::Years { counter: (c + k * st) as i32, step_value: st as i32 }),
        c + k * st <= 240000,
        c + k * st >= c,
    decreases k,
{
    let s = TickSeq::Years { counter: c as i32, step_value: st as i32 };
    if k > 0 {
        let k1 = (k - 1) as nat;
        lemma_years_after(c, st, end, k1);
        let y = c + k1 * st;
        assert(seq_nth(s, k1) <= end);
        assert(days_from_civil(y, 1, 1) == days_before_year(y));
        if y >= 230000 {
            lemma_far_year(y);
        }
        assert(c + k * st == y + st) by (nonlinear_arith) requires y == c + k1 * st, k == k1 + 1;
        assert(k1 * st >= 0) by (nonlinear_arith) requires st >= 1;
    } else {
        assert(c + k * st == c) by (nonlinear_arith) requires k == 0;
    }
}

proof fn lemma_months_after(mc: MonthCounter, st: int, end: int, k: nat)
    requires
        -230000 <= mc.spec_year() <= 240000,
        mc.spec_month() < 12,
        1 <= st <= 12,
        end <= max_timestamp(),
        forall|j: nat| j < k ==> #[trigger] seq_nth(TickSeq::Months { counter: mc, step_value: st as u32 }, j) <= end,
    ensures
        seq_after(TickSeq::Months { counter: mc, step_value: st as u32 }, k) matches TickSeq::Months { counter, step_value }
            && step_value == st
            && counter.index() == mc.index() + k * st
            && counter.spec_month() < 12
            && mc.spec_year() <= counter.spec_year() <= 240000,
    decreases k,
{
    let s = TickSeq::Months { counter: mc, step_value: st as u32 };
    if k > 0 {
        let k1 = (k - 1) as nat;
        lemma_months_after(mc, st, end, k1);
        let prev = seq_after(s, k1);
        assert(seq_nth(s, k1) <= end);
        if let TickSeq::Months { counter, step_value } = prev {
            counter.lemma_index();
            if counter.spec_year() >= 230000 {
                lemma_far_year(counter.spec_year() as int);
                lemma_date_within_year(counter.spec_year() as int, counter.spec_month() + 1, 1);
            }
            counter.lemma_spec_step(st as u32);
            assert(k * st == k1 * st + st) by (nonlinear_arith) requires k == k1 + 1;
        }
    } else {
        assert(k * st == 0) by (nonlinear_arith) requires k == 0;
    }
}

proof fn lemma_fixed_after(c: int, st: int, end: int, k: nat)
    requires
        -max_timestamp() - 10_000_000 <= c <= max_timestamp() + 10_000_000,
        1 <= st <= 3_000_000,
        end <= max_timestamp(),
        forall|j: nat| j < k ==> #[trigger] seq_nth(TickSeq::Fixed { counter: c as i64, step_value: st as i64 }, j) <= end,
    ensures
        seq_after(TickSeq::Fixed { counter: c as i64, step_value: st as i64 }, k)
            == (TickSeq::Fixed { counter: (c + k * st) as i64, step_value: st as i64 }),
        c <= c + k * st <= max_timestamp() + 3_000_000 || k == 0,
    decreases k,
{
    let s = TickSeq::Fixed { counter: c as i64, step_value: st as i64 };
    if k > 0 {
        let k1 = (k - 1) as nat;
        lemma_fixed_after(c, st, end, k1);
        assert(seq_nth(s, k1) <= end);
        assert(c + k * st == c + k1 * st + st) by (nonlinear_arith) requires k == k1 + 1;
        assert(k1 * st >= 0) by (nonlinear_arith) requires st >= 1;
    } else {
        assert(c + k * st == c) by (nonlinear_arith) requires k == 0;
    }
}

/// The tick sequences the constructors build stay computable.
proof fn lemma_gen_ok_years(c: int, st: int, end: int, max: int)
    requires
        -230000 <= c <= 240000,
        1 <= st <= 10000,
        end <= max_timestamp(),
    ensures
        gen_ok(TickSeq::Years { counter: c as i32, step_value: st as i32 }, end, max),
{
    let s = TickSeq::Years { counter: c as i32, step_value: st as i32 };
    assert forall|k: nat| #![trigger seq_after(s, k)]
        k <= max + 1 && (forall|j: nat| j < k ==> seq_nth(s, j) <= end) implies seq_ok(seq_after(s, k)) by {
        lemma_years_after(c, st, end, k);
    }
}

proof fn lemma_gen_ok_months(mc: MonthCounter, st: int, end: int, max: int)
    requires
        -230000 <= mc.spec_year() <= 240000,
        mc.spec_month() < 12,
        1 <= st <= 12,
        end <= max_timestamp(),
    ensures
        gen_ok(TickSeq::Months { counter: mc, step_value: st as u32 }, end, max),
{
    let s = TickSeq::Months { counter: mc, step_value: st as u32 };
    assert forall|k: nat| #![trigger seq_after(s, k)]
        k <= max + 1 && (forall|j: nat| j < k ==> seq_nth(s, j) <= end) implies seq_ok(seq_after(s, k)) by {
        lemma_months_after(mc, st, end, k);
    }
}

proof fn lemma_gen_ok_fixed(c: int, st: int, end: int, max: int)
    requires
        -max_timestamp() - 10_000_000 <= c <= max_timestamp() + 10_000_000,
        1 <= st <= 3_000_000,
        end <= max_timestamp(),
    ensures
        gen_ok(TickSeq::Fixed { counter: c as i64, step_value: st as i64 }, end, max),
{
    let s = TickSeq::Fixed { counter: c as i64, step_value: st as i64 };
    assert forall|k: nat| #![trigger seq_after(s, k)]
        k <= max + 1 && (forall|j: nat| j < k ==> seq_nth(s, j) <= end) implies seq_ok(seq_after(s, k)) by {
        lemma_fixed_after(c, st, end, k);
    }
}


/// The tick sequence of `unit` at `step_value` starting at time `start`.
#[verifier::spinoff_prover]
#[verifier::rlimit(40)]
pub fn unit_ticks(unit: StepUnit, start: UnixTime, step_value: i64) -> (s: TickSeq)
    requires
        timestamp_in_range(start.0 as int),
        step_in_range(unit, step_value as int),
    ensures
        s == spec_unit_ticks(unit, start.0 as int, step_value as int),
        forall|end: int, max: int| end <= max_timestamp() ==> #[trigger] gen_ok(s, end, max),
{
    let c = civil_from_timestamp(start.0);
    proof {
        lemma_utc_civil(c, start.0 as int);
        lemma_date_within_month(c.year as int, c.month as int, c.day as int);
        assert(days_from_civil(c.year as int, c.month as int, 1) == days_from_civil(c.year as int, c.month as int, c.day as int) - (c.day - 1));
    }
    let ghost days = start.0 as int / 86400;
    match unit {
        StepUnit::YR => {
            let counter = round_up_to_nearest_multiple(c.year as i64, step_value) as i32;
            proof {
                lemma_round_up(c.year as int, step_value as int);
            }
            let s = TickSeq::Years { counter, step_value: step_value as i32 };
            proof {
                assert forall|end: int, max: int| end <= max_timestamp() implies #[trigger] gen_ok(s, end, max) by {
                    lemma_gen_ok_years(counter as int, step_value as int, end, max);
                }
            }
            s
        },
        StepUnit::MO => {
            let mut m = MonthCounter::new(c.year, c.month - 1);
            if c.day != 1 || c.hour != 0 || c.minute != 0 || c.second != 0 {
                m.step(1);
            }
            proof {
                lemma_round_up(m.spec_month() as int, step_value as int);
            }
            m.round_up_to_nearest_multiple_month(step_value as u32);
            proof {
                MonthCounter::lemma_new_spec(m.spec_year(), m.spec_month());
            }
            let s = TickSeq::Months { counter: m, step_value: step_value as u32 };
            proof {
                assert forall|end: int, max: int| end <= max_timestamp() implies #[trigger] gen_ok(s, end, max) by {
                    lemma_gen_ok_months(m, step_value as int, end, max);
                }
            }
            s
        },
        StepUnit::DY => {
            let mut dd = (c.day - 1) as i64;
            if c.hour != 0 || c.minute != 0 || c.second != 0 {
                dd = dd + 1;
            }
            proof {
                lemma_round_up(dd as int, step_value as int);
            }
            let dd = round_up_to_nearest_multiple(dd, step_value);
            let base = timestamp_from_ymd(c.year, c.month, 1);
            let counter = base + dd * 86400;
            let s = TickSeq::Fixed { counter, step_value: step_value * 86400 };
            proof {
                assert forall|end: int, max: int| end <= max_timestamp() implies #[trigger] gen_ok(s, end, max) by {
                    lemma_gen_ok_fixed(counter as int, step_value * 86400, end, max);
                }
            }
            s
        },
        StepUnit::HR => {
            let mut hh = c.hour as i64;
            if c.minute != 0 || c.second != 0 {
                hh = hh + 1;
            }
            proof {
                lemma_round_up(hh as int, step_value as int);
            }
            let hh = round_up_to_nearest_multiple(hh, step_value);
            let base = timestamp_from_ymd(c.year, c.month, c.day);
            let counter = base + hh * 3600;
            let s = TickSeq::Fixed { counter, step_value: step_value * 3600 };
            proof {
                assert forall|end: int, max: int| end <= max_timestamp() implies #[trigger] gen_ok(s, end, max) by {
                    lemma_gen_ok_fixed(counter as int, step_value * 3600, end, max);
                }
            }
            s
        },
        StepUnit::MI => {
            let mut mm = c.minute as i64;
            if c.second != 0 {
                mm = mm + 1;
            }
            proof {
                lemma_round_up(mm as int, step_value as int);
            }
            let mm = round_up_to_nearest_multiple(mm, step_value);
            let base = timestamp_from_ymd(c.year, c.month, c.day);
            let counter = base + (c.hour as i64) * 3600 + mm * 60;
            let s = TickSeq::Fixed { counter, step_value: step_value * 60 };
            proof {
                assert forall|end: int, max: int| end <= max_timestamp() implies #[trigger] gen_ok(s, end, max) by {
                    lemma_gen_ok_fixed(counter as int, step_value * 60, end, max);
                }
            }
            s
        },
        StepUnit::SE => {
            proof {
                lemma_round_up(c.second as int, step_value as int);
            }
            let ss = round_up_to_nearest_multiple(c.second as i64, step_value);
            let base = timestamp_from_ymd(c.year, c.month, c.day);
            let counter = base + (c.hour as i64) * 3600 + (c.minute as i64) * 60 + ss;
            let s = TickSeq::Fixed { counter, step_value };
            proof {
                assert forall|end: int, max: int| end <= max_timestamp() implies #[trigger] gen_ok(s, end, max) by {
                    lemma_gen_ok_fixed(counter as int, step_value as int, end, max);
                }
            }
            s
        },
    }
}

impl UnixTime {
    /// Ticks at the first of January of every `step_value`-th year, from the first one at or after this time (UTC).
    pub fn years(&self, step_value: i64) -> (s: TickSeq)
        requires
            timestamp_in_range(self.0 as int),
            step_in_range(StepUnit::YR, step_value as int),
        ensures
            s == spec_unit_ticks(StepUnit::YR, self.0 as int, step_value as int),
            forall|end: int, max: int| end <= max_timestamp() ==> #[trigger] gen_ok(s, end, max),
    {
        unit_ticks(StepUnit::YR, *self, step_value)
    }

    /// Ticks at the first of every `step_value`-th month of the year, from the first one at or after this time (UTC).
    pub fn months(&self, step_value: i64) -> (s: TickSeq)
        requires
            timestamp_in_range(self.0 as int),
            step_in_range(StepUnit::MO, step_value as int),
        ensures
            s == spec_unit_ticks(StepUnit::MO, self.0 as int, step_value as int),
            forall|end: int, max: int| end <= max_timestamp() ==> #[trigger] gen_ok(s, end, max),
    {
        unit_ticks(StepUnit::MO, *self, step_value)
    }

    /// Ticks at midnight of every `step_value`-th day of the month, from the first one at or after this time (UTC).
    pub fn days(&self, step_value: i64) -> (s: TickSeq)
        requires
            timestamp_in_range(self.0 as int),
            step_in_range(StepUnit::DY, step_value as int),
        ensures
            s == spec_unit_ticks(StepUnit::DY, self.0 as int, step_value as int),
            forall|end: int, max: int| end <= max_timestamp() ==> #[trigger] gen_ok(s, end, max),
    {
        unit_ticks(StepUnit::DY, *self, step_value)
    }

    /// Ticks at every `step_value`-th hour of the day, from the first one at or after this time (UTC).
    pub fn hours(&self, step_value: i64) -> (s: TickSeq)
        requires
            timestamp_in_range(self.0 as int),
            step_in_range(StepUnit::HR, step_value as int),
        ensures
            s == spec_unit_ticks(StepUnit::HR, self.0 as int, step_value as int),
            forall|end: int, max: int| end <= max_timestamp() ==> #[trigger] gen_ok(s, end, max),
    {
        unit_ticks(StepUnit::HR, *self, step_value)
    }

    /// Ticks at every `step_value`-th minute of the hour, from the first one at or after this time (UTC).
    pub fn minutes(&self, step_value: i64) -> (s: TickSeq)
        requires
            timestamp_in_range(self.0 as int),
            step_in_range(StepUnit::MI, step_value as int),
        ensures
            s == spec_unit_ticks(StepUnit::MI, self.0 as int, step_value as int),
            forall|end: int, max: int| end <= max_timestamp() ==> #[trigger] gen_ok(s, end, max),
    {
        unit_ticks(StepUnit::MI, *self, step_value)
    }

    /// Ticks at every `step_value`-th second of the minute, from the first one at or after this time (UTC).
    pub fn seconds(&self, step_value: i64) -> (s: TickSeq)
        requires
            timestamp_in_range(self.0 as int),
            step_in_range(StepUnit::SE, step_value as int),
        ensures
            s == spec_unit_ticks(StepUnit::SE, self.0 as int, step_value as int),
            forall|end: int, max: int| end <= max_timestamp() ==> #[trigger] gen_ok(s, end, max),
    {
        unit_ticks(StepUnit::SE, *self, step_value)
    }
}

} // verus!
