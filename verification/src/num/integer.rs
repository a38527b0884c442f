//! Tick computations for integer axes.
use vstd::prelude::*;
use crate::fmt_num::{interval_text, write_interval_i128};
use crate::ticks::{Axis, DataBound, DefaultTickFmt, TickDistribution, TickFmt};
use crate::plotnum::{PlotNum, Tick, TickInfo};
use crate::fmt_num::{int_text, int_to_string};

use vstd::arithmetic::div_mod::{lemma_fundamental_div_mod, lemma_fundamental_div_mod_converse};

verus! {

/// The smallest multiple of `m` that is at least `val`.
pub open spec fn spec_round_up(val: int, m: int) -> int
    recommends
        m > 0,
{
    if val % m == 0 {
        val
    } else {
        val - val % m + m
    }
}

/// Basic facts about rounding up to a multiple, and how the truncating
/// divisions of the executable code compute it.
pub proof fn lemma_round_up(val: int, m: int)
    requires
        m > 0,
    ensures
        val >= 0 ==> ((val + m - 1) / m) * m == spec_round_up(val, m),
        val < 0 ==> (-((-val) / m)) * m == spec_round_up(val, m),
        val <= spec_round_up(val, m) < val + m,
        spec_round_up(val, m) % m == 0,
{
    lemma_fundamental_div_mod(val, m);
    let a = val / m;
    let b = val % m;
    assert(a * m == m * a) by (nonlinear_arith);
    assert(val == a * m + b);
    assert((a + 1) * m == a * m + m) by (nonlinear_arith);
    assert((-a) * m == -(a * m)) by (nonlinear_arith);
    assert((-a - 1) * m == -(a * m) - m) by (nonlinear_arith);
    if b == 0 {
        lemma_fundamental_div_mod_converse(val, m, a, 0);
        if val >= 0 {
            lemma_fundamental_div_mod_converse(val + m - 1, m, a, m - 1);
        } else {
            lemma_fundamental_div_mod_converse(-val, m, -a, 0);
        }
    } else {
        lemma_fundamental_div_mod_converse(val - b + m, m, a + 1, 0);
        if val >= 0 {
            lemma_fundamental_div_mod_converse(val + m - 1, m, a + 1, b - 1);
        } else {
            lemma_fundamental_div_mod_converse(-val, m, -a - 1, m - b);
        }
    }
}

/// Round `val` up to the nearest multiple of `multiple`.
pub fn round_up_to_nearest_multiple(val: i128, multiple: i128) -> (r: i128)
    requires
        multiple > 0,
        val >= 0 ==> val + multiple - 1 <= i128::MAX,
    ensures
        r == spec_round_up(val as int, multiple as int),
{
    let ss = if val >= 0 { multiple - 1 } else { 0 };
    let x = val + ss;
    let q = x / multiple;
    proof {
        lemma_round_up(val as int, multiple as int);
        if val < 0 {
            assert(q == -((-(x as int)) / (multiple as int)));
        }
    }
    q * multiple
}


/// The number of ticks `start, start + step, ...` that are at most `max`.
pub open spec fn spec_num_ticks(start: int, max: int, step: int) -> int {
    if start > max {
        0
    } else {
        (max - start) / step + 1
    }
}

/// `start + a * step` is at most `max` exactly when `a` is below the number of ticks.
pub proof fn lemma_num_ticks(start: int, max: int, step: int, a: int)
    requires
        step > 0,
        a >= 0,
    ensures
        (start + a * step <= max) <==> (a < spec_num_ticks(start, max, step)),
        spec_num_ticks(start, max, step) >= 0,
{
    if start <= max {
        let dd = max - start;
        lemma_fundamental_div_mod(dd, step);
        let q = dd / step;
        let r = dd % step;
        assert(step * q == q * step) by (nonlinear_arith);
        if a <= q {
            assert(a * step <= q * step) by (nonlinear_arith)
                requires a <= q, step > 0;
        } else {
            assert(a * step >= (q + 1) * step) by (nonlinear_arith)
                requires a >= q + 1, step > 0;
            assert((q + 1) * step == q * step + step) by (nonlinear_arith);
        }
    } else {
        assert(a * step >= 0) by (nonlinear_arith)
            requires a >= 0, step > 0;
    }
}

/// Where the first tick goes and how many ticks fit.
pub open spec fn spec_range_info(step: int, min: int, max: int) -> (int, int) {
    let start = spec_round_up(min, step);
    (start, spec_num_ticks(start, max, step))
}

/// The arguments for which `get_range_info` runs without overflow.
pub open spec fn range_info_fits(step: int, min: int, max: int) -> bool {
    let (start, n) = spec_range_info(step, min, max);
    &&& step > 0
    &&& (min >= 0 ==> min + step - 1 <= i128::MAX)
    &&& n <= u32::MAX
    &&& start + n * step <= i128::MAX
}

///
/// Returns where the first tick should be, as well as how many ticks there are
///
pub fn get_range_info(step: i128, range_all: [i128; 2]) -> (r: (i128, u32))
    requires
        range_info_fits(step as int, range_all[0] as int, range_all[1] as int),
    ensures
        (r.0 as int, r.1 as int) == spec_range_info(step as int, range_all[0] as int, range_all[1] as int),
{
    let start_step = round_up_to_nearest_multiple(range_all[0], step);
    let ghost n = spec_num_ticks(start_step as int, range_all[1] as int, step as int);
    let mut counter = start_step;
    let mut a: u32 = 0;
    proof {
        lemma_num_ticks(start_step as int, range_all[1] as int, step as int, 0);
    }
    while counter <= range_all[1]
        invariant
            range_info_fits(step as int, range_all[0] as int, range_all[1] as int),
            n == spec_num_ticks(start_step as int, range_all[1] as int, step as int),
            start_step as int == spec_round_up(range_all[0] as int, step as int),
            0 <= a <= n,
            counter == start_step + a * step,
        decreases n - a,
    {
        proof {
            lemma_num_ticks(start_step as int, range_all[1] as int, step as int, a as int);
            assert(start_step + (a + 1) * step <= start_step + n * step) by (nonlinear_arith)
                requires a + 1 <= n, step > 0;
            assert((a + 1) * step == a * step + step) by (nonlinear_arith);
        }
        counter = counter + step;
        a = a + 1;
    }
    proof {
        lemma_num_ticks(start_step as int, range_all[1] as int, step as int, a as int);
    }
    (start_step, a)
}


/// The ticks that `get_range_info` lays out are the multiples of the step within the
/// range, all of them: each lies in `[min, max]` and is a multiple of the step, one
/// step before the first is below `min`, and one step after the last is above `max`.
pub proof fn lemma_range_info_ticks(step: int, min: int, max: int, i: int)
    requires
        step > 0,
        0 <= i < spec_range_info(step, min, max).1,
    ensures
        ({
            let (start, n) = spec_range_info(step, min, max);
            &&& min <= start + i * step <= max
            &&& (start + i * step) % step == 0
            &&& start - step < min
            &&& start + n * step > max
        }),
{
    let (start, n) = spec_range_info(step, min, max);
    lemma_round_up(min, step);
    lemma_num_ticks(start, max, step, i);
    lemma_num_ticks(start, max, step, n);
    assert(i * step >= 0) by (nonlinear_arith)
        requires i >= 0, step > 0;
    lemma_fundamental_div_mod(start, step);
    let q = start / step;
    assert(start + i * step == (q + i) * step) by (nonlinear_arith)
        requires start == step * q + 0;
    lemma_fundamental_div_mod_converse(start + i * step, step, q + i, 0);
}

/// The largest power of ten that is at most `r` (one when `r < 10`).
pub open spec fn spec_pow10_floor(r: int) -> int
    decreases r,
{
    if r < 10 {
        1
    } else {
        10 * spec_pow10_floor(r / 10)
    }
}

pub proof fn lemma_pow10_floor(r: int)
    requires
        r >= 1,
    ensures
        1 <= spec_pow10_floor(r) <= r < 10 * spec_pow10_floor(r),
    decreases r,
{
    if r >= 10 {
        lemma_pow10_floor(r / 10);
    }
}

/// The magnitude that every tick step is a multiple of: the largest power of ten
/// at most the range divided by the number of intervals (and at least one).
pub open spec fn spec_step_power(ideal_num_steps: int, min: int, max: int) -> int {
    let range = max - min;
    let rough = if range >= ideal_num_steps - 1 { range / (ideal_num_steps - 1) } else { 1 };
    spec_pow10_floor(rough)
}

/// How far the number of ticks of a candidate step is from the ideal number.
pub open spec fn spec_badness(x: int, power: int, ideal_num_steps: int, min: int, max: int) -> int {
    let n = spec_range_info(x * power, min, max).1;
    if n >= ideal_num_steps { n - ideal_num_steps } else { ideal_num_steps - n }
}

/// The index of the first candidate among `steps[0..k]` with the least badness.
pub open spec fn spec_best_index(steps: Seq<u32>, k: int, power: int, ideal_num_steps: int, min: int, max: int) -> int
    decreases k,
{
    if k <= 1 {
        0
    } else {
        let b = spec_best_index(steps, k - 1, power, ideal_num_steps, min, max);
        if spec_badness(steps[k - 1] as int, power, ideal_num_steps, min, max)
            < spec_badness(steps[b] as int, power, ideal_num_steps, min, max) {
            k - 1
        } else {
            b
        }
    }
}

pub proof fn lemma_best_index_bounds(steps: Seq<u32>, k: int, power: int, ideal_num_steps: int, min: int, max: int)
    requires
        k >= 1,
    ensures
        0 <= spec_best_index(steps, k, power, ideal_num_steps, min, max) < k,
    decreases k,
{
    if k > 1 {
        lemma_best_index_bounds(steps, k - 1, power, ideal_num_steps, min, max);
    }
}

/// The largest magnitude of a value on an integer axis that the tick computations accept,
/// so that no intermediate result overflows.
pub open spec fn tick_value_bound() -> int {
    0x10_0000_0000_0000_0000_0000_0000int
}

/// The inputs on which the integer tick search runs without overflow: candidate steps are
/// positive and at most a million, as is the ideal number of ticks (at least two).
pub open spec fn good_step_args(good_steps: Seq<u32>, ideal_num_steps: int, min: int, max: int) -> bool {
    &&& good_steps.len() >= 1
    &&& forall|i: int| 0 <= i < good_steps.len() ==> 1 <= #[trigger] good_steps[i] <= 1_000_000
    &&& 2 <= ideal_num_steps <= 1_000_000
    &&& -tick_value_bound() <= min <= tick_value_bound()
    &&& -tick_value_bound() <= max <= tick_value_bound()
}

/// Under `good_step_args`, any candidate step gets a range computation without overflow
/// and a number of ticks that fits comfortably in an `i32`.
pub proof fn lemma_candidate_fits(x: int, ideal_num_steps: int, min: int, max: int)
    requires
        1 <= x <= 1_000_000,
        2 <= ideal_num_steps <= 1_000_000,
        -tick_value_bound() <= min <= tick_value_bound(),
        -tick_value_bound() <= max <= tick_value_bound(),
    ensures
        ({
            let p = spec_step_power(ideal_num_steps, min, max);
            &&& 1 <= p <= 0x20_0000_0000_0000_0000_0000_0000int
            &&& 1 <= x * p <= 0x20_0000_0000_0000_0000_0000_0000int * 1_000_000
            &&& range_info_fits(x * p, min, max)
            &&& spec_range_info(x * p, min, max).1 <= 10_000_001
            &&& spec_range_info(x * p, min, max).0 >= min
            &&& spec_range_info(x * p, min, max).0 + spec_range_info(x * p, min, max).1 * (x * p)
                <= tick_value_bound() + x * p
        }),
{
    let range = max - min;
    let n1 = ideal_num_steps - 1;
    let rough = if range >= n1 { range / n1 } else { 1 };
    let p = spec_step_power(ideal_num_steps, min, max);
    if range >= n1 {
        assert(rough <= range) by (nonlinear_arith) requires rough == range / n1, n1 >= 1, range >= 0;
        assert(rough >= 1) by (nonlinear_arith) requires rough == range / n1, n1 >= 1, range >= n1;
    }
    lemma_pow10_floor(rough);
    let step = x * p;
    assert(1 <= step <= 0x20_0000_0000_0000_0000_0000_0000int * 1_000_000) by (nonlinear_arith)
        requires 1 <= x <= 1_000_000, 1 <= p <= 0x20_0000_0000_0000_0000_0000_0000int, step == x * p;
    lemma_round_up(min, step);
    let start = spec_round_up(min, step);
    let n = spec_num_ticks(start, max, step);
    if start <= max {
        // The number of ticks is at most range / p + 1, which is below 10 * (ideal - 1) + 1.
        assert((max - start) / step <= range / step) by (nonlinear_arith)
            requires 0 <= max - start <= range, step >= 1;
        assert(p <= step) by (nonlinear_arith) requires step == x * p, x >= 1, p >= 1;
        assert(range >= 0);
        assert(range / step <= range / p) by {
            vstd::arithmetic::div_mod::lemma_div_is_ordered_by_denominator(range, p, step);
        }
        if range >= n1 {
            // rough = range / n1 < 10 p, so range < 10 p n1.
            assert(range < 10 * p * n1) by (nonlinear_arith)
                requires rough == range / n1, rough < 10 * p, n1 >= 1, range >= 0, p >= 1;
            assert(range / p < 10 * n1) by (nonlinear_arith)
                requires range < 10 * p * n1, p >= 1, range >= 0;
        } else {
            assert(p == 1);
            assert(range / p == range);
        }
        assert(n <= 10_000_001);
        assert(start + n * step <= max + step) by (nonlinear_arith)
            requires n == (max - start) / step + 1, step >= 1, max - start >= 0;
    } else {
        assert(n == 0);
        assert(start + n * step == start) by (nonlinear_arith) requires n == 0;
    }
}

///
/// Given the allowed normalized steps, the ideal number of ticks and the range,
/// returns the best step size and the normalized step (e.g. 1, 2, 5 or 10) it came from.
///
pub fn find_good_step(good_steps: &[u32], ideal_num_steps: u32, range_all: [i128; 2]) -> (r: (i128, u32))
    requires
        good_step_args(good_steps@, ideal_num_steps as int, range_all[0] as int, range_all[1] as int),
    ensures
        ({
            let (min, max) = (range_all[0] as int, range_all[1] as int);
            let p = spec_step_power(ideal_num_steps as int, min, max);
            let b = spec_best_index(good_steps@, good_steps@.len() as int, p, ideal_num_steps as int, min, max);
            &&& r.1 == good_steps@[b]
            &&& r.0 == r.1 * p
        }),
{
    let min = range_all[0];
    let max = range_all[1];
    let range = max - min;
    let n1 = (ideal_num_steps - 1) as i128;
    let rough: i128 = if range >= n1 { range / n1 } else { 1 };
    proof {
        if range >= n1 {
            assert(rough >= 1) by (nonlinear_arith) requires rough == range / n1, n1 >= 1, range >= n1;
        }
        lemma_pow10_floor(rough as int);
    }
    // the largest power of ten at most `rough`
    let mut step_power: i128 = 1;
    let mut rest: i128 = rough;
    while rest >= 10
        invariant
            1 <= rest <= rough,
            step_power >= 1,
            step_power * spec_pow10_floor(rest as int) == spec_pow10_floor(rough as int),
            spec_pow10_floor(rough as int) <= rough,
        decreases rest,
    {
        proof {
            lemma_pow10_floor((rest / 10) as int);
            assert(step_power * (10 * spec_pow10_floor((rest / 10) as int))
                == (step_power * 10) * spec_pow10_floor((rest / 10) as int)) by (nonlinear_arith);
            assert(step_power * 10 <= spec_pow10_floor(rough as int)) by (nonlinear_arith)
                requires step_power * (10 * spec_pow10_floor((rest / 10) as int)) == spec_pow10_floor(rough as int),
                    spec_pow10_floor((rest / 10) as int) >= 1, step_power >= 1;
        }
        step_power = step_power * 10;
        rest = rest / 10;
    }
    proof {
        assert(step_power == spec_pow10_floor(rough as int));
        assert(step_power == spec_step_power(ideal_num_steps as int, min as int, max as int));
    }
    let ghost p = step_power as int;
    let mut best: usize = 0;
    let mut best_badness: i64 = 0;
    let mut i: usize = 0;
    while i < good_steps.len()
        invariant
            good_step_args(good_steps@, ideal_num_steps as int, min as int, max as int),
            p == spec_step_power(ideal_num_steps as int, min as int, max as int),
            step_power == p,
            0 <= i <= good_steps.len(),
            i >= 1 ==> best == spec_best_index(good_steps@, i as int, p, ideal_num_steps as int, min as int, max as int),
            i >= 1 ==> best < i,
            i >= 1 ==> best_badness == spec_badness(good_steps@[best as int] as int, p, ideal_num_steps as int, min as int, max as int),
        decreases good_steps.len() - i,
    {
        let x = good_steps[i];
        proof {
            lemma_candidate_fits(x as int, ideal_num_steps as int, min as int, max as int);
        }
        let step = (x as i128) * step_power;
        let (_, num_steps) = get_range_info(step, [min, max]);
        let badness: i64 = if num_steps >= ideal_num_steps {
            (num_steps - ideal_num_steps) as i64
        } else {
            (ideal_num_steps - num_steps) as i64
        };
        if i == 0 || badness < best_badness {
            best = i;
            best_badness = badness;
        }
        i = i + 1;
    }
    let x = good_steps[best];
    proof {
        lemma_candidate_fits(x as int, ideal_num_steps as int, min as int, max as int);
    }
    ((x as i128) * step_power, x)
}


/// Where the ticks of an integer axis go.
#[derive(Debug, Copy, Clone, PartialEq, Eq, Structural)]
pub struct TickLayout {
    pub step: i128,
    pub start_tick: i128,
    pub num_steps: u32,
    pub normalized_step: u32,
}

/// The candidate `spec_best_index` picks has the least badness of all, and less than
/// every candidate before it: the step whose number of ticks is closest to the ideal
/// number, the first one on a tie.
pub proof fn lemma_best_index_min(steps: Seq<u32>, k: int, power: int, ideal_num_steps: int, min: int, max: int, j: int)
    requires
        0 <= j < k,
    ensures
        ({
            let b = spec_best_index(steps, k, power, ideal_num_steps, min, max);
            let bad = |x: int| spec_badness(x, power, ideal_num_steps, min, max);
            &&& bad(steps[b] as int) <= bad(steps[j] as int)
            &&& j < b ==> bad(steps[b] as int) < bad(steps[j] as int)
        }),
    decreases k,
{
    if k > 1 {
        lemma_best_index_bounds(steps, k - 1, power, ideal_num_steps, min, max);
        if j < k - 1 {
            lemma_best_index_min(steps, k - 1, power, ideal_num_steps, min, max, j);
        }
    }
}

/// The layout that `TickLayout::new` picks: the candidate step whose number of ticks is
/// closest to the ideal (at least two), the first such candidate on a tie.
pub open spec fn spec_tick_layout(good_steps: Seq<u32>, ideal_num_steps: int, min: int, max: int) -> TickLayout {
    let ideal = if ideal_num_steps < 2 { 2 } else { ideal_num_steps };
    let p = spec_step_power(ideal, min, max);
    let b = spec_best_index(good_steps, good_steps.len() as int, p, ideal, min, max);
    let x = good_steps[b];
    let (start, n) = spec_range_info(x * p, min, max);
    TickLayout { step: (x * p) as i128, start_tick: start as i128, num_steps: n as u32, normalized_step: x }
}

/// The inputs on which `TickLayout::new` runs without overflow.
pub open spec fn tick_layout_args(good_steps: Seq<u32>, ideal_num_steps: int, min: int, max: int) -> bool {
    let ideal = if ideal_num_steps < 2 { 2 } else { ideal_num_steps };
    good_step_args(good_steps, ideal, min, max)
}

/// A layout is usable when it has at least two ticks.
pub open spec fn layout_ok(l: TickLayout) -> bool {
    &&& l.num_steps >= 2
    &&& l.step > 0
    &&& l.start_tick >= -0x100_0000_0000_0000_0000_0000_0000_0000int
    &&& l.start_tick as int + l.num_steps as int * l.step as int <= 0x400_0000_0000_0000_0000_0000_0000_0000int
}

/// The value written relative to when the first or last tick would need more than
/// seven characters.
pub open spec fn spec_display_relative(l: TickLayout) -> Option<i128> {
    let end = l.start_tick + (l.num_steps - 1) * l.step;
    if interval_text(l.start_tick as int, Some(l.step)).len() > 7
        || interval_text(end, Some(l.step)).len() > 7 {
        Some(l.start_tick)
    } else {
        None
    }
}

impl TickLayout {
    /// Compute the layout, when it has at least two ticks.
    pub fn try_new(good_steps: &[u32], ideal_num_steps: u32, range_all: [i128; 2]) -> (r: Option<TickLayout>)
        requires
            tick_layout_args(good_steps@, ideal_num_steps as int, range_all[0] as int, range_all[1] as int),
        ensures
            ({
                let l = spec_tick_layout(good_steps@, ideal_num_steps as int, range_all[0] as int, range_all[1] as int);
                &&& l.num_steps >= 2 ==> r == Some(l)
                &&& l.num_steps < 2 ==> r.is_none()
                &&& l.num_steps >= 2 ==> layout_ok(l)
            }),
    {
        let ideal: u32 = if ideal_num_steps < 2 { 2 } else { ideal_num_steps };
        let (step, normalized_step) = find_good_step(good_steps, ideal, range_all);
        let ghost p = spec_step_power(ideal as int, range_all[0] as int, range_all[1] as int);
        let ghost b = spec_best_index(good_steps@, good_steps@.len() as int, p, ideal as int, range_all[0] as int, range_all[1] as int);
        proof {
            lemma_best_index_bounds(good_steps@, good_steps@.len() as int, p, ideal as int, range_all[0] as int, range_all[1] as int);
            lemma_candidate_fits(good_steps@[b] as int, ideal as int, range_all[0] as int, range_all[1] as int);
        }
        let (start_tick, num_steps) = get_range_info(step, range_all);
        if num_steps >= 2 {
            Some(TickLayout { step, start_tick, num_steps, normalized_step })
        } else {
            None
        }
    }

    /// Pick a step among the normalized steps (scaled by a power of ten) whose number of
    /// ticks in the range is closest to the ideal number.
    pub fn new(good_steps: &[u32], ideal_num_steps: u32, range_all: [i128; 2]) -> (r: TickLayout)
        requires
            tick_layout_args(good_steps@, ideal_num_steps as int, range_all[0] as int, range_all[1] as int),
            spec_tick_layout(good_steps@, ideal_num_steps as int, range_all[0] as int, range_all[1] as int).num_steps >= 2,
        ensures
            r == spec_tick_layout(good_steps@, ideal_num_steps as int, range_all[0] as int, range_all[1] as int),
            layout_ok(r),
    {
        match TickLayout::try_new(good_steps, ideal_num_steps, range_all) {
            Some(l) => l,
            None => {
                proof {
                    assert(false);
                }
                TickLayout { step: 1, start_tick: 0, num_steps: 2, normalized_step: 1 }
            },
        }
    }

    /// The tick values, and the value to write them relative to if they would be too long.
    pub fn generate(&self) -> (r: (Option<i128>, Vec<i128>))
        requires
            layout_ok(*self),
        ensures
            r.0 == spec_display_relative(*self),
            r.1@.len() == self.num_steps,
            forall|i: int| 0 <= i < r.1@.len() ==> r.1@[i] == self.start_tick + i * self.step,
    {
        proof {
            assert((self.num_steps - 1) * self.step <= self.num_steps * self.step) by (nonlinear_arith)
                requires self.num_steps >= 1, self.step > 0;
            assert((self.num_steps - 1) * self.step >= 0) by (nonlinear_arith)
                requires self.num_steps >= 1, self.step > 0;
        }
        let end = self.start_tick + ((self.num_steps - 1) as i128) * self.step;
        let start_s = write_interval_i128(self.start_tick, Some(self.step));
        let end_s = write_interval_i128(end, Some(self.step));
        let display_relative = if start_s.as_str().unicode_len() > 7 || end_s.as_str().unicode_len() > 7 {
            Some(self.start_tick)
        } else {
            None
        };
        let mut ticks: Vec<i128> = Vec::new();
        let mut a: u32 = 0;
        while a < self.num_steps
            invariant
                layout_ok(*self),
                a <= self.num_steps,
                ticks@.len() == a,
                forall|i: int| 0 <= i < a ==> ticks@[i] == self.start_tick + i * self.step,
            decreases self.num_steps - a,
        {
            proof {
                assert(self.start_tick + a * self.step <= self.start_tick + self.num_steps * self.step) by (nonlinear_arith)
                    requires a <= self.num_steps, self.step > 0;
                assert(self.start_tick + a * self.step >= self.start_tick) by (nonlinear_arith)
                    requires a >= 0, self.step > 0;
                assert(a * self.step <= self.num_steps * self.step) by (nonlinear_arith)
                    requires a <= self.num_steps, self.step > 0;
                assert(self.step * a == a * self.step) by (nonlinear_arith);
            }
            let position = self.start_tick + self.step * (a as i128);
            ticks.push(position);
            a = a + 1;
        }
        (display_relative, ticks)
    }
}

///
/// Writes integer ticks, relative to an offset when the values are long.
///
#[derive(Debug, Copy, Clone)]
pub struct IntFmt {
    pub offset: Option<i128>,
    pub axis: Axis,
    pub step: i128,
}

impl IntFmt {
    pub fn step(&self) -> (r: &i128)
        ensures
            *r == self.step,
    {
        &self.step
    }

    pub fn offset(&self) -> (r: &Option<i128>)
        ensures
            *r == self.offset,
    {
        &self.offset
    }
}

/// The variable an axis' offset is named by in tick labels.
pub open spec fn axis_var(axis: Axis) -> char {
    match axis {
        Axis::X => 'j',
        Axis::Y => 'k',
    }
}

/// A tick `val`: relative to the offset (as `j+...` or `k+...`) when there is one.
pub open spec fn int_tick_text(fmt: IntFmt, val: i128) -> Seq<char> {
    match fmt.offset {
        Some(o) => seq![axis_var(fmt.axis), '+'] + interval_text(val - o, Some(fmt.step)),
        None => interval_text(val as int, Some(fmt.step)),
    }
}

/// The footnote `where j=...` (or `k`) naming the offset, when there is one.
pub open spec fn int_where_text(fmt: IntFmt) -> Seq<char> {
    match fmt.offset {
        Some(o) => seq!['w', 'h', 'e', 'r', 'e', ' ', axis_var(fmt.axis), '='] + interval_text(o as int, None),
        None => Seq::empty(),
    }
}

fn axis_var_exec(axis: Axis) -> (c: char)
    ensures
        c == axis_var(axis),
{
    match axis {
        Axis::X => 'j',
        Axis::Y => 'k',
    }
}

impl TickFmt<i128> for IntFmt {
    open spec fn tick_ok(&self, val: i128) -> bool {
        &&& self.step > 0
        &&& (self.offset matches Some(o) ==> i128::MIN <= val - o <= i128::MAX)
    }

    open spec fn tick_spec(&self, val: i128, out: Seq<char>) -> bool {
        out == int_tick_text(*self, val)
    }

    open spec fn where_ok(&self) -> bool {
        true
    }

    open spec fn where_spec(&self, out: Seq<char>) -> bool {
        out == int_where_text(*self)
    }

    fn write_tick(&self, val: &i128) -> (s: String) {
        match self.offset {
            Some(offset) => {
                let mut s = String::new();
                s.push(axis_var_exec(self.axis));
                s.push('+');
                let t = write_interval_i128(*val - offset, Some(self.step));
                let ghost pre = s@;
                s.append(t.as_str());
                proof {
                    assert(pre == seq![axis_var(self.axis), '+']);
                }
                s
            },
            None => write_interval_i128(*val, Some(self.step)),
        }
    }

    fn write_where(&self) -> (s: String) {
        match self.offset {
            Some(offset) => {
                let mut s = String::new();
                s.push('w');
                s.push('h');
                s.push('e');
                s.push('r');
                s.push('e');
                s.push(' ');
                s.push(axis_var_exec(self.axis));
                s.push('=');
                let t = write_interval_i128(offset, None);
                let ghost pre = s@;
                s.append(t.as_str());
                proof {
                    assert(pre == seq!['w', 'h', 'e', 'r', 'e', ' ', axis_var(self.axis), '=']);
                }
                s
            },
            None => String::new(),
        }
    }
}

/// The default tick generator for `i128` axes: steps of 1, 2 or 5 times a power of ten.
#[derive(Debug, Copy, Clone)]
pub struct IntegerTickFmt;

/// The normalized steps integer axes use.
pub open spec fn integer_good_steps() -> Seq<u32> {
    seq![1u32, 2u32, 5u32]
}

impl IntegerTickFmt {
    /// Choose ticks for the bound, about `ideal_num_steps` of them.
    pub fn generate(self, data: &DataBound<i128>, ideal_num_steps: u32, axis: Axis) -> (r: TickDistribution<Vec<i128>, IntFmt>)
        requires
            tick_layout_args(integer_good_steps(), ideal_num_steps as int, data.min as int, data.max as int),
            spec_tick_layout(integer_good_steps(), ideal_num_steps as int, data.min as int, data.max as int).num_steps >= 2,
        ensures
            ({
                let l = spec_tick_layout(integer_good_steps(), ideal_num_steps as int, data.min as int, data.max as int);
                &&& r.iter@.len() == l.num_steps
                &&& forall|i: int| 0 <= i < r.iter@.len() ==> r.iter@[i] == l.start_tick + i * l.step
                &&& r.fmt == (IntFmt { offset: spec_display_relative(l), axis, step: l.step })
            }),
    {
        let good: [u32; 3] = [1, 2, 5];
        proof {
            assert(good@ == integer_good_steps());
        }
        let tick_layout = TickLayout::new(&good, ideal_num_steps, [data.min, data.max]);
        let (offset, ticks) = tick_layout.generate();
        TickDistribution { iter: ticks, fmt: IntFmt { offset, axis, step: tick_layout.step } }
    }
}


///
/// A wrapper type that displays ticks at intervals that make sense for indexing to months.
/// Ticks will appear at 1,2,6,12 instead of 1,2,5,10.
///
#[derive(Debug, Copy, Clone, PartialEq, Eq, Structural)]
pub struct MonthIndex(pub i128);

/// The steps month indices are ticked by.
pub open spec fn month_good_steps() -> Seq<u32> {
    seq![1u32, 2u32, 6u32, 12u32]
}

/// The inputs on which the month tick search runs without overflow.
pub open spec fn month_ticks_args(ideal_num_steps: int, min: int, max: int) -> bool {
    &&& 0 <= ideal_num_steps <= 0x7fff_ffff
    &&& -tick_value_bound() <= min <= tick_value_bound()
    &&& -tick_value_bound() <= max <= tick_value_bound()
    &&& max - min < 0x7fff_ffff
}

/// Where month ticks go: the step among 1, 2, 6 and 12 whose number of ticks is closest
/// to the ideal number (the first on a tie), and the first tick.
pub open spec fn spec_month_layout(ideal_num_steps: int, min: int, max: int) -> (int, int, int) {
    let b = spec_best_index(month_good_steps(), 4, 1, ideal_num_steps, min, max);
    let x = month_good_steps()[b] as int;
    let (start, n) = spec_range_info(x, min, max);
    (x, start, n)
}

proof fn lemma_month_candidate(x: int, min: int, max: int)
    requires
        1 <= x <= 12,
        -tick_value_bound() <= min <= tick_value_bound(),
        -tick_value_bound() <= max <= tick_value_bound(),
        max - min < 0x7fff_ffff,
    ensures
        range_info_fits(x, min, max),
        spec_range_info(x, min, max).1 <= 0x7fff_ffff,
        spec_range_info(x, min, max).0 >= min,
        spec_range_info(x, min, max).1 > 0 ==> spec_range_info(x, min, max).0 + spec_range_info(x, min, max).1 * x <= max + x,
{
    lemma_round_up(min, x);
    let start = spec_round_up(min, x);
    let n = spec_num_ticks(start, max, x);
    if start <= max {
        assert((max - start) / x <= max - start) by (nonlinear_arith)
            requires max - start >= 0, x >= 1;
        assert(start + n * x <= max + x) by (nonlinear_arith)
            requires n == (max - start) / x + 1, x >= 1, max - start >= 0;
    } else {
        assert(start + n * x == start) by (nonlinear_arith) requires n == 0;
    }
}

impl MonthIndex {
    /// Ticks at month-friendly intervals for the range.
    pub fn compute_ticks(ideal_num_steps: u32, range: [MonthIndex; 2]) -> (r: TickInfo<MonthIndex>)
        requires
            month_ticks_args(ideal_num_steps as int, range[0].0 as int, range[1].0 as int),
            spec_month_layout(ideal_num_steps as int, range[0].0 as int, range[1].0 as int).2 >= 2,
        ensures
            ({
                let (step, start, n) = spec_month_layout(ideal_num_steps as int, range[0].0 as int, range[1].0 as int);
                &&& r.ticks@.len() == n
                &&& forall|i: int| 0 <= i < n ==> r.ticks@[i].position == MonthIndex((start + i * step) as i128)
                    && r.ticks@[i].value == r.ticks@[i].position
                &&& r.display_relative.is_none()
            }),
    {
        let steps: [u32; 4] = [1, 2, 6, 12];
        proof {
            assert(steps@ == month_good_steps());
        }
        let min = range[0].0;
        let max = range[1].0;
        let mut best: usize = 0;
        let mut best_start: i128 = 0;
        let mut best_num: u32 = 0;
        let mut best_badness: i64 = 0;
        let mut i: usize = 0;
        while i < 4
            invariant
                steps@ == month_good_steps(),
                month_ticks_args(ideal_num_steps as int, min as int, max as int),
                0 <= i <= 4,
                i >= 1 ==> best == spec_best_index(month_good_steps(), i as int, 1, ideal_num_steps as int, min as int, max as int),
                i >= 1 ==> best < i,
                i >= 1 ==> best_badness == spec_badness(month_good_steps()[best as int] as int, 1, ideal_num_steps as int, min as int, max as int),
                i >= 1 ==> (best_start as int, best_num as int) == spec_range_info(month_good_steps()[best as int] as int, min as int, max as int),
            decreases 4 - i,
        {
            let x = steps[i];
            proof {
                lemma_month_candidate(x as int, min as int, max as int);
                assert(x as int * 1 == x as int);
            }
            let (start, num_steps) = get_range_info(x as i128, [min, max]);
            let badness: i64 = if num_steps >= ideal_num_steps {
                (num_steps - ideal_num_steps) as i64
            } else {
                (ideal_num_steps - num_steps) as i64
            };
            if i == 0 || badness < best_badness {
                best = i;
                best_badness = badness;
                best_start = start;
                best_num = num_steps;
            }
            i = i + 1;
        }
        let step = steps[best] as i128;
        proof {
            lemma_month_candidate(step as int, min as int, max as int);
        }
        let mut ticks: Vec<Tick<MonthIndex>> = Vec::new();
        let mut a: u32 = 0;
        while a < best_num
            invariant
                a <= best_num,
                1 <= step <= 12,
                best_start as int + best_num as int * step <= max + step,
                best_start >= min,
                -tick_value_bound() <= min <= tick_value_bound(),
                -tick_value_bound() <= max <= tick_value_bound(),
                ticks@.len() == a,
                forall|j: int| 0 <= j < a ==> ticks@[j].position == MonthIndex((best_start + j * step) as i128)
                    && ticks@[j].value == ticks@[j].position,
            decreases best_num - a,
        {
            proof {
                assert(a * step <= best_num * step) by (nonlinear_arith)
                    requires a <= best_num, step >= 1;
                assert(a * step >= 0) by (nonlinear_arith) requires a >= 0, step >= 1;
                assert(step * a == a * step) by (nonlinear_arith);
            }
            let position = MonthIndex(best_start + step * (a as i128));
            ticks.push(Tick { position, value: position });
            a = a + 1;
        }
        TickInfo { ticks, display_relative: None }
    }

    /// Write the index the way `{}` writes an integer.
    pub fn fmt(&self) -> (s: String)
        ensures
            s@ == int_text(self.0 as int),
    {
        int_to_string(self.0)
    }
}

/// Writes each month index the way `{}` writes an integer, with no footnote.
impl TickFmt<MonthIndex> for DefaultTickFmt {
    open spec fn tick_ok(&self, val: MonthIndex) -> bool {
        true
    }

    open spec fn tick_spec(&self, val: MonthIndex, out: Seq<char>) -> bool {
        out == int_text(val.0 as int)
    }

    open spec fn where_ok(&self) -> bool {
        true
    }

    open spec fn where_spec(&self, out: Seq<char>) -> bool {
        out == Seq::<char>::empty()
    }

    fn write_tick(&self, val: &MonthIndex) -> (s: String) {
        val.fmt()
    }

    fn write_where(&self) -> (s: String) {
        String::new()
    }
}

impl PlotNum for MonthIndex {
    open spec fn spec_is_hole(&self) -> bool {
        false
    }

    open spec fn spec_lt(&self, other: &Self) -> bool {
        self.0 < other.0
    }

    open spec fn unit_range_ok(offset: Option<Self>) -> bool {
        offset matches Some(o) ==> i128::MIN < o.0 < i128::MAX
    }

    open spec fn spec_unit_range(offset: Option<Self>) -> [Self; 2] {
        match offset {
            Some(o) => [MonthIndex((o.0 - 1) as i128), MonthIndex((o.0 + 1) as i128)],
            None => [MonthIndex(-1i128), MonthIndex(1i128)],
        }
    }

    fn is_hole(&self) -> (b: bool) {
        false
    }

    fn less_than(&self, other: &Self) -> (b: bool) {
        self.0 < other.0
    }

    fn has_unit_range(offset: Option<Self>) -> (b: bool) {
        match offset {
            Some(o) => i128::MIN < o.0 && o.0 < i128::MAX,
            None => true,
        }
    }

    fn unit_range(offset: Option<Self>) -> (r: [Self; 2]) {
        if let Some(o) = offset {
            [MonthIndex(o.0 - 1), MonthIndex(o.0 + 1)]
        } else {
            [MonthIndex(-1), MonthIndex(1)]
        }
    }

    proof fn lemma_lt_irreflexive(a: Self) {
    }

    proof fn lemma_lt_transitive(a: Self, b: Self, c: Self) {
    }

    proof fn lemma_lt_total(a: Self, b: Self) {
    }
}

/// `n` ticks from `start` on, `step` apart, lay out the range `[min, max]`: every tick
/// is a multiple of the step within the range, and none is left out (the multiple
/// before the first lies below `min`, the one after the last above `max`).
pub open spec fn ticks_over(step: int, min: int, max: int, start: int, n: int) -> bool {
    &&& step > 0
    &&& n >= 0
    &&& start % step == 0
    &&& min <= start < min + step
    &&& n > 0 ==> start + (n - 1) * step <= max
    &&& max < start + n * step
}

/// How far a number of ticks is from the ideal number.
pub open spec fn tick_distance(n: int, ideal: int) -> int {
    if n >= ideal { n - ideal } else { ideal - n }
}

/// Two multiples of `m` less than `m` apart are the same.
proof fn lemma_multiples_close(a: int, b: int, m: int)
    requires
        m > 0,
        a % m == 0,
        b % m == 0,
        a - m < b < a + m,
    ensures
        a == b,
{
    lemma_fundamental_div_mod(a, m);
    lemma_fundamental_div_mod(b, m);
    let qa = a / m;
    let qb = b / m;
    assert(qa == qb) by (nonlinear_arith)
        requires a == m * qa + 0, b == m * qb + 0, a - m < b < a + m, m > 0;
}

/// The layout `get_range_info` computes is the one that lays out the range, and no
/// other does.
pub proof fn lemma_ticks_over(step: int, min: int, max: int, start: int, n: int)
    requires
        step > 0,
    ensures
        ticks_over(step, min, max, spec_range_info(step, min, max).0, spec_range_info(step, min, max).1),
        ticks_over(step, min, max, start, n) ==> spec_range_info(step, min, max) == (start, n),
{
    let (r, k) = spec_range_info(step, min, max);
    lemma_round_up(min, step);
    lemma_num_ticks(r, max, step, k);
    if k > 0 {
        lemma_num_ticks(r, max, step, k - 1);
    }
    if ticks_over(step, min, max, start, n) {
        lemma_multiples_close(r, start, step);
        lemma_num_ticks(r, max, step, n);
        if n > 0 {
            lemma_num_ticks(r, max, step, n - 1);
        } else {
            lemma_num_ticks(r, max, step, 0);
        }
    }
}

/// `spec_pow10_floor` is a power of ten.
proof fn lemma_pow10_floor_is_pow(r: int)
    ensures
        exists|e: nat| spec_pow10_floor(r) == vstd::arithmetic::power::pow(10, e),
    decreases r,
{
    reveal(vstd::arithmetic::power::pow);
    if r < 10 {
        assert(spec_pow10_floor(r) == vstd::arithmetic::power::pow(10, 0));
    } else {
        lemma_pow10_floor_is_pow(r / 10);
        let e = choose|e: nat| spec_pow10_floor(r / 10) == vstd::arithmetic::power::pow(10, e);
        assert(spec_pow10_floor(r) == vstd::arithmetic::power::pow(10, e + 1));
    }
}

/// The power of ten that every candidate step of an integer axis is scaled by is the
/// largest power of ten at most the ideal gap `(max - min) / (ideal - 1)` between
/// `ideal` ticks spanning the range; one where the range is below `ideal - 1`.
pub proof fn lemma_step_power(ideal: int, min: int, max: int)
    requires
        ideal >= 2,
    ensures
        ({
            let p = spec_step_power(ideal, min, max);
            &&& exists|e: nat| p == vstd::arithmetic::power::pow(10, e)
            &&& max - min >= ideal - 1 ==> p <= (max - min) / (ideal - 1) < 10 * p
            &&& max - min < ideal - 1 ==> p == 1
        }),
{
    let range = max - min;
    let n1 = ideal - 1;
    let rough = if range >= n1 { range / n1 } else { 1 };
    if range >= n1 {
        assert(rough >= 1) by (nonlinear_arith) requires rough == range / n1, n1 >= 1, range >= n1;
    }
    lemma_pow10_floor(rough);
    lemma_pow10_floor_is_pow(rough);
}

/// The layout of an integer axis: the step is a candidate step times the power of
/// ten of `lemma_step_power`; the ticks lay out the range at that step; and no
/// candidate step (times that power) gives a number of ticks closer to the ideal
/// number (at least two).
pub proof fn lemma_tick_layout(good_steps: Seq<u32>, ideal_num_steps: int, min: int, max: int)
    requires
        tick_layout_args(good_steps, ideal_num_steps, min, max),
    ensures
        ({
            let ideal = if ideal_num_steps < 2 { 2 } else { ideal_num_steps };
            let p = spec_step_power(ideal, min, max);
            let l = spec_tick_layout(good_steps, ideal_num_steps, min, max);
            &&& good_steps.contains(l.normalized_step)
            &&& l.step == l.normalized_step * p
            &&& ticks_over(l.step as int, min, max, l.start_tick as int, l.num_steps as int)
            &&& forall|i: int, s2: int, n2: int| 0 <= i < good_steps.len()
                && #[trigger] ticks_over(good_steps[i] * p, min, max, s2, n2)
                ==> tick_distance(l.num_steps as int, ideal) <= tick_distance(n2, ideal)
        }),
{
    let ideal = if ideal_num_steps < 2 { 2 } else { ideal_num_steps };
    let p = spec_step_power(ideal, min, max);
    let k = good_steps.len() as int;
    let b = spec_best_index(good_steps, k, p, ideal, min, max);
    lemma_best_index_bounds(good_steps, k, p, ideal, min, max);
    let x = good_steps[b] as int;
    lemma_candidate_fits(x, ideal, min, max);
    let l = spec_tick_layout(good_steps, ideal_num_steps, min, max);
    assert(good_steps[b] == l.normalized_step);
    lemma_ticks_over(x * p, min, max, 0, 0);
    assert forall|i: int, s2: int, n2: int| 0 <= i < good_steps.len()
        && #[trigger] ticks_over(good_steps[i] * p, min, max, s2, n2)
        implies tick_distance(l.num_steps as int, ideal) <= tick_distance(n2, ideal) by {
        lemma_ticks_over(good_steps[i] * p, min, max, s2, n2);
        lemma_best_index_min(good_steps, k, p, ideal, min, max, i);
    }
}

/// The month ticks: the step is one of 1, 2, 6 and 12 months; the ticks lay out the
/// range at that step; and none of those four steps gives a number of ticks closer to
/// the ideal number.
pub proof fn lemma_month_layout(ideal_num_steps: int, min: int, max: int)
    ensures
        ({
            let (x, start, n) = spec_month_layout(ideal_num_steps, min, max);
            &&& x == 1 || x == 2 || x == 6 || x == 12
            &&& ticks_over(x, min, max, start, n)
            &&& forall|c: int, s2: int, n2: int| (c == 1 || c == 2 || c == 6 || c == 12)
                && #[trigger] ticks_over(c, min, max, s2, n2)
                ==> tick_distance(n, ideal_num_steps) <= tick_distance(n2, ideal_num_steps)
        }),
{
    let steps = month_good_steps();
    let b = spec_best_index(steps, 4, 1, ideal_num_steps, min, max);
    lemma_best_index_bounds(steps, 4, 1, ideal_num_steps, min, max);
    let x = steps[b] as int;
    assert(x * 1 == x);
    lemma_ticks_over(x, min, max, 0, 0);
    assert forall|c: int, s2: int, n2: int| (c == 1 || c == 2 || c == 6 || c == 12)
        && #[trigger] ticks_over(c, min, max, s2, n2)
        implies tick_distance(spec_month_layout(ideal_num_steps, min, max).2, ideal_num_steps) <= tick_distance(n2, ideal_num_steps) by {
        let i: int = if c == 1 { 0 } else if c == 2 { 1 } else if c == 6 { 2 } else { 3 };
        assert(steps[i] as int == c);
        assert(c * 1 == c);
        lemma_ticks_over(c, min, max, s2, n2);
        lemma_best_index_min(steps, 4, 1, ideal_num_steps, min, max, i);
    }
}

} // verus!
