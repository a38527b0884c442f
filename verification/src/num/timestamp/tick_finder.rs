//! Searching the calendar units and step sizes for the best set of time ticks.
use vstd::prelude::*;
use crate::num::timestamp::unixtime::{
    gen_ok, gen_tick, spec_gen_tick, spec_unit_ticks, step_in_range, unit_ticks, StepUnit, UnixTime,
};
use crate::num::timestamp::calendar::{max_timestamp, timestamp_in_range};
use crate::ticks::{Axis, DataBound, TickDistribution};

verus! {

/// One candidate set of ticks: the ticks, their unit and the step size in that unit.
#[derive(Debug)]
pub struct Candidate {
    pub ticks: Vec<UnixTime>,
    pub unit_data: StepUnit,
    pub chosen_tick: i64,
}

/// What a candidate holds, as plain values.
pub open spec fn cand_view(c: &Candidate) -> (Seq<UnixTime>, StepUnit, i64) {
    (c.ticks@, c.unit_data, c.chosen_tick)
}

/// How far a number of ticks is from the ideal number.
pub open spec fn closeness(ideal: int, len: int) -> int {
    if ideal >= len { ideal - len } else { len - ideal }
}

/// Whether a candidate with `new_len` ticks replaces the best one with `old_len` ticks:
/// when it is closer to the ideal, or as close and has fewer ticks.
pub open spec fn spec_is_better(ideal: int, new_len: int, old_len: int) -> bool {
    let n = closeness(ideal, new_len);
    let o = closeness(ideal, old_len);
    n < o || (n == o && new_len < old_len)
}

/// The best candidate after considering `cand`.
pub open spec fn spec_consider(
    best: (Seq<UnixTime>, StepUnit, i64),
    cand: (Seq<UnixTime>, StepUnit, i64),
    ideal: int,
) -> (Seq<UnixTime>, StepUnit, i64) {
    if spec_is_better(ideal, cand.0.len() as int, best.0.len() as int) {
        cand
    } else {
        best
    }
}

/// The best candidate after considering the step sizes `steps[i - 1]`, `steps[i - 2]`, ...,
/// `steps[0]` of `unit`, stopping at the first step size with too many ticks.
pub open spec fn spec_consider_steps(
    best: (Seq<UnixTime>, StepUnit, i64),
    unit: StepUnit,
    start: int,
    end: int,
    max: nat,
    ideal: int,
    steps: Seq<i64>,
    i: int,
) -> (Seq<UnixTime>, StepUnit, i64)
    decreases i,
{
    if i <= 0 {
        best
    } else {
        match spec_gen_tick(spec_unit_ticks(unit, start, steps[i - 1] as int), end, max) {
            None => best,
            Some(t) => spec_consider_steps(
                spec_consider(best, (t, unit, steps[i - 1]), ideal),
                unit,
                start,
                end,
                max,
                ideal,
                steps,
                i - 1,
            ),
        }
    }
}

///
/// Keeps the best set of ticks seen so far.
///
#[derive(Debug)]
pub struct BestTickFinder {
    pub ideal_num_steps: u32,
    pub end: UnixTime,
    /// The number of ticks at which to give up on a candidate.
    pub max_tick_num: u32,
    pub best: Candidate,
}

impl BestTickFinder {
    pub fn new(end: UnixTime, ideal_num_steps: u32) -> (r: Self)
        requires
            ideal_num_steps <= 0x7fff_ffff,
        ensures
            r.ideal_num_steps == ideal_num_steps,
            r.end == end,
            r.max_tick_num == ideal_num_steps * 2,
            cand_view(&r.best) == (Seq::<UnixTime>::empty(), StepUnit::YR, 0i64),
    {
        BestTickFinder {
            ideal_num_steps,
            end,
            max_tick_num: ideal_num_steps * 2,
            best: Candidate { ticks: Vec::new(), unit_data: StepUnit::YR, chosen_tick: 0 },
        }
    }

    /// The best candidate, if it has at least two ticks.
    pub fn into_best(self) -> (r: Option<Candidate>)
        ensures
            self.best.ticks@.len() >= 2 ==> (r matches Some(c) && cand_view(&c) == cand_view(&self.best)),
            self.best.ticks@.len() < 2 ==> r is None,
    {
        if self.best.ticks.len() >= 2 {
            Some(self.best)
        } else {
            None
        }
    }

    /// Returns true if the candidate was chosen.
    pub fn consider_set(&mut self, candidate: Candidate) -> (chosen: bool)
        ensures
            chosen == spec_is_better(old(self).ideal_num_steps as int, candidate.ticks@.len() as int, old(self).best.ticks@.len() as int),
            cand_view(&final(self).best) == spec_consider(cand_view(&old(self).best), cand_view(&candidate), old(self).ideal_num_steps as int),
            final(self).ideal_num_steps == old(self).ideal_num_steps,
            final(self).end == old(self).end,
            final(self).max_tick_num == old(self).max_tick_num,
            chosen ==> final(self).best == candidate,
            !chosen ==> final(self).best == old(self).best,
    {
        let ideal = self.ideal_num_steps as i128;
        let new_len = candidate.ticks.len() as i128;
        let old_len = self.best.ticks.len() as i128;
        let new_closeness: i128 = if ideal >= new_len { ideal - new_len } else { new_len - ideal };
        let old_closeness: i128 = if ideal >= old_len { ideal - old_len } else { old_len - ideal };
        let is_better = new_closeness < old_closeness
            || (new_closeness == old_closeness && candidate.ticks.len() < self.best.ticks.len());
        if is_better {
            self.best = candidate;
            true
        } else {
            false
        }
    }

    /// Consider the step sizes of `unit`, largest first, for ticks from `start`.
    /// Stops at the first step size that gives too many ticks, since smaller steps
    /// only give more.
    pub fn consider_meta(&mut self, unit_data: StepUnit, start: UnixTime, step_sizes: &[i64])
        requires
            timestamp_in_range(start.0 as int),
            timestamp_in_range(old(self).end.0 as int),
            forall|i: int| 0 <= i < step_sizes@.len() ==> step_in_range(unit_data, #[trigger] step_sizes@[i] as int),
        ensures
            cand_view(&final(self).best) == spec_consider_steps(
                cand_view(&old(self).best),
                unit_data,
                start.0 as int,
                old(self).end.0 as int,
                old(self).max_tick_num as nat,
                old(self).ideal_num_steps as int,
                step_sizes@,
                step_sizes@.len() as int,
            ),
            final(self).ideal_num_steps == old(self).ideal_num_steps,
            final(self).end == old(self).end,
            final(self).max_tick_num == old(self).max_tick_num,
    {
        let ghost b0 = cand_view(&self.best);
        let mut i = step_sizes.len();
        while i > 0
            invariant_except_break
                i <= step_sizes@.len(),
                timestamp_in_range(start.0 as int),
                timestamp_in_range(self.end.0 as int),
                forall|j: int| 0 <= j < step_sizes@.len() ==> step_in_range(unit_data, #[trigger] step_sizes@[j] as int),
                self.ideal_num_steps == old(self).ideal_num_steps,
                self.end == old(self).end,
                self.max_tick_num == old(self).max_tick_num,
                spec_consider_steps(b0, unit_data, start.0 as int, self.end.0 as int, self.max_tick_num as nat,
                    self.ideal_num_steps as int, step_sizes@, step_sizes@.len() as int)
                == spec_consider_steps(cand_view(&self.best), unit_data, start.0 as int, self.end.0 as int,
                    self.max_tick_num as nat, self.ideal_num_steps as int, step_sizes@, i as int),
            ensures
                self.ideal_num_steps == old(self).ideal_num_steps,
                self.end == old(self).end,
                self.max_tick_num == old(self).max_tick_num,
                cand_view(&self.best) == spec_consider_steps(b0, unit_data, start.0 as int, self.end.0 as int,
                    self.max_tick_num as nat, self.ideal_num_steps as int, step_sizes@, step_sizes@.len() as int),
            decreases i,
        {
            let a = step_sizes[i - 1];
            let seq = unit_ticks(unit_data, start, a);
            proof {
                assert(gen_ok(seq, self.end.0 as int, self.max_tick_num as int));
            }
            match gen_tick(seq, self.end, self.max_tick_num) {
                Some(ticks) => {
                    self.consider_set(Candidate { ticks, unit_data, chosen_tick: a });
                },
                None => {
                    // Since we are handling smaller and smaller step sizes,
                    // if gen_tick fails, that means it has too many ticks,
                    // so we can safely exit the loop because the intervals
                    // are just going to get smaller and smaller.
                    break;
                },
            }
            i = i - 1;
        }
    }
}


pub open spec fn spec_steps_yr() -> Seq<i64> {
    seq![1i64, 2, 5, 10, 20, 25, 50, 100, 200, 500, 1000, 2000, 5000]
}

pub open spec fn spec_steps_mo() -> Seq<i64> {
    seq![1i64, 2, 3, 6]
}

pub open spec fn spec_steps_dy() -> Seq<i64> {
    seq![1i64, 2, 4, 5, 7]
}

pub open spec fn spec_steps_hr() -> Seq<i64> {
    seq![1i64, 2, 4, 6]
}

pub open spec fn spec_steps_mi() -> Seq<i64> {
    seq![1i64, 2, 10, 15, 30]
}

pub open spec fn spec_steps_se() -> Seq<i64> {
    seq![1i64, 2, 5, 10, 15, 30]
}

/// The best candidate over all units, from years down to seconds, each unit's step sizes
/// from the largest down.
pub open spec fn spec_unixtime_best(start: int, end: int, ideal_num_steps: int) -> (Seq<UnixTime>, StepUnit, i64) {
    let ideal = if ideal_num_steps < 2 { 2 } else { ideal_num_steps };
    let max = (ideal * 2) as nat;
    let b0 = (Seq::<UnixTime>::empty(), StepUnit::YR, 0i64);
    let b1 = spec_consider_steps(b0, StepUnit::YR, start, end, max, ideal, spec_steps_yr(), 13);
    let b2 = spec_consider_steps(b1, StepUnit::MO, start, end, max, ideal, spec_steps_mo(), 4);
    let b3 = spec_consider_steps(b2, StepUnit::DY, start, end, max, ideal, spec_steps_dy(), 5);
    let b4 = spec_consider_steps(b3, StepUnit::HR, start, end, max, ideal, spec_steps_hr(), 4);
    let b5 = spec_consider_steps(b4, StepUnit::MI, start, end, max, ideal, spec_steps_mi(), 5);
    spec_consider_steps(b5, StepUnit::SE, start, end, max, ideal, spec_steps_se(), 6)
}

/// The inputs on which the time tick search runs: a range within the timestamps
/// chrono's calendar is used for, and an ideal number of ticks whose double fits.
pub open spec fn unixtime_ticks_args(bound: DataBound<UnixTime>, ideal_num_steps: int) -> bool {
    &&& timestamp_in_range(bound.min.0 as int)
    &&& timestamp_in_range(bound.max.0 as int)
    &&& bound.min.0 <= bound.max.0
    &&& ideal_num_steps <= 0x7fff_ffff
}

/// Search all units and step sizes for the set of ticks closest to the ideal number.
/// Returns `None` when no candidate has at least two ticks.
pub fn try_unixtime_ticks(bound: &DataBound<UnixTime>, ideal_num_steps: u32) -> (r: Option<Candidate>)
    requires
        unixtime_ticks_args(*bound, ideal_num_steps as int),
    ensures
        ({
            let best = spec_unixtime_best(bound.min.0 as int, bound.max.0 as int, ideal_num_steps as int);
            &&& best.0.len() >= 2 ==> (r matches Some(c) && cand_view(&c) == best)
            &&& best.0.len() < 2 ==> r is None
        }),
{
    let start = bound.min;
    let end = bound.max;
    let ideal_num_steps = if ideal_num_steps < 2 { 2 } else { ideal_num_steps };
    let mut t = BestTickFinder::new(end, ideal_num_steps);
    let steps_yr: [i64; 13] = [1, 2, 5, 10, 20, 25, 50, 100, 200, 500, 1000, 2000, 5000];
    let steps_mo: [i64; 4] = [1, 2, 3, 6];
    let steps_dy: [i64; 5] = [1, 2, 4, 5, 7];
    let steps_hr: [i64; 4] = [1, 2, 4, 6];
    let steps_mi: [i64; 5] = [1, 2, 10, 15, 30];
    let steps_se: [i64; 6] = [1, 2, 5, 10, 15, 30];
    proof {
        assert(steps_yr@ == spec_steps_yr());
        assert(steps_mo@ == spec_steps_mo());
        assert(steps_dy@ == spec_steps_dy());
        assert(steps_hr@ == spec_steps_hr());
        assert(steps_mi@ == spec_steps_mi());
        assert(steps_se@ == spec_steps_se());
    }
    t.consider_meta(StepUnit::YR, start, &steps_yr);
    t.consider_meta(StepUnit::MO, start, &steps_mo);
    t.consider_meta(StepUnit::DY, start, &steps_dy);
    t.consider_meta(StepUnit::HR, start, &steps_hr);
    t.consider_meta(StepUnit::MI, start, &steps_mi);
    t.consider_meta(StepUnit::SE, start, &steps_se);
    t.into_best()
}

/// Writes time ticks in the step unit chosen for them.
#[derive(Debug, Copy, Clone)]
pub struct UnixTimeTickFmt {
    pub step: StepUnit,
    pub start: UnixTime,
    pub axis: Axis,
}

impl UnixTimeTickFmt {
    pub fn step(&self) -> (r: StepUnit)
        ensures
            r == self.step,
    {
        self.step
    }

    pub fn start(&self) -> (r: UnixTime)
        ensures
            r == self.start,
    {
        self.start
    }

    pub fn axis(&self) -> (r: Axis)
        ensures
            r == self.axis,
    {
        self.axis
    }
}

/// Ticks for a time axis: the best candidate's ticks, written in its unit, with the first
/// tick as the start the footnote names.
pub fn unixtime_ticks(bound: &DataBound<UnixTime>, ideal_num_steps: u32, axis: Axis) -> (r: TickDistribution<Vec<UnixTime>, UnixTimeTickFmt>)
    requires
        unixtime_ticks_args(*bound, ideal_num_steps as int),
        spec_unixtime_best(bound.min.0 as int, bound.max.0 as int, ideal_num_steps as int).0.len() >= 2,
    ensures
        ({
            let best = spec_unixtime_best(bound.min.0 as int, bound.max.0 as int, ideal_num_steps as int);
            &&& r.iter@ == best.0
            &&& r.fmt == (UnixTimeTickFmt { step: best.1, start: best.0[0], axis })
        }),
{
    match try_unixtime_ticks(bound, ideal_num_steps) {
        Some(ret) => {
            let ticks = ret.ticks;
            let start = ticks[0];
            TickDistribution { iter: ticks, fmt: UnixTimeTickFmt { step: ret.unit_data, start, axis } }
        },
        None => {
            proof {
                assert(false);
            }
            TickDistribution {
                iter: Vec::new(),
                fmt: UnixTimeTickFmt { step: StepUnit::YR, start: bound.min, axis },
            }
        },
    }
}

/// Whether a set of `a_len` ticks is no worse than one of `b_len` ticks: its number
/// of ticks is closer to the ideal, or as close and no larger.
pub open spec fn no_worse(ideal: int, a_len: int, b_len: int) -> bool {
    let a = if a_len >= ideal { a_len - ideal } else { ideal - a_len };
    let b = if b_len >= ideal { b_len - ideal } else { ideal - b_len };
    a < b || (a == b && a_len <= b_len)
}

/// The step sizes tried for each unit.
pub open spec fn tick_steps(unit: StepUnit) -> Seq<i64> {
    match unit {
        StepUnit::YR => seq![1i64, 2, 5, 10, 20, 25, 50, 100, 200, 500, 1000, 2000, 5000],
        StepUnit::MO => seq![1i64, 2, 3, 6],
        StepUnit::DY => seq![1i64, 2, 4, 5, 7],
        StepUnit::HR => seq![1i64, 2, 4, 6],
        StepUnit::MI => seq![1i64, 2, 10, 15, 30],
        StepUnit::SE => seq![1i64, 2, 5, 10, 15, 30],
    }
}

/// The ticks of `unit` every `step` from `start` up to `end`, when there are at most
/// `max` of them.
pub open spec fn unit_candidate(unit: StepUnit, start: int, end: int, max: nat, step: i64) -> Option<Seq<UnixTime>> {
    spec_gen_tick(spec_unit_ticks(unit, start, step as int), end, max)
}

/// The step sizes `steps[k..i]` of `unit` all give at most `max` ticks.
pub open spec fn fits_from(unit: StepUnit, start: int, end: int, max: nat, steps: Seq<i64>, k: int, i: int) -> bool {
    forall|j: int| k <= j < i ==> (#[trigger] unit_candidate(unit, start, end, max, steps[j])) is Some
}

/// Step size `steps[k]` of `unit` is tried: it and every larger step size of the unit
/// give at most `max` ticks (the search goes from the largest step size down and stops
/// at the first that gives too many).
pub open spec fn reached(unit: StepUnit, start: int, end: int, max: nat, k: int) -> bool {
    &&& 0 <= k < tick_steps(unit).len()
    &&& fits_from(unit, start, end, max, tick_steps(unit), k, tick_steps(unit).len() as int)
}

proof fn lemma_consider(best: (Seq<UnixTime>, StepUnit, i64), cand: (Seq<UnixTime>, StepUnit, i64), ideal: int)
    ensures
        no_worse(ideal, spec_consider(best, cand, ideal).0.len() as int, best.0.len() as int),
        no_worse(ideal, spec_consider(best, cand, ideal).0.len() as int, cand.0.len() as int),
        spec_consider(best, cand, ideal) == best || spec_consider(best, cand, ideal) == cand,
{
}

/// What considering the step sizes `steps[i - 1]`, ..., `steps[0]` gives: no worse than
/// before, no worse than each step size tried, and either what it was or one of those.
proof fn lemma_consider_steps(
    b: (Seq<UnixTime>, StepUnit, i64),
    unit: StepUnit,
    start: int,
    end: int,
    max: nat,
    ideal: int,
    steps: Seq<i64>,
    i: int,
)
    requires
        0 <= i <= steps.len(),
    ensures
        ({
            let r = spec_consider_steps(b, unit, start, end, max, ideal, steps, i);
            &&& no_worse(ideal, r.0.len() as int, b.0.len() as int)
            &&& forall|k: int| 0 <= k < i && #[trigger] fits_from(unit, start, end, max, steps, k, i)
                ==> no_worse(ideal, r.0.len() as int, unit_candidate(unit, start, end, max, steps[k]).unwrap().len() as int)
            &&& r == b || exists|k: int| 0 <= k < i && #[trigger] fits_from(unit, start, end, max, steps, k, i)
                && unit_candidate(unit, start, end, max, steps[k]) == Some(r.0) && r.1 == unit && r.2 == steps[k]
        }),
    decreases i,
{
    if i > 0 {
        let r = spec_consider_steps(b, unit, start, end, max, ideal, steps, i);
        match unit_candidate(unit, start, end, max, steps[i - 1]) {
            None => {
                assert forall|k: int| 0 <= k < i && #[trigger] fits_from(unit, start, end, max, steps, k, i)
                    implies false by {
                    assert(unit_candidate(unit, start, end, max, steps[i - 1]) is Some);
                }
            },
            Some(t) => {
                let c = (t, unit, steps[i - 1]);
                let b2 = spec_consider(b, c, ideal);
                lemma_consider(b, c, ideal);
                lemma_consider_steps(b2, unit, start, end, max, ideal, steps, i - 1);
                assert(r == spec_consider_steps(b2, unit, start, end, max, ideal, steps, i - 1));
                assert forall|k: int| 0 <= k < i && #[trigger] fits_from(unit, start, end, max, steps, k, i)
                    implies no_worse(ideal, r.0.len() as int, unit_candidate(unit, start, end, max, steps[k]).unwrap().len() as int) by {
                    if k < i - 1 {
                        assert(fits_from(unit, start, end, max, steps, k, i - 1));
                    }
                }
                if r != b {
                    if r == b2 {
                        if b2 == c {
                            assert(fits_from(unit, start, end, max, steps, i - 1, i));
                        }
                    } else {
                        let k = choose|k: int| 0 <= k < i - 1 && #[trigger] fits_from(unit, start, end, max, steps, k, i - 1)
                            && unit_candidate(unit, start, end, max, steps[k]) == Some(r.0) && r.1 == unit && r.2 == steps[k];
                        assert(fits_from(unit, start, end, max, steps, k, i));
                    }
                }
            },
        }
    }
}

/// Considering step sizes never makes the best candidate worse.
proof fn lemma_consider_steps_no_worse(
    b: (Seq<UnixTime>, StepUnit, i64),
    unit: StepUnit,
    start: int,
    end: int,
    max: nat,
    ideal: int,
    steps: Seq<i64>,
)
    ensures
        no_worse(ideal, spec_consider_steps(b, unit, start, end, max, ideal, steps, steps.len() as int).0.len() as int, b.0.len() as int),
{
    lemma_consider_steps(b, unit, start, end, max, ideal, steps, steps.len() as int);
}

/// The best candidates after each unit, years to seconds.
pub open spec fn unixtime_stages(start: int, end: int, ideal: int) -> Seq<(Seq<UnixTime>, StepUnit, i64)> {
    let max = (ideal * 2) as nat;
    let b0 = (Seq::<UnixTime>::empty(), StepUnit::YR, 0i64);
    let b1 = spec_consider_steps(b0, StepUnit::YR, start, end, max, ideal, spec_steps_yr(), 13);
    let b2 = spec_consider_steps(b1, StepUnit::MO, start, end, max, ideal, spec_steps_mo(), 4);
    let b3 = spec_consider_steps(b2, StepUnit::DY, start, end, max, ideal, spec_steps_dy(), 5);
    let b4 = spec_consider_steps(b3, StepUnit::HR, start, end, max, ideal, spec_steps_hr(), 4);
    let b5 = spec_consider_steps(b4, StepUnit::MI, start, end, max, ideal, spec_steps_mi(), 5);
    let b6 = spec_consider_steps(b5, StepUnit::SE, start, end, max, ideal, spec_steps_se(), 6);
    seq![b0, b1, b2, b3, b4, b5, b6]
}

/// The unit considered at each stage.
pub open spec fn stage_unit(i: int) -> StepUnit {
    if i == 1 { StepUnit::YR } else if i == 2 { StepUnit::MO } else if i == 3 { StepUnit::DY }
    else if i == 4 { StepUnit::HR } else if i == 5 { StepUnit::MI } else { StepUnit::SE }
}

proof fn lemma_stage(start: int, end: int, ideal: int, i: int)
    requires
        1 <= i <= 6,
    ensures
        ({
            let st = unixtime_stages(start, end, ideal);
            let u = stage_unit(i);
            let max = (ideal * 2) as nat;
            st[i] == spec_consider_steps(st[i - 1], u, start, end, max, ideal, tick_steps(u), tick_steps(u).len() as int)
        }),
{
    assert(tick_steps(StepUnit::YR) == spec_steps_yr());
    assert(tick_steps(StepUnit::MO) == spec_steps_mo());
    assert(tick_steps(StepUnit::DY) == spec_steps_dy());
    assert(tick_steps(StepUnit::HR) == spec_steps_hr());
    assert(tick_steps(StepUnit::MI) == spec_steps_mi());
    assert(tick_steps(StepUnit::SE) == spec_steps_se());
}

/// Each stage is no worse than every earlier one.
proof fn lemma_stages_no_worse(start: int, end: int, ideal: int, i: int)
    requires
        0 <= i <= 6,
    ensures
        no_worse(ideal, unixtime_stages(start, end, ideal)[6].0.len() as int, unixtime_stages(start, end, ideal)[i].0.len() as int),
    decreases 6 - i,
{
    let st = unixtime_stages(start, end, ideal);
    if i < 6 {
        lemma_stages_no_worse(start, end, ideal, i + 1);
        lemma_stage(start, end, ideal, i + 1);
        let u = stage_unit(i + 1);
        lemma_consider_steps_no_worse(st[i], u, start, end, max_of(ideal), ideal, tick_steps(u));
    }
}

/// The most ticks a candidate may have: twice the ideal number.
pub open spec fn max_of(ideal: int) -> nat {
    (ideal * 2) as nat
}

/// The ideal number of ticks the search aims at: at least two.
pub open spec fn clamp_ideal(ideal_num_steps: int) -> int {
    if ideal_num_steps < 2 { 2 } else { ideal_num_steps }
}

/// The stage at which a unit is considered.
spec fn unit_stage(u: StepUnit) -> int {
    match u {
        StepUnit::YR => 1,
        StepUnit::MO => 2,
        StepUnit::DY => 3,
        StepUnit::HR => 4,
        StepUnit::MI => 5,
        StepUnit::SE => 6,
    }
}

proof fn lemma_best_no_worse_than(start: int, end: int, ideal: int, u: StepUnit, k: int)
    requires
        reached(u, start, end, max_of(ideal), k),
    ensures
        no_worse(ideal, unixtime_stages(start, end, ideal)[6].0.len() as int,
            unit_candidate(u, start, end, max_of(ideal), tick_steps(u)[k]).unwrap().len() as int),
{
    let st = unixtime_stages(start, end, ideal);
    let i = unit_stage(u);
    assert(stage_unit(i) == u);
    lemma_stage(start, end, ideal, i);
    let n = tick_steps(u).len() as int;
    lemma_consider_steps(st[i - 1], u, start, end, max_of(ideal), ideal, tick_steps(u), n);
    assert(fits_from(u, start, end, max_of(ideal), tick_steps(u), k, n));
    lemma_stages_no_worse(start, end, ideal, i);
}

/// The last stage's candidate is the empty start or one of the candidates tried.
proof fn lemma_best_is_tried(start: int, end: int, ideal: int, i: int)
    requires
        0 <= i <= 6,
    ensures
        ({
            let b = unixtime_stages(start, end, ideal)[i];
            b == unixtime_stages(start, end, ideal)[0] || exists|u: StepUnit, k: int| #[trigger] reached(u, start, end, max_of(ideal), k)
                && unit_candidate(u, start, end, max_of(ideal), tick_steps(u)[k]) == Some(b.0) && b.1 == u && b.2 == tick_steps(u)[k]
        }),
    decreases i,
{
    let st = unixtime_stages(start, end, ideal);
    if i > 0 {
        lemma_best_is_tried(start, end, ideal, i - 1);
        lemma_stage(start, end, ideal, i);
        let u = stage_unit(i);
        let n = tick_steps(u).len() as int;
        lemma_consider_steps(st[i - 1], u, start, end, max_of(ideal), ideal, tick_steps(u), n);
        if st[i] != st[i - 1] {
            let k = choose|k: int| 0 <= k < n && #[trigger] fits_from(u, start, end, max_of(ideal), tick_steps(u), k, n)
                && unit_candidate(u, start, end, max_of(ideal), tick_steps(u)[k]) == Some(st[i].0) && st[i].1 == u && st[i].2 == tick_steps(u)[k];
            assert(reached(u, start, end, max_of(ideal), k));
        }
    }
}

proof fn lemma_best_is_last_stage(start: int, end: int, ideal_num_steps: int)
    ensures
        spec_unixtime_best(start, end, ideal_num_steps)
            == unixtime_stages(start, end, clamp_ideal(ideal_num_steps))[6],
{
}

/// The last stage, as the law states it.
proof fn lemma_last_stage_law(start: int, end: int, ideal: int)
    ensures
        ({
            let max = max_of(ideal);
            let best = unixtime_stages(start, end, ideal)[6];
            &&& forall|u: StepUnit, k: int| #[trigger] reached(u, start, end, max, k)
                ==> no_worse(ideal, best.0.len() as int, unit_candidate(u, start, end, max, tick_steps(u)[k]).unwrap().len() as int)
            &&& best.0.len() == 0 || exists|u: StepUnit, k: int| #[trigger] reached(u, start, end, max, k)
                && unit_candidate(u, start, end, max, tick_steps(u)[k]) == Some(best.0) && best.1 == u && best.2 == tick_steps(u)[k]
            &&& (exists|u: StepUnit, k: int| #[trigger] reached(u, start, end, max, k)
                && 2 <= unit_candidate(u, start, end, max, tick_steps(u)[k]).unwrap().len() <= 2 * ideal - 2)
                ==> best.0.len() >= 2
        }),
{
    let max = max_of(ideal);
    let best = unixtime_stages(start, end, ideal)[6];
    assert forall|u: StepUnit, k: int| #[trigger] reached(u, start, end, max, k)
        implies no_worse(ideal, best.0.len() as int, unit_candidate(u, start, end, max, tick_steps(u)[k]).unwrap().len() as int) by {
        lemma_best_no_worse_than(start, end, ideal, u, k);
    }
    lemma_best_is_tried(start, end, ideal, 6);
    if exists|u: StepUnit, k: int| #[trigger] reached(u, start, end, max, k)
        && 2 <= unit_candidate(u, start, end, max, tick_steps(u)[k]).unwrap().len() <= 2 * ideal - 2 {
        let (u, k) = choose|u: StepUnit, k: int| #[trigger] reached(u, start, end, max, k)
            && 2 <= unit_candidate(u, start, end, max, tick_steps(u)[k]).unwrap().len() <= 2 * ideal - 2;
        lemma_best_no_worse_than(start, end, ideal, u, k);
    }
}

/// The ticks a time axis gets are the best of all those tried: for every unit (years,
/// months, days, hours, minutes, seconds) and each of its step sizes that is tried,
/// they are no worse than that step size's ticks; they are the ticks of one of them
/// (or none at all); and where some step size tried gives between two and twice the
/// ideal number less two ticks, there are at least two ticks.
pub proof fn lemma_unixtime_best(start: int, end: int, ideal_num_steps: int)
    ensures
        ({
            let ideal = clamp_ideal(ideal_num_steps);
            let max = max_of(ideal);
            let best = spec_unixtime_best(start, end, ideal_num_steps);
            &&& forall|u: StepUnit, k: int| #[trigger] reached(u, start, end, max, k)
                ==> no_worse(ideal, best.0.len() as int, unit_candidate(u, start, end, max, tick_steps(u)[k]).unwrap().len() as int)
            &&& best.0.len() == 0 || exists|u: StepUnit, k: int| #[trigger] reached(u, start, end, max, k)
                && unit_candidate(u, start, end, max, tick_steps(u)[k]) == Some(best.0) && best.1 == u && best.2 == tick_steps(u)[k]
            &&& (exists|u: StepUnit, k: int| #[trigger] reached(u, start, end, max, k)
                && 2 <= unit_candidate(u, start, end, max, tick_steps(u)[k]).unwrap().len() <= 2 * ideal - 2)
                ==> best.0.len() >= 2
        }),
{
    lemma_best_is_last_stage(start, end, ideal_num_steps);
    lemma_last_stage_law(start, end, clamp_ideal(ideal_num_steps));
}

} // verus!
