//!
//! Which ticks of an axis are drawn: those that lie within the data bounds.
//!
use vstd::prelude::*;
use crate::plotnum::PlotNum;
use crate::ticks::DataBound;

verus! {

/// How many ticks at the front lie below `min`.
pub open spec fn count_below<X: PlotNum>(ticks: Seq<X>, min: X) -> nat
    decreases ticks.len(),
{
    if ticks.len() > 0 && ticks[0].spec_lt(&min) {
        1 + count_below(ticks.drop_first(), min)
    } else {
        0
    }
}

/// How many ticks at the front do not lie above `max`.
pub open spec fn count_upto<X: PlotNum>(ticks: Seq<X>, max: X) -> nat
    decreases ticks.len(),
{
    if ticks.len() > 0 && !max.spec_lt(&ticks[0]) {
        1 + count_upto(ticks.drop_first(), max)
    } else {
        0
    }
}

/// The ticks that are drawn: those below the lower bound are skipped from the
/// front, then the ticks are taken up to the first one above the upper bound.
pub open spec fn ticks_within<X: PlotNum>(ticks: Seq<X>, bound: DataBound<X>) -> Seq<X> {
    let rest = ticks.skip(count_below(ticks, bound.min) as int);
    rest.take(count_upto(rest, bound.max) as int)
}

/// A tick lies within the bounds.
pub open spec fn in_bound<X: PlotNum>(t: X, bound: DataBound<X>) -> bool {
    !t.spec_lt(&bound.min) && !bound.max.spec_lt(&t)
}

/// The ticks never go down.
pub open spec fn ticks_sorted<X: PlotNum>(ticks: Seq<X>) -> bool {
    forall|i: int, j: int| #![trigger ticks[i], ticks[j]] 0 <= i < j < ticks.len() ==> !ticks[j].spec_lt(&ticks[i])
}

/// The ticks counted by `count_below` are exactly the leading ones below `min`.
pub proof fn lemma_count_below<X: PlotNum>(ticks: Seq<X>, min: X)
    ensures
        count_below(ticks, min) <= ticks.len(),
        forall|i: int| 0 <= i < count_below(ticks, min) ==> (#[trigger] ticks[i]).spec_lt(&min),
        count_below(ticks, min) < ticks.len() ==> !ticks[count_below(ticks, min) as int].spec_lt(&min),
    decreases ticks.len(),
{
    if ticks.len() > 0 && ticks[0].spec_lt(&min) {
        lemma_count_below(ticks.drop_first(), min);
        assert forall|i: int| 0 <= i < count_below(ticks, min) implies (#[trigger] ticks[i]).spec_lt(&min) by {
            if i > 0 {
                assert(ticks[i] == ticks.drop_first()[i - 1]);
            }
        }
    }
}

/// The ticks counted by `count_upto` are exactly the leading ones not above `max`.
pub proof fn lemma_count_upto<X: PlotNum>(ticks: Seq<X>, max: X)
    ensures
        count_upto(ticks, max) <= ticks.len(),
        forall|i: int| 0 <= i < count_upto(ticks, max) ==> !max.spec_lt(&(#[trigger] ticks[i])),
        count_upto(ticks, max) < ticks.len() ==> max.spec_lt(&ticks[count_upto(ticks, max) as int]),
    decreases ticks.len(),
{
    if ticks.len() > 0 && !max.spec_lt(&ticks[0]) {
        lemma_count_upto(ticks.drop_first(), max);
        assert forall|i: int| 0 <= i < count_upto(ticks, max) implies !max.spec_lt(&(#[trigger] ticks[i])) by {
            if i > 0 {
                assert(ticks[i] == ticks.drop_first()[i - 1]);
            }
        }
    }
}

/// Of ticks that never go down, those drawn are exactly those within the bounds,
/// in their order: a run of consecutive ticks, each of them within the bounds,
/// and every tick within the bounds is among them.
pub proof fn lemma_ticks_within<X: PlotNum>(ticks: Seq<X>, bound: DataBound<X>)
    requires
        ticks_sorted(ticks),
    ensures
        exists|a: int, b: int| 0 <= a <= b <= ticks.len() && ticks_within(ticks, bound) == ticks.subrange(a, b),
        forall|i: int| 0 <= i < ticks_within(ticks, bound).len() ==> in_bound(#[trigger] ticks_within(ticks, bound)[i], bound),
        forall|i: int| 0 <= i < ticks.len() && in_bound(ticks[i], bound) ==> ticks_within(ticks, bound).contains(#[trigger] ticks[i]),
{
    let a = count_below(ticks, bound.min) as int;
    lemma_count_below(ticks, bound.min);
    let rest = ticks.skip(a);
    let c = count_upto(rest, bound.max) as int;
    lemma_count_upto(rest, bound.max);
    let r = ticks_within(ticks, bound);
    assert(r == ticks.subrange(a, a + c));
    // every tick from index `a` on is at least `min`
    assert forall|j: int| a <= j < ticks.len() implies !(#[trigger] ticks[j]).spec_lt(&bound.min) by {
        if j > a && ticks[j].spec_lt(&bound.min) {
            X::lemma_lt_total(ticks[a], ticks[j]);
            if ticks[a].spec_lt(&ticks[j]) {
                X::lemma_lt_transitive(ticks[a], ticks[j], bound.min);
            }
        }
    }
    // every tick from index `a + c` on is above `max`
    assert forall|j: int| a + c <= j < ticks.len() implies bound.max.spec_lt(&(#[trigger] ticks[j])) by {
        assert(rest[c] == ticks[a + c]);
        if j > a + c {
            assert(!ticks[j].spec_lt(&ticks[a + c]));
            X::lemma_lt_total(ticks[a + c], ticks[j]);
            if ticks[a + c].spec_lt(&ticks[j]) {
                X::lemma_lt_transitive(bound.max, ticks[a + c], ticks[j]);
            }
        }
    }
    assert forall|i: int| 0 <= i < r.len() implies in_bound(#[trigger] r[i], bound) by {
        assert(r[i] == rest[i]);
        assert(r[i] == ticks[a + i]);
    }
    assert forall|i: int| 0 <= i < ticks.len() && in_bound(ticks[i], bound) implies r.contains(#[trigger] ticks[i]) by {
        assert(a <= i < a + c);
        assert(r[i - a] == ticks[i]);
    }
}

/// The ticks of an axis that are drawn, or `None` where fewer than two of them
/// lie within the bounds: an axis is drawn with at least two ticks.
pub fn ticks_in_bound<X: PlotNum>(ticks: &[X], bound: &DataBound<X>) -> (r: Option<Vec<X>>)
    ensures
        r is Some <==> ticks_within(ticks@, *bound).len() >= 2,
        r matches Some(v) ==> v@ == ticks_within(ticks@, *bound),
{
    let n = ticks.len();
    let mut i: usize = 0;
    assert(ticks@.skip(0) == ticks@);
    while i < n && ticks[i].less_than(&bound.min)
        invariant
            n == ticks@.len(),
            i <= n,
            count_below(ticks@, bound.min) == i + count_below(ticks@.skip(i as int), bound.min),
        decreases n - i,
    {
        assert(ticks@.skip(i as int).drop_first() == ticks@.skip(i + 1));
        i = i + 1;
    }
    assert(count_below(ticks@.skip(i as int), bound.min) == 0);
    let ghost rest = ticks@.skip(i as int);
    let mut out: Vec<X> = Vec::new();
    let mut j: usize = i;
    while j < n && !bound.max.less_than(&ticks[j])
        invariant
            n == ticks@.len(),
            i <= j <= n,
            rest == ticks@.skip(i as int),
            out@ == ticks@.subrange(i as int, j as int),
            count_upto(rest, bound.max) == (j - i) + count_upto(ticks@.skip(j as int), bound.max),
        decreases n - j,
    {
        assert(ticks@.skip(j as int).drop_first() == ticks@.skip(j + 1));
        out.push(ticks[j]);
        j = j + 1;
    }
    assert(count_upto(ticks@.skip(j as int), bound.max) == 0);
    assert(out@ == ticks_within(ticks@, *bound));
    if out.len() >= 2 {
        Some(out)
    } else {
        None
    }
}

} // verus!
