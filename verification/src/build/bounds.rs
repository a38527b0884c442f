//!
//! The min max bounds of a set of points and markers, found in one walk.
//!
use vstd::prelude::*;
use crate::build::marker::{grow_range, in_range, lemma_grow_range, range_wf};
use crate::plotnum::PlotNum;

verus! {

/// The points of `pts` whose coordinates are both not holes, in order.
pub open spec fn solid_points<X: PlotNum, Y: PlotNum>(pts: Seq<(X, Y)>) -> Seq<(X, Y)>
    decreases pts.len(),
{
    if pts.len() == 0 {
        Seq::empty()
    } else {
        let sub = solid_points(pts.drop_last());
        if !pts.last().0.spec_is_hole() && !pts.last().1.spec_is_hole() {
            sub.push(pts.last())
        } else {
            sub
        }
    }
}

/// The values of `vals` that are not holes, in order.
pub open spec fn solid_values<X: PlotNum>(vals: Seq<X>) -> Seq<X>
    decreases vals.len(),
{
    if vals.len() == 0 {
        Seq::empty()
    } else {
        let sub = solid_values(vals.drop_last());
        if !vals.last().spec_is_hole() {
            sub.push(vals.last())
        } else {
            sub
        }
    }
}

/// The x markers as points on the line `y`.
pub open spec fn x_marker_points<X, Y>(xs: Seq<X>, y: Y) -> Seq<(X, Y)> {
    Seq::new(xs.len(), |i: int| (xs[i], y))
}

/// The y markers as points on the line `x`.
pub open spec fn y_marker_points<X, Y>(x: X, ys: Seq<Y>) -> Seq<(X, Y)> {
    Seq::new(ys.len(), |i: int| (x, ys[i]))
}

/// The bounds after taking in one point: a coordinate below the range extends it
/// down, one above extends it up; the flags record whether a range was extended.
pub open spec fn bounds_step<X: PlotNum, Y: PlotNum>(
    v: ([X; 2], [Y; 2], bool, bool),
    p: (X, Y),
) -> ([X; 2], [Y; 2], bool, bool) {
    let (xr, yr, xm, ym) = v;
    let (xr2, xm2) = if p.0.spec_lt(&xr[0]) {
        ([p.0, xr[1]], true)
    } else if xr[1].spec_lt(&p.0) {
        ([xr[0], p.0], true)
    } else {
        (xr, xm)
    };
    let (yr2, ym2) = if p.1.spec_lt(&yr[0]) {
        ([p.1, yr[1]], true)
    } else if yr[1].spec_lt(&p.1) {
        ([yr[0], p.1], true)
    } else {
        (yr, ym)
    };
    (xr2, yr2, xm2, ym2)
}

/// The bounds after taking in every point of `s`, first to last.
pub open spec fn bounds_fold<X: PlotNum, Y: PlotNum>(
    v: ([X; 2], [Y; 2], bool, bool),
    s: Seq<(X, Y)>,
) -> ([X; 2], [Y; 2], bool, bool)
    decreases s.len(),
{
    if s.len() == 0 {
        v
    } else {
        bounds_step(bounds_fold(v, s.drop_last()), s.last())
    }
}

/// What the first solid point is compared with: the other solid points, then the x
/// markers on its y, then the y markers on its x (markers that are holes left out).
pub open spec fn bound_candidates<X: PlotNum, Y: PlotNum>(pts: Seq<(X, Y)>, xm: Seq<X>, ym: Seq<Y>) -> Seq<(X, Y)> {
    let s = solid_points(pts);
    s.drop_first() + x_marker_points(solid_values(xm), s[0].1) + y_marker_points(s[0].0, solid_values(ym))
}

/// The range bounds before the last step that turns a range that never moved into a
/// unit range.
pub open spec fn raw_bounds<X: PlotNum, Y: PlotNum>(pts: Seq<(X, Y)>, xm: Seq<X>, ym: Seq<Y>) -> ([X; 2], [Y; 2], bool, bool) {
    let s = solid_points(pts);
    bounds_fold(([s[0].0, s[0].0], [s[0].1, s[0].1], false, false), bound_candidates(pts, xm, ym))
}

/// The unit ranges that `find_bounds` asks for can be computed.
pub open spec fn find_bounds_ok<X: PlotNum, Y: PlotNum>(pts: Seq<(X, Y)>, xm: Seq<X>, ym: Seq<Y>) -> bool {
    let s = solid_points(pts);
    if s.len() == 0 {
        X::unit_range_ok(None) && Y::unit_range_ok(None)
    } else {
        let v = raw_bounds(pts, xm, ym);
        (!v.2 ==> X::unit_range_ok(Some(s[0].0))) && (!v.3 ==> Y::unit_range_ok(Some(s[0].1)))
    }
}

/// The bounds of the points and markers: the smallest and largest coordinates of the
/// solid points and markers, where a range that is a single value becomes the unit
/// range around it, and where there is no solid point, the unit ranges.
pub open spec fn spec_find_bounds<X: PlotNum, Y: PlotNum>(pts: Seq<(X, Y)>, xm: Seq<X>, ym: Seq<Y>) -> ([X; 2], [Y; 2]) {
    let s = solid_points(pts);
    if s.len() == 0 {
        (X::spec_unit_range(None), Y::spec_unit_range(None))
    } else {
        let v = raw_bounds(pts, xm, ym);
        (
            if v.2 { v.0 } else { X::spec_unit_range(Some(s[0].0)) },
            if v.3 { v.1 } else { Y::spec_unit_range(Some(s[0].1)) },
        )
    }
}

fn step<X: PlotNum, Y: PlotNum>(v: ([X; 2], [Y; 2], bool, bool), p: (X, Y)) -> (r: ([X; 2], [Y; 2], bool, bool))
    ensures
        r == bounds_step(v, p),
{
    let (mut xr, mut yr, mut xm, mut ym) = v;
    if p.0.less_than(&xr[0]) {
        xr = [p.0, xr[1]];
        xm = true;
    } else if xr[1].less_than(&p.0) {
        xr = [xr[0], p.0];
        xm = true;
    }
    if p.1.less_than(&yr[0]) {
        yr = [p.1, yr[1]];
        ym = true;
    } else if yr[1].less_than(&p.1) {
        yr = [yr[0], p.1];
        ym = true;
    }
    (xr, yr, xm, ym)
}

proof fn lemma_fold_push<X: PlotNum, Y: PlotNum>(v: ([X; 2], [Y; 2], bool, bool), s: Seq<(X, Y)>, p: (X, Y))
    ensures
        bounds_fold(v, s.push(p)) == bounds_step(bounds_fold(v, s), p),
{
    assert(s.push(p).drop_last() =~= s);
}

///
/// Find the min max bounds of the points, with the markers that must stay in view.
///
pub fn find_bounds<X: PlotNum, Y: PlotNum>(pts: &[(X, Y)], xmarkers: Vec<X>, ymarkers: Vec<Y>) -> (r: ([X; 2], [Y; 2]))
    requires
        find_bounds_ok(pts@, xmarkers@, ymarkers@),
    ensures
        r == spec_find_bounds(pts@, xmarkers@, ymarkers@),
{
    let n = pts.len();
    let mut st: Option<((X, Y), ([X; 2], [Y; 2], bool, bool))> = None;
    let mut i: usize = 0;
    while i < n
        invariant
            n == pts@.len(),
            i <= n,
            solid_points(pts@.take(i as int)).len() == 0 <==> st is None,
            st matches Some(fv) ==> fv.0 == solid_points(pts@.take(i as int))[0]
                && fv.1 == bounds_fold(([fv.0.0, fv.0.0], [fv.0.1, fv.0.1], false, false), solid_points(pts@.take(i as int)).drop_first()),
        decreases n - i,
    {
        let p = (pts[i].0, pts[i].1);
        let ghost before = solid_points(pts@.take(i as int));
        proof {
            assert(pts@.take(i + 1).drop_last() =~= pts@.take(i as int));
            assert(pts@.take(i + 1).last() == p);
        }
        if !p.0.is_hole() && !p.1.is_hole() {
            match st {
                None => {
                    st = Some((p, ([p.0, p.0], [p.1, p.1], false, false)));
                    proof {
                        assert(solid_points(pts@.take(i + 1)) == before.push(p));
                        assert(before.push(p).drop_first() =~= Seq::<(X, Y)>::empty());
                    }
                },
                Some(fv) => {
                    let f = fv.0;
                    let v2 = step(fv.1, p);
                    st = Some((f, v2));
                    proof {
                        assert(solid_points(pts@.take(i + 1)) == before.push(p));
                        assert(before.push(p).drop_first() =~= before.drop_first().push(p));
                        lemma_fold_push(([f.0, f.0], [f.1, f.1], false, false), before.drop_first(), p);
                    }
                },
            }
        }
        i = i + 1;
    }
    proof {
        assert(pts@.take(n as int) =~= pts@);
    }
    match st {
        None => (X::unit_range(None), Y::unit_range(None)),
        Some(fv) => {
            let f = fv.0;
            let mut val = fv.1;
            let ghost s = solid_points(pts@);
            let ghost init = ([f.0, f.0], [f.1, f.1], false, false);
            let mut j: usize = 0;
            while j < xmarkers.len()
                invariant
                    f == s[0],
                    s == solid_points(pts@),
                    j <= xmarkers@.len(),
                    val == bounds_fold(init, s.drop_first() + x_marker_points(solid_values(xmarkers@.take(j as int)), f.1)),
                decreases xmarkers.len() - j,
            {
                let xx = xmarkers[j];
                let ghost before = solid_values(xmarkers@.take(j as int));
                proof {
                    assert(xmarkers@.take(j + 1).drop_last() =~= xmarkers@.take(j as int));
                }
                if !xx.is_hole() {
                    val = step(val, (xx, f.1));
                    proof {
                        assert(solid_values(xmarkers@.take(j + 1)) == before.push(xx));
                        assert(s.drop_first() + x_marker_points(before.push(xx), f.1)
                            =~= (s.drop_first() + x_marker_points(before, f.1)).push((xx, f.1)));
                        lemma_fold_push(init, s.drop_first() + x_marker_points(before, f.1), (xx, f.1));
                    }
                }
                j = j + 1;
            }
            proof {
                assert(xmarkers@.take(xmarkers@.len() as int) =~= xmarkers@);
            }
            let ghost xs = s.drop_first() + x_marker_points(solid_values(xmarkers@), f.1);
            let mut k: usize = 0;
            while k < ymarkers.len()
                invariant
                    f == s[0],
                    s == solid_points(pts@),
                    xs == s.drop_first() + x_marker_points(solid_values(xmarkers@), f.1),
                    k <= ymarkers@.len(),
                    val == bounds_fold(init, xs + y_marker_points(f.0, solid_values(ymarkers@.take(k as int)))),
                decreases ymarkers.len() - k,
            {
                let yy = ymarkers[k];
                let ghost before = solid_values(ymarkers@.take(k as int));
                proof {
                    assert(ymarkers@.take(k + 1).drop_last() =~= ymarkers@.take(k as int));
                }
                if !yy.is_hole() {
                    val = step(val, (f.0, yy));
                    proof {
                        assert(solid_values(ymarkers@.take(k + 1)) == before.push(yy));
                        assert(xs + y_marker_points(f.0, before.push(yy))
                            =~= (xs + y_marker_points(f.0, before)).push((f.0, yy)));
                        lemma_fold_push(init, xs + y_marker_points(f.0, before), (f.0, yy));
                    }
                }
                k = k + 1;
            }
            proof {
                assert(ymarkers@.take(ymarkers@.len() as int) =~= ymarkers@);
                assert(val == raw_bounds(pts@, xmarkers@, ymarkers@));
            }
            let xr = if val.2 { val.0 } else { X::unit_range(Some(f.0)) };
            let yr = if val.3 { val.1 } else { Y::unit_range(Some(f.1)) };
            (xr, yr)
        },
    }
}

/// Every point of `solid_points` has no hole coordinate.
proof fn lemma_solid_points<X: PlotNum, Y: PlotNum>(pts: Seq<(X, Y)>)
    ensures
        forall|i: int| 0 <= i < solid_points(pts).len() ==>
            !(#[trigger] solid_points(pts)[i]).0.spec_is_hole() && !solid_points(pts)[i].1.spec_is_hole(),
    decreases pts.len(),
{
    if pts.len() > 0 {
        let sub = solid_points(pts.drop_last());
        lemma_solid_points(pts.drop_last());
        assert forall|i: int| 0 <= i < solid_points(pts).len() implies
            !(#[trigger] solid_points(pts)[i]).0.spec_is_hole() && !solid_points(pts)[i].1.spec_is_hole() by {
            if i < sub.len() {
                assert(solid_points(pts)[i] == sub[i]);
            }
        }
    }
}

/// Every value of `solid_values` is not a hole.
proof fn lemma_solid_values<X: PlotNum>(vals: Seq<X>)
    ensures
        forall|i: int| 0 <= i < solid_values(vals).len() ==> !(#[trigger] solid_values(vals)[i]).spec_is_hole(),
    decreases vals.len(),
{
    if vals.len() > 0 {
        let sub = solid_values(vals.drop_last());
        lemma_solid_values(vals.drop_last());
        assert forall|i: int| 0 <= i < solid_values(vals).len() implies !(#[trigger] solid_values(vals)[i]).spec_is_hole() by {
            if i < sub.len() {
                assert(solid_values(vals)[i] == sub[i]);
            }
        }
    }
}

/// What the walk keeps: each range holds the first point's coordinate and every
/// coordinate taken in, and a range that never moved is still the first point's.
proof fn lemma_fold_covers<X: PlotNum, Y: PlotNum>(x0: X, y0: Y, s: Seq<(X, Y)>)
    requires
        !x0.spec_is_hole(),
        !y0.spec_is_hole(),
        forall|i: int| 0 <= i < s.len() ==> !(#[trigger] s[i]).0.spec_is_hole() && !s[i].1.spec_is_hole(),
    ensures
        ({
            let v = bounds_fold(([x0, x0], [y0, y0], false, false), s);
            &&& range_wf(Some(v.0)) && range_wf(Some(v.1))
            &&& in_range(Some(v.0), x0) && in_range(Some(v.1), y0)
            &&& forall|i: int| 0 <= i < s.len() ==> in_range(Some(v.0), (#[trigger] s[i]).0) && in_range(Some(v.1), s[i].1)
            &&& !v.2 ==> v.0 == [x0, x0]
            &&& !v.3 ==> v.1 == [y0, y0]
        }),
    decreases s.len(),
{
    X::lemma_lt_irreflexive(x0);
    Y::lemma_lt_irreflexive(y0);
    if s.len() > 0 {
        let pre = s.drop_last();
        lemma_fold_covers(x0, y0, pre);
        let v = bounds_fold(([x0, x0], [y0, y0], false, false), pre);
        let p = s.last();
        let w = bounds_step(v, p);
        assert(w.0 == grow_range(Some(v.0), Some(p.0)).unwrap());
        assert(w.1 == grow_range(Some(v.1), Some(p.1)).unwrap());
        lemma_grow_range(Some(v.0), Some(p.0), x0);
        lemma_grow_range(Some(v.1), Some(p.1), y0);
        lemma_grow_range(Some(v.0), Some(p.0), p.0);
        lemma_grow_range(Some(v.1), Some(p.1), p.1);
        assert forall|i: int| 0 <= i < s.len() implies in_range(Some(w.0), (#[trigger] s[i]).0) && in_range(Some(w.1), s[i].1) by {
            if i < s.len() - 1 {
                assert(s[i] == pre[i]);
                lemma_grow_range(Some(v.0), Some(p.0), s[i].0);
                lemma_grow_range(Some(v.1), Some(p.1), s[i].1);
            }
        }
    }
}

/// The bounds that `find_bounds` gives cover every solid point: on each axis, its
/// coordinate lies within the bounds, or all coordinates there are the first point's
/// and the bounds are the unit range around it.
pub proof fn lemma_find_bounds_covers<X: PlotNum, Y: PlotNum>(pts: Seq<(X, Y)>, xm: Seq<X>, ym: Seq<Y>, i: int)
    requires
        0 <= i < solid_points(pts).len(),
    ensures
        ({
            let r = spec_find_bounds(pts, xm, ym);
            let s = solid_points(pts);
            &&& in_range(Some(r.0), s[i].0) || (s[i].0 == s[0].0 && r.0 == X::spec_unit_range(Some(s[0].0)))
            &&& in_range(Some(r.1), s[i].1) || (s[i].1 == s[0].1 && r.1 == Y::spec_unit_range(Some(s[0].1)))
        }),
{
    let s = solid_points(pts);
    lemma_fold_solid(pts, xm, ym);
    let c = bound_candidates(pts, xm, ym);
    if i > 0 {
        assert(c[i - 1] == s[i]);
    }
    lemma_pin(pts, xm, ym, s[i].0, s[i].1);
}

/// The bounds that `find_bounds` gives cover every marker that is not a hole, in the
/// same way.
pub proof fn lemma_find_bounds_markers<X: PlotNum, Y: PlotNum>(pts: Seq<(X, Y)>, xm: Seq<X>, ym: Seq<Y>, j: int, k: int)
    requires
        solid_points(pts).len() > 0,
        0 <= j < solid_values(xm).len(),
        0 <= k < solid_values(ym).len(),
    ensures
        ({
            let r = spec_find_bounds(pts, xm, ym);
            let s = solid_points(pts);
            let x = solid_values(xm)[j];
            let y = solid_values(ym)[k];
            &&& in_range(Some(r.0), x) || (x == s[0].0 && r.0 == X::spec_unit_range(Some(s[0].0)))
            &&& in_range(Some(r.1), y) || (y == s[0].1 && r.1 == Y::spec_unit_range(Some(s[0].1)))
        }),
{
    let s = solid_points(pts);
    lemma_fold_solid(pts, xm, ym);
    let c = bound_candidates(pts, xm, ym);
    let a = s.drop_first().len();
    let b = solid_values(xm).len();
    assert(c[a + j] == (solid_values(xm)[j], s[0].1));
    assert(c[a + b + k] == (s[0].0, solid_values(ym)[k]));
    lemma_pin(pts, xm, ym, solid_values(xm)[j], s[0].1);
    lemma_pin(pts, xm, ym, s[0].0, solid_values(ym)[k]);
}

/// The walk of `find_bounds` only takes in solid coordinates, and so covers them.
proof fn lemma_fold_solid<X: PlotNum, Y: PlotNum>(pts: Seq<(X, Y)>, xm: Seq<X>, ym: Seq<Y>)
    requires
        solid_points(pts).len() > 0,
    ensures
        ({
            let s = solid_points(pts);
            let c = bound_candidates(pts, xm, ym);
            let v = raw_bounds(pts, xm, ym);
            &&& range_wf(Some(v.0)) && range_wf(Some(v.1))
            &&& in_range(Some(v.0), s[0].0) && in_range(Some(v.1), s[0].1)
            &&& forall|i: int| 0 <= i < c.len() ==> in_range(Some(v.0), (#[trigger] c[i]).0) && in_range(Some(v.1), c[i].1)
            &&& !v.2 ==> v.0 == [s[0].0, s[0].0]
            &&& !v.3 ==> v.1 == [s[0].1, s[0].1]
        }),
{
    let s = solid_points(pts);
    lemma_solid_points(pts);
    lemma_solid_values(xm);
    lemma_solid_values(ym);
    let c = bound_candidates(pts, xm, ym);
    assert forall|i: int| 0 <= i < c.len() implies !(#[trigger] c[i]).0.spec_is_hole() && !c[i].1.spec_is_hole() by {
        let a = s.drop_first().len();
        let b = solid_values(xm).len();
        if i < a {
            assert(c[i] == s[i + 1]);
        } else if i < a + b {
            assert(c[i] == (solid_values(xm)[i - a], s[0].1));
        } else {
            assert(c[i] == (s[0].0, solid_values(ym)[i - a - b]));
        }
    }
    lemma_fold_covers(s[0].0, s[0].1, c);
}

/// A coordinate pair that the walk covers is covered by the bounds, or equals the first
/// point's coordinate on an axis whose bounds are the unit range.
proof fn lemma_pin<X: PlotNum, Y: PlotNum>(pts: Seq<(X, Y)>, xm: Seq<X>, ym: Seq<Y>, x: X, y: Y)
    requires
        solid_points(pts).len() > 0,
        in_range(Some(raw_bounds(pts, xm, ym).0), x),
        in_range(Some(raw_bounds(pts, xm, ym).1), y),
        !raw_bounds(pts, xm, ym).2 ==> raw_bounds(pts, xm, ym).0 == [solid_points(pts)[0].0, solid_points(pts)[0].0],
        !raw_bounds(pts, xm, ym).3 ==> raw_bounds(pts, xm, ym).1 == [solid_points(pts)[0].1, solid_points(pts)[0].1],
    ensures
        ({
            let r = spec_find_bounds(pts, xm, ym);
            let s = solid_points(pts);
            &&& in_range(Some(r.0), x) || (x == s[0].0 && r.0 == X::spec_unit_range(Some(s[0].0)))
            &&& in_range(Some(r.1), y) || (y == s[0].1 && r.1 == Y::spec_unit_range(Some(s[0].1)))
        }),
{
    let s = solid_points(pts);
    X::lemma_lt_total(x, s[0].0);
    Y::lemma_lt_total(y, s[0].1);
}

/// The ends of the walk's ranges are coordinates it was given, and a range moved
/// exactly when some coordinate differs from the first point's.
proof fn lemma_fold_ends<X: PlotNum, Y: PlotNum>(x0: X, y0: Y, s: Seq<(X, Y)>)
    requires
        !x0.spec_is_hole(),
        !y0.spec_is_hole(),
        forall|i: int| 0 <= i < s.len() ==> !(#[trigger] s[i]).0.spec_is_hole() && !s[i].1.spec_is_hole(),
    ensures
        ({
            let v = bounds_fold(([x0, x0], [y0, y0], false, false), s);
            &&& v.0[0] == x0 || exists|i: int| 0 <= i < s.len() && (#[trigger] s[i]).0 == v.0[0]
            &&& v.0[1] == x0 || exists|i: int| 0 <= i < s.len() && (#[trigger] s[i]).0 == v.0[1]
            &&& v.1[0] == y0 || exists|i: int| 0 <= i < s.len() && (#[trigger] s[i]).1 == v.1[0]
            &&& v.1[1] == y0 || exists|i: int| 0 <= i < s.len() && (#[trigger] s[i]).1 == v.1[1]
            &&& v.2 <==> exists|i: int| 0 <= i < s.len() && (#[trigger] s[i]).0 != x0
            &&& v.3 <==> exists|i: int| 0 <= i < s.len() && (#[trigger] s[i]).1 != y0
        }),
    decreases s.len(),
{
    if s.len() > 0 {
        let pre = s.drop_last();
        lemma_fold_ends(x0, y0, pre);
        lemma_fold_covers(x0, y0, pre);
        let v = bounds_fold(([x0, x0], [y0, y0], false, false), pre);
        let p = s.last();
        let n = s.len() - 1;
        assert(s[n] == p);
        assert forall|i: int| 0 <= i < pre.len() implies #[trigger] pre[i] == s[i] by {}
        // a witness in the first part is a witness in the whole
        if exists|i: int| 0 <= i < pre.len() && (#[trigger] pre[i]).0 == v.0[0] {
            let i = choose|i: int| 0 <= i < pre.len() && (#[trigger] pre[i]).0 == v.0[0];
            assert(s[i].0 == v.0[0]);
        }
        if exists|i: int| 0 <= i < pre.len() && (#[trigger] pre[i]).0 == v.0[1] {
            let i = choose|i: int| 0 <= i < pre.len() && (#[trigger] pre[i]).0 == v.0[1];
            assert(s[i].0 == v.0[1]);
        }
        if exists|i: int| 0 <= i < pre.len() && (#[trigger] pre[i]).1 == v.1[0] {
            let i = choose|i: int| 0 <= i < pre.len() && (#[trigger] pre[i]).1 == v.1[0];
            assert(s[i].1 == v.1[0]);
        }
        if exists|i: int| 0 <= i < pre.len() && (#[trigger] pre[i]).1 == v.1[1] {
            let i = choose|i: int| 0 <= i < pre.len() && (#[trigger] pre[i]).1 == v.1[1];
            assert(s[i].1 == v.1[1]);
        }
        if v.2 {
            let i = choose|i: int| 0 <= i < pre.len() && (#[trigger] pre[i]).0 != x0;
            assert(s[i].0 != x0);
        }
        if v.3 {
            let i = choose|i: int| 0 <= i < pre.len() && (#[trigger] pre[i]).1 != y0;
            assert(s[i].1 != y0);
        }
        X::lemma_lt_total(p.0, x0);
        Y::lemma_lt_total(p.1, y0);
        if !v.2 && !p.0.spec_lt(&v.0[0]) && !v.0[1].spec_lt(&p.0) {
            assert forall|i: int| 0 <= i < s.len() implies (#[trigger] s[i]).0 == x0 by {
                if i < n {
                    assert(pre[i].0 == x0);
                }
            }
        }
        if !v.3 && !p.1.spec_lt(&v.1[0]) && !v.1[1].spec_lt(&p.1) {
            assert forall|i: int| 0 <= i < s.len() implies (#[trigger] s[i]).1 == y0 by {
                if i < n {
                    assert(pre[i].1 == y0);
                }
            }
        }
    }
}

/// The bounds that `find_bounds` gives, where there is a solid point: on each axis,
/// where not every solid coordinate there (of the points and of the markers) is the
/// first point's, the low end is the least of them and the high end the greatest;
/// where they all are, the bounds are the unit range around it.
pub proof fn lemma_find_bounds_min_max<X: PlotNum, Y: PlotNum>(pts: Seq<(X, Y)>, xm: Seq<X>, ym: Seq<Y>)
    requires
        solid_points(pts).len() > 0,
    ensures
        ({
            let r = spec_find_bounds(pts, xm, ym);
            let s = solid_points(pts);
            let sx = solid_values(xm);
            let sy = solid_values(ym);
            let x_all_same = (forall|i: int| 0 <= i < s.len() ==> (#[trigger] s[i]).0 == s[0].0)
                && (forall|j: int| 0 <= j < sx.len() ==> #[trigger] sx[j] == s[0].0);
            let y_all_same = (forall|i: int| 0 <= i < s.len() ==> (#[trigger] s[i]).1 == s[0].1)
                && (forall|j: int| 0 <= j < sy.len() ==> #[trigger] sy[j] == s[0].1);
            &&& x_all_same ==> r.0 == X::spec_unit_range(Some(s[0].0))
            &&& y_all_same ==> r.1 == Y::spec_unit_range(Some(s[0].1))
            &&& !x_all_same ==> {
                &&& forall|i: int| 0 <= i < s.len() ==> in_range(Some(r.0), (#[trigger] s[i]).0)
                &&& forall|j: int| 0 <= j < sx.len() ==> in_range(Some(r.0), #[trigger] sx[j])
                &&& (exists|i: int| 0 <= i < s.len() && (#[trigger] s[i]).0 == r.0[0])
                    || (exists|j: int| 0 <= j < sx.len() && #[trigger] sx[j] == r.0[0])
                &&& (exists|i: int| 0 <= i < s.len() && (#[trigger] s[i]).0 == r.0[1])
                    || (exists|j: int| 0 <= j < sx.len() && #[trigger] sx[j] == r.0[1])
            }
            &&& !y_all_same ==> {
                &&& forall|i: int| 0 <= i < s.len() ==> in_range(Some(r.1), (#[trigger] s[i]).1)
                &&& forall|j: int| 0 <= j < sy.len() ==> in_range(Some(r.1), #[trigger] sy[j])
                &&& (exists|i: int| 0 <= i < s.len() && (#[trigger] s[i]).1 == r.1[0])
                    || (exists|j: int| 0 <= j < sy.len() && #[trigger] sy[j] == r.1[0])
                &&& (exists|i: int| 0 <= i < s.len() && (#[trigger] s[i]).1 == r.1[1])
                    || (exists|j: int| 0 <= j < sy.len() && #[trigger] sy[j] == r.1[1])
            }
        }),
{
    let s = solid_points(pts);
    let sx = solid_values(xm);
    let sy = solid_values(ym);
    lemma_fold_solid(pts, xm, ym);
    lemma_solid_points(pts);
    lemma_solid_values(xm);
    lemma_solid_values(ym);
    let c = bound_candidates(pts, xm, ym);
    let a = s.drop_first().len();
    let b = sx.len();
    assert forall|i: int| 0 <= i < c.len() implies !(#[trigger] c[i]).0.spec_is_hole() && !c[i].1.spec_is_hole() by {
        if i < a {
            assert(c[i] == s[i + 1]);
        } else if i < a + b {
            assert(c[i] == (sx[i - a], s[0].1));
        } else {
            assert(c[i] == (s[0].0, sy[i - a - b]));
        }
    }
    lemma_fold_ends(s[0].0, s[0].1, c);
    let v = raw_bounds(pts, xm, ym);
    // where each candidate comes from
    assert forall|i: int| 0 <= i < c.len() implies
        ((i < a && #[trigger] c[i] == s[i + 1])
        || (a <= i < a + b && c[i] == (sx[i - a], s[0].1))
        || (a + b <= i && c[i] == (s[0].0, sy[i - a - b]))) by {}
    assert forall|i: int| 0 <= i < s.len() implies in_range(Some(v.0), (#[trigger] s[i]).0) && in_range(Some(v.1), s[i].1) by {
        if i > 0 {
            assert(c[i - 1] == s[i]);
        }
    }
    assert forall|j: int| 0 <= j < sx.len() implies in_range(Some(v.0), #[trigger] sx[j]) by {
        assert(c[a + j] == (sx[j], s[0].1));
    }
    assert forall|j: int| 0 <= j < sy.len() implies in_range(Some(v.1), #[trigger] sy[j]) by {
        assert(c[a + b + j] == (s[0].0, sy[j]));
    }
    // the x range moved exactly when some x differs from the first point's
    let x_all_same = (forall|i: int| 0 <= i < s.len() ==> (#[trigger] s[i]).0 == s[0].0)
        && (forall|j: int| 0 <= j < sx.len() ==> #[trigger] sx[j] == s[0].0);
    if v.2 {
        let i = choose|i: int| 0 <= i < c.len() && (#[trigger] c[i]).0 != s[0].0;
        if i < a {
            assert(c[i] == s[i + 1]);
        } else if i < a + b {
            assert(c[i] == (sx[i - a], s[0].1));
        } else {
            assert(c[i] == (s[0].0, sy[i - a - b]));
        }
        assert(!x_all_same);
        // the ends are solid coordinates
        if v.0[0] != s[0].0 {
            let k = choose|k: int| 0 <= k < c.len() && (#[trigger] c[k]).0 == v.0[0];
            if k < a {
                assert(c[k] == s[k + 1]);
            } else if k < a + b {
                assert(c[k] == (sx[k - a], s[0].1));
            } else {
                assert(c[k] == (s[0].0, sy[k - a - b]));
            }
        }
        if v.0[1] != s[0].0 {
            let k = choose|k: int| 0 <= k < c.len() && (#[trigger] c[k]).0 == v.0[1];
            if k < a {
                assert(c[k] == s[k + 1]);
            } else if k < a + b {
                assert(c[k] == (sx[k - a], s[0].1));
            } else {
                assert(c[k] == (s[0].0, sy[k - a - b]));
            }
        }
    } else {
        assert forall|i: int| 0 <= i < s.len() implies (#[trigger] s[i]).0 == s[0].0 by {
            if i > 0 {
                assert(c[i - 1] == s[i]);
            }
        }
        assert forall|j: int| 0 <= j < sx.len() implies #[trigger] sx[j] == s[0].0 by {
            assert(c[a + j] == (sx[j], s[0].1));
        }
    }
    let y_all_same = (forall|i: int| 0 <= i < s.len() ==> (#[trigger] s[i]).1 == s[0].1)
        && (forall|j: int| 0 <= j < sy.len() ==> #[trigger] sy[j] == s[0].1);
    if v.3 {
        let i = choose|i: int| 0 <= i < c.len() && (#[trigger] c[i]).1 != s[0].1;
        if i < a {
            assert(c[i] == s[i + 1]);
        } else if i < a + b {
            assert(c[i] == (sx[i - a], s[0].1));
        } else {
            assert(c[i] == (s[0].0, sy[i - a - b]));
        }
        assert(!y_all_same);
        if v.1[0] != s[0].1 {
            let k = choose|k: int| 0 <= k < c.len() && (#[trigger] c[k]).1 == v.1[0];
            if k < a {
                assert(c[k] == s[k + 1]);
            } else if k < a + b {
                assert(c[k] == (sx[k - a], s[0].1));
            } else {
                assert(c[k] == (s[0].0, sy[k - a - b]));
            }
        }
        if v.1[1] != s[0].1 {
            let k = choose|k: int| 0 <= k < c.len() && (#[trigger] c[k]).1 == v.1[1];
            if k < a {
                assert(c[k] == s[k + 1]);
            } else if k < a + b {
                assert(c[k] == (sx[k - a], s[0].1));
            } else {
                assert(c[k] == (s[0].0, sy[k - a - b]));
            }
        }
    } else {
        assert forall|i: int| 0 <= i < s.len() implies (#[trigger] s[i]).1 == s[0].1 by {
            if i > 0 {
                assert(c[i - 1] == s[i]);
            }
        }
        assert forall|j: int| 0 <= j < sy.len() implies #[trigger] sy[j] == s[0].1 by {
            assert(c[a + b + j] == (s[0].0, sy[j]));
        }
    }
}

} // verus!
