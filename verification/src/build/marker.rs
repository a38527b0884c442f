//! The area (min/max bounds) that a set of plots covers.
use vstd::prelude::*;
use crate::plotnum::PlotNum;
use crate::ticks::DataBound;

verus! {

/// The bounds after taking in value `v`: holes are ignored, the first value makes a
/// one-point range, a value below or above the range extends it.
pub open spec fn grow_range<X: PlotNum>(r: Option<[X; 2]>, v: Option<X>) -> Option<[X; 2]> {
    match v {
        None => r,
        Some(x) => if x.spec_is_hole() {
            r
        } else {
            match r {
                None => Some([x, x]),
                Some(b) => if x.spec_lt(&b[0]) {
                    Some([x, b[1]])
                } else if b[1].spec_lt(&x) {
                    Some([b[0], x])
                } else {
                    r
                },
            }
        },
    }
}

/// The range shown for bounds: a one-point range or no range becomes the unit range.
pub open spec fn build_range<X: PlotNum>(r: Option<[X; 2]>) -> [X; 2] {
    match r {
        None => X::spec_unit_range(None),
        Some(b) => if b[0] == b[1] { X::spec_unit_range(Some(b[0])) } else { b },
    }
}

/// The unit range that `build_range` asks for can be computed and is not a single point.
pub open spec fn build_range_ok<X: PlotNum>(r: Option<[X; 2]>) -> bool {
    match r {
        None => X::unit_range_ok(None) && X::spec_unit_range(None)[0] != X::spec_unit_range(None)[1],
        Some(b) => b[0] == b[1] ==> X::unit_range_ok(Some(b[0]))
            && X::spec_unit_range(Some(b[0]))[0] != X::spec_unit_range(Some(b[0]))[1],
    }
}

/// A range whose min is not above its max, and whose ends are not holes.
pub open spec fn range_wf<X: PlotNum>(r: Option<[X; 2]>) -> bool {
    r matches Some(b) ==> !b[1].spec_lt(&b[0]) && !b[0].spec_is_hole() && !b[1].spec_is_hole()
}

/// `v` lies within the range: not below its min and not above its max.
pub open spec fn in_range<X: PlotNum>(r: Option<[X; 2]>, v: X) -> bool {
    r matches Some(b) && !v.spec_lt(&b[0]) && !b[1].spec_lt(&v)
}

/// Growing a range keeps it well formed, keeps what it held, and takes in the new
/// value unless it is a hole.
pub proof fn lemma_grow_range<X: PlotNum>(r: Option<[X; 2]>, v: Option<X>, w: X)
    requires
        range_wf(r),
    ensures
        range_wf(grow_range(r, v)),
        in_range(r, w) ==> in_range(grow_range(r, v), w),
        v matches Some(x) ==> (!x.spec_is_hole() ==> in_range(grow_range(r, v), x)),
{
    if let Some(x) = v {
        X::lemma_lt_irreflexive(x);
        if !x.spec_is_hole() {
            if let Some(b) = r {
                if x.spec_lt(&b[0]) {
                    if b[1].spec_lt(&x) {
                        X::lemma_lt_transitive(b[1], x, b[0]);
                    }
                    if w.spec_lt(&x) {
                        X::lemma_lt_transitive(w, x, b[0]);
                    }
                } else if b[1].spec_lt(&x) {
                    if x.spec_lt(&w) {
                        X::lemma_lt_transitive(b[1], x, w);
                    }
                }
            }
        }
    }
}

/// A range that holds both ends of another holds everything between them.
pub proof fn lemma_in_range_between<X: PlotNum>(r: Option<[X; 2]>, lo: X, hi: X, w: X)
    requires
        in_range(r, lo),
        in_range(r, hi),
        !w.spec_lt(&lo),
        !hi.spec_lt(&w),
    ensures
        in_range(r, w),
{
    let b = r.unwrap();
    X::lemma_lt_total(lo, w);
    X::lemma_lt_total(w, hi);
    if w.spec_lt(&b[0]) {
        if lo.spec_lt(&w) {
            X::lemma_lt_transitive(lo, w, b[0]);
        }
    }
    if b[1].spec_lt(&w) {
        if w.spec_lt(&hi) {
            X::lemma_lt_transitive(b[1], w, hi);
        }
    }
}

/// The bounds after taking in optional values, first to last, as a run of `Area::grow`
/// calls on one axis does from `Area::new`.
pub open spec fn grow_opts<X: PlotNum>(r: Option<[X; 2]>, vs: Seq<Option<X>>) -> Option<[X; 2]>
    decreases vs.len(),
{
    if vs.len() == 0 {
        r
    } else {
        grow_range(grow_opts(r, vs.drop_last()), vs.last())
    }
}

/// The value at `i` is given and is not a hole.
pub open spec fn solid_at<X: PlotNum>(vs: Seq<Option<X>>, i: int) -> bool {
    vs[i] matches Some(x) && !x.spec_is_hole()
}

/// Growing never narrows a range: the new min is not above the old min, and the new
/// max is not below the old max.
pub proof fn lemma_grow_widens<X: PlotNum>(r: Option<[X; 2]>, v: Option<X>)
    requires
        range_wf(r),
    ensures
        r matches Some(b) ==> (grow_range(r, v) matches Some(c) && !b[0].spec_lt(&c[0]) && !c[1].spec_lt(&b[1])),
{
    if let Some(b) = r {
        X::lemma_lt_irreflexive(b[0]);
        X::lemma_lt_irreflexive(b[1]);
        if let Some(x) = v {
            if x.spec_lt(&b[0]) && b[0].spec_lt(&x) {
                X::lemma_lt_transitive(x, b[0], x);
                X::lemma_lt_irreflexive(x);
            }
            if b[1].spec_lt(&x) && x.spec_lt(&b[1]) {
                X::lemma_lt_transitive(x, b[1], x);
                X::lemma_lt_irreflexive(x);
            }
        }
    }
}

/// The bounds that a run of grows builds from nothing are the min and the max of the
/// values that were given and are not holes: none when there is no such value, else a
/// well formed range whose ends are two of those values and that holds all of them.
pub proof fn lemma_area_min_max<X: PlotNum>(vs: Seq<Option<X>>)
    ensures
        grow_opts(None, vs) is None <==> forall|i: int| 0 <= i < vs.len() ==> !solid_at(vs, i),
        grow_opts(None, vs) matches Some(b) ==> {
            &&& range_wf(Some(b))
            &&& exists|i: int| 0 <= i < vs.len() && solid_at(vs, i) && vs[i] == Some(b[0])
            &&& exists|j: int| 0 <= j < vs.len() && solid_at(vs, j) && vs[j] == Some(b[1])
            &&& forall|i: int| 0 <= i < vs.len() && solid_at(vs, i) ==> in_range(Some(b), vs[i].unwrap())
        },
    decreases vs.len(),
{
    if vs.len() > 0 {
        let pre = vs.drop_last();
        let n = vs.len() - 1;
        lemma_area_min_max(pre);
        let p = grow_opts(None, pre);
        let v = vs.last();
        assert forall|i: int| 0 <= i < n implies vs[i] == pre[i] by {}
        lemma_grow_range(p, v, v.unwrap_or(vs[0].unwrap()));
        match p {
            None => {
                if solid_at(vs, n) {
                    let x = v.unwrap();
                    X::lemma_lt_irreflexive(x);
                    assert forall|i: int| 0 <= i < vs.len() && solid_at(vs, i) implies in_range(Some([x, x]), vs[i].unwrap()) by {
                        if i < n {
                            assert(!solid_at(pre, i));
                        }
                    }
                } else {
                    assert forall|i: int| 0 <= i < vs.len() implies !solid_at(vs, i) by {
                        if i < n {
                            assert(!solid_at(pre, i));
                        }
                    }
                }
            },
            Some(b) => {
                let i0 = choose|i: int| 0 <= i < pre.len() && solid_at(pre, i) && pre[i] == Some(b[0]);
                let j0 = choose|j: int| 0 <= j < pre.len() && solid_at(pre, j) && pre[j] == Some(b[1]);
                assert(solid_at(vs, i0) && vs[i0] == Some(b[0]));
                assert(solid_at(vs, j0) && vs[j0] == Some(b[1]));
                let c = grow_opts(None, vs).unwrap();
                assert forall|i: int| 0 <= i < vs.len() && solid_at(vs, i) implies in_range(Some(c), vs[i].unwrap()) by {
                    if i < n {
                        assert(solid_at(pre, i));
                        lemma_grow_range(p, v, vs[i].unwrap());
                    } else {
                        lemma_grow_range(p, v, vs[i].unwrap());
                    }
                }
                assert(!(forall|i: int| 0 <= i < vs.len() ==> !solid_at(vs, i))) by {
                    assert(solid_at(vs, i0));
                }
                if solid_at(vs, n) {
                    let x = v.unwrap();
                    if x.spec_lt(&b[0]) {
                        assert(vs[n] == Some(c[0]));
                    } else if b[1].spec_lt(&x) {
                        assert(vs[n] == Some(c[1]));
                    }
                }
            },
        }
    }
}

///
/// The min/max bounds that plots cover, for each axis.
///
pub struct Area<X, Y> {
    x: Option<[X; 2]>,
    y: Option<[Y; 2]>,
}

impl<X, Y> View for Area<X, Y> {
    type V = (Option<[X; 2]>, Option<[Y; 2]>);

    closed spec fn view(&self) -> Self::V {
        (self.x, self.y)
    }
}

fn grow_one<X: PlotNum>(r: &mut Option<[X; 2]>, v: Option<X>)
    ensures
        *final(r) == grow_range(*old(r), v),
{
    if let Some(x) = v {
        if !x.is_hole() {
            match *r {
                None => {
                    *r = Some([x, x]);
                },
                Some(b) => {
                    if x.less_than(&b[0]) {
                        *r = Some([x, b[1]]);
                    } else if b[1].less_than(&x) {
                        *r = Some([b[0], x]);
                    }
                },
            }
        }
    }
}

fn build_one<X: PlotNum>(r: Option<[X; 2]>) -> (b: [X; 2])
    requires
        build_range_ok(r),
    ensures
        b == build_range(r),
        b[0] != b[1],
{
    match r {
        None => X::unit_range(None),
        Some(b) => {
            let lt = b[0].less_than(&b[1]);
            let gt = b[1].less_than(&b[0]);
            proof {
                X::lemma_lt_total(b[0], b[1]);
                X::lemma_lt_irreflexive(b[0]);
            }
            if !lt && !gt {
                X::unit_range(Some(b[0]))
            } else {
                b
            }
        },
    }
}

impl<X: PlotNum, Y: PlotNum> Area<X, Y> {
    /// No bounds yet.
    pub fn new() -> (r: Area<X, Y>)
        ensures
            r@ == (None::<[X; 2]>, None::<[Y; 2]>),
    {
        Area { x: None, y: None }
    }

    /// Take in a value for either axis.
    pub fn grow(&mut self, x: Option<X>, y: Option<Y>)
        ensures
            final(self)@ == (grow_range(old(self)@.0, x), grow_range(old(self)@.1, y)),
    {
        grow_one(&mut self.x, x);
        grow_one(&mut self.y, y);
    }

    /// Take in the bounds of another area.
    pub fn grow_area(&mut self, other: &Area<X, Y>)
        ensures
            final(self)@ == (
                match other@.0 {
                    Some(b) => grow_range(grow_range(old(self)@.0, Some(b[0])), Some(b[1])),
                    None => old(self)@.0,
                },
                match other@.1 {
                    Some(b) => grow_range(grow_range(old(self)@.1, Some(b[0])), Some(b[1])),
                    None => old(self)@.1,
                },
            ),
    {
        if let Some(b) = other.x {
            grow_one(&mut self.x, Some(b[0]));
            grow_one(&mut self.x, Some(b[1]));
        }
        if let Some(b) = other.y {
            grow_one(&mut self.y, Some(b[0]));
            grow_one(&mut self.y, Some(b[1]));
        }
    }

    /// The bounds to show: a one-point range or no range becomes the unit range.
    pub fn build(self) -> (r: (DataBound<X>, DataBound<Y>))
        requires
            build_range_ok(self@.0),
            build_range_ok(self@.1),
        ensures
            [r.0.min, r.0.max] == build_range(self@.0),
            [r.1.min, r.1.max] == build_range(self@.1),
            r.0.min != r.0.max,
            r.1.min != r.1.max,
    {
        let x = build_one(self.x);
        let y = build_one(self.y);
        (DataBound { min: x[0], max: x[1] }, DataBound { min: y[0], max: y[1] })
    }
}

fn try_build_one<X: PlotNum>(r: Option<[X; 2]>) -> (b: Option<[X; 2]>)
    ensures
        b is Some <==> build_range_ok(r),
        b matches Some(v) ==> v == build_range(r) && v[0] != v[1],
{
    let arg: Option<X> = match r {
        None => None,
        Some(b) => {
            let lt = b[0].less_than(&b[1]);
            let gt = b[1].less_than(&b[0]);
            proof {
                X::lemma_lt_total(b[0], b[1]);
                X::lemma_lt_irreflexive(b[0]);
            }
            if !lt && !gt {
                Some(b[0])
            } else {
                return Some(b);
            }
        },
    };
    if !X::has_unit_range(arg) {
        return None;
    }
    let u = X::unit_range(arg);
    let lt = u[0].less_than(&u[1]);
    let gt = u[1].less_than(&u[0]);
    proof {
        X::lemma_lt_total(u[0], u[1]);
        X::lemma_lt_irreflexive(u[0]);
    }
    if lt || gt {
        Some(u)
    } else {
        None
    }
}

impl<X: PlotNum, Y: PlotNum> Area<X, Y> {
    /// The bounds to show, as `build` gives them, or none where `build` cannot compute
    /// them.
    pub fn try_build(self) -> (r: Option<(DataBound<X>, DataBound<Y>)>)
        ensures
            r is Some <==> build_range_ok(self@.0) && build_range_ok(self@.1),
            r matches Some(b) ==> [b.0.min, b.0.max] == build_range(self@.0)
                && [b.1.min, b.1.max] == build_range(self@.1),
    {
        let x = try_build_one(self.x);
        let y = try_build_one(self.y);
        match (x, y) {
            (Some(x), Some(y)) => Some((DataBound { min: x[0], max: x[1] }, DataBound { min: y[0], max: y[1] })),
            _ => None,
        }
    }
}

/// Something that can widen an area, like markers that must stay in view.
pub trait Markerable<X, Y> {
    fn increase_area(&mut self, area: &mut Area<X, Y>);
}

} // verus!
