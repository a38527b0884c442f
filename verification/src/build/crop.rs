//!
//! Contains the [`Croppable`] trait which allows replacing values with disconnect values.
//!
use vstd::prelude::*;
use crate::build::stream::Stream;
use crate::plotnum::{DiscNum, PlotNum};

verus! {

/// Which side of a bound is cut away.
#[derive(Copy, Clone, PartialEq, Eq, Structural)]
pub enum Dir {
    Above,
    Below,
    Left,
    Right,
}

/// A point after one cropping: the coordinate that lies past the bound becomes a hole.
pub open spec fn crop_point<X: DiscNum, Y: DiscNum>(dir: Dir, val: (X, Y), p: (X, Y)) -> (X, Y) {
    match dir {
        Dir::Above => if val.1.spec_lt(&p.1) { (p.0, Y::spec_hole()) } else { p },
        Dir::Below => if p.1.spec_lt(&val.1) { (p.0, Y::spec_hole()) } else { p },
        Dir::Left => if p.0.spec_lt(&val.0) { (X::spec_hole(), p.1) } else { p },
        Dir::Right => if val.0.spec_lt(&p.0) { (X::spec_hole(), p.1) } else { p },
    }
}

/// Every point after one cropping.
pub open spec fn crop_points<X: DiscNum, Y: DiscNum>(dir: Dir, val: (X, Y), pts: Seq<(X, Y)>) -> Seq<(X, Y)> {
    pts.map_values(|p: (X, Y)| crop_point(dir, val, p))
}

///
/// Represents one cropping.
///
pub struct Crop<X, Y, I> {
    dir: Dir,
    val: (X, Y),
    inner: I,
}

impl<X, Y, I> Crop<X, Y, I> {
    /// Which side is cut away.
    pub closed spec fn dir(&self) -> Dir {
        self.dir
    }

    /// The bound: its first part for a left or right cropping, its second part for one
    /// above or below.
    pub closed spec fn val(&self) -> (X, Y) {
        self.val
    }

    /// The points before cropping.
    pub closed spec fn inner(&self) -> I {
        self.inner
    }
}

impl<X: DiscNum, Y: DiscNum, I: Stream<(X, Y)>> Stream<(X, Y)> for Crop<X, Y, I> {
    open spec fn rest(&self) -> Seq<(X, Y)> {
        crop_points(self.dir(), self.val(), self.inner().rest())
    }

    fn next(&mut self) -> (r: Option<(X, Y)>) {
        let ghost before = self.inner.rest();
        if let Some(g) = self.inner.next() {
            let (x, y) = g;
            let r = match self.dir {
                Dir::Above => {
                    if self.val.1.less_than(&y) {
                        (x, Y::hole())
                    } else {
                        (x, y)
                    }
                },
                Dir::Below => {
                    if y.less_than(&self.val.1) {
                        (x, Y::hole())
                    } else {
                        (x, y)
                    }
                },
                Dir::Left => {
                    if x.less_than(&self.val.0) {
                        (X::hole(), y)
                    } else {
                        (x, y)
                    }
                },
                Dir::Right => {
                    if self.val.0.less_than(&x) {
                        (X::hole(), y)
                    } else {
                        (x, y)
                    }
                },
            };
            proof {
                assert(old(self).rest().drop_first() =~= self.rest());
            }
            Some(r)
        } else {
            proof {
                assert(old(self).rest() =~= self.rest());
            }
            None
        }
    }

    open spec fn hint(&self) -> (usize, Option<usize>) {
        self.inner().hint()
    }

    fn size_hint(&self) -> (r: (usize, Option<usize>)) {
        self.inner.size_hint()
    }
}

///
/// Using `filter` to filter out plots can have undesirable effects when used with a
/// line plot, since the line will assume continuity between each plot after the
/// filtering has taken place.
///
/// As an alternative, you can replace undesired plots with hole values to indicate
/// discontinuity. This trait replaces the coordinates of points past certain bounds
/// with holes.
///
pub trait Croppable<X: DiscNum, Y: DiscNum>: Stream<(X, Y)> {
    /// Make a hole of each y value above `val`.
    fn crop_above(self, val: Y) -> (r: Crop<X, Y, Self>)
        ensures
            r.rest() == crop_points(Dir::Above, (X::spec_hole(), val), self.rest()),
            r.inner() == self,
    {
        Crop { dir: Dir::Above, val: (X::hole(), val), inner: self }
    }

    /// Make a hole of each y value below `val`.
    fn crop_below(self, val: Y) -> (r: Crop<X, Y, Self>)
        ensures
            r.rest() == crop_points(Dir::Below, (X::spec_hole(), val), self.rest()),
            r.inner() == self,
    {
        Crop { dir: Dir::Below, val: (X::hole(), val), inner: self }
    }

    /// Make a hole of each x value left of `val`.
    fn crop_left(self, val: X) -> (r: Crop<X, Y, Self>)
        ensures
            r.rest() == crop_points(Dir::Left, (val, Y::spec_hole()), self.rest()),
            r.inner() == self,
    {
        Crop { dir: Dir::Left, val: (val, Y::hole()), inner: self }
    }

    /// Make a hole of each x value right of `val`.
    fn crop_right(self, val: X) -> (r: Crop<X, Y, Self>)
        ensures
            r.rest() == crop_points(Dir::Right, (val, Y::spec_hole()), self.rest()),
            r.inner() == self,
    {
        Crop { dir: Dir::Right, val: (val, Y::hole()), inner: self }
    }

    /// Make a hole of each y value outside `[val[0], val[1]]`.
    fn crop_around_y(self, val: [Y; 2]) -> (r: Crop<X, Y, Crop<X, Y, Self>>)
        ensures
            r.rest() == crop_points(
                Dir::Above,
                (X::spec_hole(), val[1]),
                crop_points(Dir::Below, (X::spec_hole(), val[0]), self.rest()),
            ),
    {
        let below = Crop { dir: Dir::Below, val: (X::hole(), val[0]), inner: self };
        Crop { dir: Dir::Above, val: (X::hole(), val[1]), inner: below }
    }

    /// Make a hole of each x value outside `[val[0], val[1]]`.
    fn crop_around_x(self, val: [X; 2]) -> (r: Crop<X, Y, Crop<X, Y, Self>>)
        ensures
            r.rest() == crop_points(
                Dir::Right,
                (val[1], Y::spec_hole()),
                crop_points(Dir::Left, (val[0], Y::spec_hole()), self.rest()),
            ),
    {
        let left = Crop { dir: Dir::Left, val: (val[0], Y::hole()), inner: self };
        Crop { dir: Dir::Right, val: (val[1], Y::hole()), inner: left }
    }

    /// Make a hole of each coordinate outside the rectangle `val` by `val2`.
    fn crop_around_area(self, val: [X; 2], val2: [Y; 2]) -> (r: Crop<X, Y, Crop<X, Y, Crop<X, Y, Crop<X, Y, Self>>>>)
        ensures
            r.rest() == crop_points(
                Dir::Above,
                (X::spec_hole(), val2[1]),
                crop_points(
                    Dir::Below,
                    (X::spec_hole(), val2[0]),
                    crop_points(
                        Dir::Right,
                        (val[1], Y::spec_hole()),
                        crop_points(Dir::Left, (val[0], Y::spec_hole()), self.rest()),
                    ),
                ),
            ),
    {
        let left = Crop { dir: Dir::Left, val: (val[0], Y::hole()), inner: self };
        let right = Crop { dir: Dir::Right, val: (val[1], Y::hole()), inner: left };
        let below = Crop { dir: Dir::Below, val: (X::hole(), val2[0]), inner: right };
        Crop { dir: Dir::Above, val: (X::hole(), val2[1]), inner: below }
    }
}

impl<X: DiscNum, Y: DiscNum, I: Stream<(X, Y)>> Croppable<X, Y> for I {
}

/// Cropping keeps every point, in order, and changes only the coordinate it crops:
/// that coordinate becomes a hole exactly where it lies past the bound, and is kept
/// elsewhere. So no point past the bound is drawn, and the points around a cut stay
/// apart.
pub proof fn lemma_crop<X: DiscNum, Y: DiscNum>(dir: Dir, val: (X, Y), pts: Seq<(X, Y)>, i: int)
    requires
        0 <= i < pts.len(),
    ensures
        crop_points(dir, val, pts).len() == pts.len(),
        ({
            let p = pts[i];
            let q = crop_points(dir, val, pts)[i];
            match dir {
                Dir::Above => q.0 == p.0 && (if val.1.spec_lt(&p.1) { q.1.spec_is_hole() } else { q.1 == p.1 }),
                Dir::Below => q.0 == p.0 && (if p.1.spec_lt(&val.1) { q.1.spec_is_hole() } else { q.1 == p.1 }),
                Dir::Left => q.1 == p.1 && (if p.0.spec_lt(&val.0) { q.0.spec_is_hole() } else { q.0 == p.0 }),
                Dir::Right => q.1 == p.1 && (if val.0.spec_lt(&p.0) { q.0.spec_is_hole() } else { q.0 == p.0 }),
            }
        }),
{
    X::lemma_hole();
    Y::lemma_hole();
}

} // verus!
