//!
//! Tools for assembling plots
//!
use vstd::prelude::*;
use crate::build::marker::{grow_range, in_range, lemma_grow_range, lemma_in_range_between, range_wf, Area};
use crate::build::stream::{Empty, PointSlice, Stream, VecIter};
use crate::plotnum::{HasZero, PlotNum};

verus! {

///
/// Determine how to interpret the plot's point data when rendering.
///
#[derive(Copy, Clone, Debug, PartialEq, Eq, Structural)]
pub enum PlotType {
    Scatter,
    Line,
    Histo,
    LineFill,
    LineFillRaw,
    Bars,
}

///
/// Determine if this is a plot or just text.
///
#[derive(Copy, Clone, Debug, PartialEq, Eq, Structural)]
pub enum PlotMetaType {
    Plot(PlotType),
    Text,
}

///
/// Display label helper for chaining: the label of a plot of the first or of the second chain.
///
#[derive(Copy, Clone)]
pub enum ChainDisplay<A, B> {
    A(A),
    B(B),
}

///
/// One element of the stream that describes plots: the start of a plot with its label,
/// one point, or the end of a plot.
///
pub enum PlotTag<L, D> {
    Start { name: D, typ: PlotMetaType, size_hint: (usize, Option<usize>) },
    Plot(L),
    Finish,
}

/// The tag with its label (if any) wrapped for the first chain.
pub open spec fn tag_a<L, D1, D2>(t: PlotTag<L, D1>) -> PlotTag<L, ChainDisplay<D1, D2>> {
    match t {
        PlotTag::Start { name, typ, size_hint } => PlotTag::Start { name: ChainDisplay::A(name), typ, size_hint },
        PlotTag::Plot(p) => PlotTag::Plot(p),
        PlotTag::Finish => PlotTag::Finish,
    }
}

/// The tag with its label (if any) wrapped for the second chain.
pub open spec fn tag_b<L, D1, D2>(t: PlotTag<L, D2>) -> PlotTag<L, ChainDisplay<D1, D2>> {
    match t {
        PlotTag::Start { name, typ, size_hint } => PlotTag::Start { name: ChainDisplay::B(name), typ, size_hint },
        PlotTag::Plot(p) => PlotTag::Plot(p),
        PlotTag::Finish => PlotTag::Finish,
    }
}

/// All tags wrapped for the first chain.
pub open spec fn tags_a<L, D1, D2>(s: Seq<PlotTag<L, D1>>) -> Seq<PlotTag<L, ChainDisplay<D1, D2>>> {
    Seq::new(s.len(), |i: int| tag_a::<L, D1, D2>(s[i]))
}

/// All tags wrapped for the second chain.
pub open spec fn tags_b<L, D1, D2>(s: Seq<PlotTag<L, D2>>) -> Seq<PlotTag<L, ChainDisplay<D1, D2>>> {
    Seq::new(s.len(), |i: int| tag_b::<L, D1, D2>(s[i]))
}

///
/// Chain two streams that produce plot tags: all of the first, then all of the second.
///
pub struct Chain<A, B> {
    pub a: A,
    pub b: B,
}

impl<L, D1, D2, A: Stream<PlotTag<L, D1>>, B: Stream<PlotTag<L, D2>>> Stream<PlotTag<L, ChainDisplay<D1, D2>>> for Chain<A, B> {
    open spec fn rest(&self) -> Seq<PlotTag<L, ChainDisplay<D1, D2>>> {
        tags_a::<L, D1, D2>(self.a.rest()) + tags_b::<L, D1, D2>(self.b.rest())
    }

    fn next(&mut self) -> (r: Option<PlotTag<L, ChainDisplay<D1, D2>>>) {
        let ghost ra = self.a.rest();
        let ghost rb = self.b.rest();
        if let Some(a) = self.a.next() {
            proof {
                assert(old(self).rest().drop_first() =~= self.rest());
            }
            let t: PlotTag<L, ChainDisplay<D1, D2>> = match a {
                PlotTag::Start { name, typ, size_hint } => PlotTag::Start { name: ChainDisplay::<D1, D2>::A(name), typ, size_hint },
                PlotTag::Plot(p) => PlotTag::<L, ChainDisplay<D1, D2>>::Plot(p),
                PlotTag::Finish => PlotTag::<L, ChainDisplay<D1, D2>>::Finish,
            };
            Some(t)
        } else {
            let rb_before = self.b.next();
            proof {
                assert(ra.len() == 0);
                assert(old(self).rest() =~= tags_b::<L, D1, D2>(rb));
                assert(self.a.rest().len() == 0);
                if rb.len() > 0 {
                    assert(old(self).rest().drop_first() =~= self.rest());
                } else {
                    assert(old(self).rest() =~= self.rest());
                }
            }
            match rb_before {
                Some(b) => {
                    let t: PlotTag<L, ChainDisplay<D1, D2>> = match b {
                        PlotTag::Start { name, typ, size_hint } => PlotTag::Start { name: ChainDisplay::<D1, D2>::B(name), typ, size_hint },
                        PlotTag::Plot(p) => PlotTag::<L, ChainDisplay<D1, D2>>::Plot(p),
                        PlotTag::Finish => PlotTag::<L, ChainDisplay<D1, D2>>::Finish,
                    };
                    Some(t)
                },
                None => None,
            }
        }
    }

    open spec fn hint(&self) -> (usize, Option<usize>) {
        chain_hint(self.a.hint(), self.b.hint())
    }

    fn size_hint(&self) -> (r: (usize, Option<usize>)) {
        let ha = self.a.size_hint();
        let hb = self.b.size_hint();
        let k: Option<usize> = match ha.1 {
            Some(x) => match hb.1 {
                Some(y) => x.checked_add(y),
                None => None,
            },
            None => None,
        };
        (ha.0.saturating_add(hb.0), k)
    }
}

/// `a + b`, or `usize::MAX` where the sum does not fit.
pub open spec fn sat_add(a: usize, b: usize) -> usize {
    if a + b <= usize::MAX { (a + b) as usize } else { usize::MAX }
}

/// `a + b`, or no bound where the sum does not fit.
pub open spec fn bound_add(a: usize, b: usize) -> Option<usize> {
    if a + b <= usize::MAX { Some((a + b) as usize) } else { None }
}

/// The size hint of two chained streams: the lower bounds add up; the upper bound is the
/// sum where both are known, and there is none where either is unknown.
pub open spec fn chain_hint(ha: (usize, Option<usize>), hb: (usize, Option<usize>)) -> (usize, Option<usize>) {
    (sat_add(ha.0, hb.0), match (ha.1, hb.1) {
        (Some(x), Some(y)) => bound_add(x, y),
        _ => None,
    })
}

/// Bounds after taking in every point, first to last.
pub open spec fn grow_all<X: PlotNum, Y: PlotNum>(a: (Option<[X; 2]>, Option<[Y; 2]>), pts: Seq<(X, Y)>) -> (Option<[X; 2]>, Option<[Y; 2]>)
    decreases pts.len(),
{
    if pts.len() == 0 {
        a
    } else {
        let b = grow_all(a, pts.drop_last());
        (grow_range(b.0, Some(pts.last().0)), grow_range(b.1, Some(pts.last().1)))
    }
}

///
/// Return min max bounds as well as the points of one plot.
///
pub trait PlotIt<X: PlotNum, Y: PlotNum>: Sized {
    type It: Stream<(X, Y)>;

    /// The points of the plot.
    spec fn points(&self) -> Seq<(X, Y)>;

    /// The points whose min max bounds the plot covers.
    spec fn bounds(&self) -> Seq<(X, Y)>;

    /// Take in the bounds, and hand back a stream of the points.
    fn unpack(self, area: &mut Area<X, Y>) -> (r: Self::It)
        ensures
            r.rest() == self.points(),
            final(area)@ == grow_all(old(area)@, self.bounds()),
    ;
}

/// Grow `area` by every point of `pts`.
pub fn grow_by_points<X: PlotNum, Y: PlotNum>(area: &mut Area<X, Y>, pts: &[(X, Y)])
    ensures
        final(area)@ == grow_all(old(area)@, pts@),
{
    let mut i: usize = 0;
    while i < pts.len()
        invariant
            i <= pts@.len(),
            area@ == grow_all(old(area)@, pts@.subrange(0, i as int)),
        decreases pts.len() - i,
    {
        let (x, y) = pts[i];
        area.grow(Some(x), Some(y));
        proof {
            assert(pts@.subrange(0, i + 1).drop_last() == pts@.subrange(0, i as int));
        }
        i = i + 1;
    }
    proof {
        assert(pts@.subrange(0, pts@.len() as int) == pts@);
    }
}

/// Grow `area` by every point that `s` has left, draining it.
pub fn grow_by_stream<X: PlotNum, Y: PlotNum, S: Stream<(X, Y)>>(area: &mut Area<X, Y>, s: &mut S)
    ensures
        final(area)@ == grow_all(old(area)@, old(s).rest()),
        final(s).rest().len() == 0,
{
    let ghost all = s.rest();
    let ghost start = area@;
    loop
        invariant
            all.len() >= s.rest().len(),
            s.rest() == all.skip(all.len() - s.rest().len()),
            area@ == grow_all(start, all.take(all.len() - s.rest().len())),
        ensures
            s.rest().len() == 0,
            area@ == grow_all(start, all),
        decreases s.rest().len(),
    {
        let ghost k = all.len() - s.rest().len();
        match s.next() {
            Some(p) => {
                proof {
                    assert(all.take(k + 1).drop_last() =~= all.take(k));
                    assert(all[k] == p);
                    assert(s.rest() =~= all.skip(k + 1));
                }
                area.grow(Some(p.0), Some(p.1));
            },
            None => {
                proof {
                    assert(all.take(all.len() as int) =~= all);
                }
                break;
            },
        }
    }
}

/// Points collected into a vector: the bounds are found on the vector, then it is
/// handed back as the stream.
impl<X: PlotNum, Y: PlotNum> PlotIt<X, Y> for Vec<(X, Y)> {
    type It = VecIter<(X, Y)>;

    open spec fn points(&self) -> Seq<(X, Y)> {
        self@
    }

    open spec fn bounds(&self) -> Seq<(X, Y)> {
        self@
    }

    fn unpack(self, area: &mut Area<X, Y>) -> (r: VecIter<(X, Y)>) {
        grow_by_points(area, self.as_slice());
        VecIter::new(self)
    }
}

///
/// A plot whose points are walked twice, once to find the min max bounds and once to draw.
///
#[derive(Copy, Clone)]
pub struct ClonedPlotIt<I>(pub I);

impl<'a, X: PlotNum, Y: PlotNum> ClonedPlotIt<&'a [(X, Y)]> {
    pub fn new(it: &'a [(X, Y)]) -> (r: Self)
        ensures
            r.0 == it,
    {
        ClonedPlotIt(it)
    }
}

impl<'a, X: PlotNum, Y: PlotNum> PlotIt<X, Y> for ClonedPlotIt<&'a [(X, Y)]> {
    type It = PointSlice<'a, X, Y>;

    open spec fn points(&self) -> Seq<(X, Y)> {
        self.0@
    }

    open spec fn bounds(&self) -> Seq<(X, Y)> {
        self.0@
    }

    fn unpack(self, area: &mut Area<X, Y>) -> (r: PointSlice<'a, X, Y>) {
        grow_by_points(area, self.0);
        PointSlice::new(self.0)
    }
}


/// The size hint that the tags of one plot report: that of its points, plus the
/// `pending` start and finish tags not yet handed out.
pub open spec fn creator_hint(h: (usize, Option<usize>), pending: usize) -> (usize, Option<usize>) {
    (sat_add(h.0, pending), match h.1 {
        Some(b) => bound_add(b, pending),
        None => None,
    })
}

/// How many of the start and finish tags of a plot are still to be handed out.
pub open spec fn pending_tags<D>(start: Option<(PlotMetaType, D)>, finished: bool) -> usize {
    ((if start is Some { 1int } else { 0int }) + (if finished { 0int } else { 1int })) as usize
}

/// The tags still to come of one plot: its start tag (if not yet handed out), a tag for
/// each point, then its finish tag (if not yet handed out).
pub open spec fn plot_tags<L, D>(
    start: Option<(PlotMetaType, D)>,
    hint: (usize, Option<usize>),
    pts: Seq<L>,
    finished: bool,
) -> Seq<PlotTag<L, D>> {
    let head: Seq<PlotTag<L, D>> = match start {
        Some(s) => seq![PlotTag::Start { name: s.1, typ: s.0, size_hint: creator_hint(hint, pending_tags(None::<(PlotMetaType, D)>, finished)) }],
        None => Seq::empty(),
    };
    let tail: Seq<PlotTag<L, D>> = if finished { Seq::empty() } else { seq![PlotTag::Finish] };
    head + pts.map_values(|p: L| PlotTag::<L, D>::Plot(p)) + tail
}

///
/// The tags of one plot: a start tag with its label, one tag per point, a finish tag.
///
pub struct PlotIterCreator<I, D> {
    start: Option<(PlotMetaType, D)>,
    it: I,
    posted_finish: bool,
}

impl<I, D> PlotIterCreator<I, D> {
    /// The stream of points.
    pub closed spec fn inner(&self) -> I {
        self.it
    }

    /// The start tag's content, while it has not been handed out.
    pub closed spec fn pending_start(&self) -> Option<(PlotMetaType, D)> {
        self.start
    }

    /// Whether the finish tag has been handed out.
    pub closed spec fn finished(&self) -> bool {
        self.posted_finish
    }
}

impl<I, D> PlotIterCreator<I, D> {
    fn new(label: D, typ: PlotMetaType, it: I) -> (r: Self)
        ensures
            r.inner() == it,
            r.pending_start() == Some((typ, label)),
            !r.finished(),
    {
        PlotIterCreator { start: Some((typ, label)), it, posted_finish: false }
    }
}

impl<L, D, I: Stream<L>> Stream<PlotTag<L, D>> for PlotIterCreator<I, D> {
    open spec fn rest(&self) -> Seq<PlotTag<L, D>> {
        plot_tags(self.pending_start(), self.inner().hint(), self.inner().rest(), self.finished())
    }

    fn next(&mut self) -> (r: Option<PlotTag<L, D>>) {
        let ghost pts = self.it.rest();
        let ghost old_hint = self.it.hint();
        if self.start.is_some() {
            let s = self.start.take();
            let size_hint = self.size_hint();
            proof {
                assert(old(self).rest().drop_first() =~= self.rest());
            }
            match s {
                Some(st) => Some(PlotTag::Start { name: st.1, typ: st.0, size_hint }),
                None => None,
            }
        } else if let Some(l) = self.it.next() {
            proof {
                assert(old(self).rest().drop_first() =~= self.rest());
            }
            Some(PlotTag::Plot(l))
        } else if !self.posted_finish {
            self.posted_finish = true;
            proof {
                assert(old(self).rest().drop_first() =~= self.rest());
            }
            Some(PlotTag::Finish)
        } else {
            proof {
                assert(old(self).rest() =~= Seq::<PlotTag<L, D>>::empty());
                assert(self.rest() =~= Seq::<PlotTag<L, D>>::empty());
            }
            None
        }
    }

    open spec fn hint(&self) -> (usize, Option<usize>) {
        creator_hint(self.inner().hint(), pending_tags(self.pending_start(), self.finished()))
    }

    fn size_hint(&self) -> (r: (usize, Option<usize>)) {
        let (a, b) = self.it.size_hint();
        let pending: usize = (if self.start.is_some() { 1usize } else { 0usize })
            + (if self.posted_finish { 0usize } else { 1usize });
        let k: Option<usize> = match b {
            Some(b) => b.checked_add(pending),
            None => None,
        };
        (a.saturating_add(pending), k)
    }
}

/// The area that two areas cover together.
pub open spec fn union_area<X: PlotNum, Y: PlotNum>(
    a: (Option<[X; 2]>, Option<[Y; 2]>),
    b: (Option<[X; 2]>, Option<[Y; 2]>),
) -> (Option<[X; 2]>, Option<[Y; 2]>) {
    (
        match b.0 {
            Some(r) => grow_range(grow_range(a.0, Some(r[0])), Some(r[1])),
            None => a.0,
        },
        match b.1 {
            Some(r) => grow_range(grow_range(a.1, Some(r[0])), Some(r[1])),
            None => a.1,
        },
    )
}

///
/// The area that some plots cover, with the stream of their tags.
///
pub struct PlotRes<I, X, Y> {
    pub area: Area<X, Y>,
    pub it: I,
}

impl<I, X: PlotNum, Y: PlotNum> PlotRes<I, X, Y> {
    /// Put the plots of `other` after these: the area covers both, the tags of `other`
    /// follow these.
    pub fn chain<L, D1, D2, J>(self, other: PlotRes<J, X, Y>) -> (r: PlotRes<Chain<I, J>, X, Y>)
        where
            I: Stream<PlotTag<L, D1>>,
            J: Stream<PlotTag<L, D2>>,
        ensures
            r.area@ == union_area(self.area@, other.area@),
            r.it.rest() == tags_a::<L, D1, D2>(self.it.rest()) + tags_b::<L, D1, D2>(other.it.rest()),
    {
        let PlotRes { area: curr_area, it: p1 } = self;
        let PlotRes { area: other_area, it: p } = other;
        let mut area = curr_area;
        area.grow_area(&other_area);
        PlotRes { area, it: Chain { a: p1, b: p } }
    }
}

/// The bounds after taking in every value, first to last.
pub open spec fn grow_seq<X: PlotNum>(r: Option<[X; 2]>, vals: Seq<X>) -> Option<[X; 2]>
    decreases vals.len(),
{
    if vals.len() == 0 {
        r
    } else {
        grow_range(grow_seq(r, vals.drop_last()), Some(vals.last()))
    }
}

///
/// Ensure the list of marker values are within view.
///
pub fn markers<X: PlotNum, Y: PlotNum>(x: Vec<X>, y: Vec<Y>) -> (r: PlotRes<Empty<PlotTag<(X, Y), &'static str>>, X, Y>)
    ensures
        r.area@ == (grow_seq(None, x@), grow_seq(None, y@)),
        r.it.rest() == Seq::<PlotTag<(X, Y), &'static str>>::empty(),
{
    let mut area: Area<X, Y> = Area::new();
    let mut i: usize = 0;
    while i < x.len()
        invariant
            i <= x@.len(),
            area@ == (grow_seq(None, x@.subrange(0, i as int)), None::<[Y; 2]>),
        decreases x.len() - i,
    {
        area.grow(Some(x[i]), None);
        proof {
            assert(x@.subrange(0, i + 1).drop_last() == x@.subrange(0, i as int));
        }
        i = i + 1;
    }
    proof {
        assert(x@.subrange(0, x@.len() as int) == x@);
        assert(y@.subrange(0, 0) == Seq::<Y>::empty());
    }
    let mut j: usize = 0;
    while j < y.len()
        invariant
            j <= y@.len(),
            area@ == (grow_seq(None, x@), grow_seq(None, y@.subrange(0, j as int))),
        decreases y.len() - j,
    {
        proof {
            assert(x@.subrange(0, x@.len() as int) == x@);
        }
        area.grow(None, Some(y[j]));
        proof {
            assert(y@.subrange(0, j + 1).drop_last() == y@.subrange(0, j as int));
        }
        j = j + 1;
    }
    proof {
        assert(x@.subrange(0, x@.len() as int) == x@);
        assert(y@.subrange(0, y@.len() as int) == y@);
    }
    PlotRes { area, it: Empty::new() }
}

///
/// Ensure that the origin point is within view.
///
pub fn origin<X: PlotNum + HasZero, Y: PlotNum + HasZero>() -> (r: PlotRes<Empty<PlotTag<(X, Y), &'static str>>, X, Y>)
    ensures
        r.area@ == (grow_range(None, Some(X::spec_zero())), grow_range(None, Some(Y::spec_zero()))),
        r.it.rest() == Seq::<PlotTag<(X, Y), &'static str>>::empty(),
{
    let zx = X::zero();
    let zy = Y::zero();
    let mut xs: Vec<X> = Vec::new();
    xs.push(zx);
    let mut ys: Vec<Y> = Vec::new();
    ys.push(zy);
    let ghost sx = xs@;
    let ghost sy = ys@;
    let r = markers(xs, ys);
    proof {
        assert(sx.drop_last() =~= Seq::<X>::empty());
        assert(sy.drop_last() =~= Seq::<Y>::empty());
        assert(grow_seq(None, Seq::<X>::empty()) == None::<[X; 2]>);
        assert(grow_seq(None, Seq::<Y>::empty()) == None::<[Y; 2]>);
        assert(sx.last() == zx);
        assert(grow_seq(None, sx) == grow_range(None, Some(X::spec_zero())));
        assert(grow_seq(None, sy) == grow_range(None, Some(Y::spec_zero())));
    }
    r
}

///
/// Start creating one plot: holds its label until the kind of plot is chosen.
///
pub struct SinglePlotBuilder<D> {
    label: D,
}

impl<D> SinglePlotBuilder<D> {
    /// The label of the plot to be built.
    pub closed spec fn label(&self) -> D {
        self.label
    }
}

///
/// Start creating one plot.
///
pub fn plot<D>(label: D) -> (r: SinglePlotBuilder<D>)
    ensures
        r.label() == label,
{
    SinglePlotBuilder { label }
}

/// The tags that a new plot of kind `typ` hands out first to last: its start tag, one
/// tag per point, its finish tag.
pub open spec fn new_plot_tags<L, D>(typ: PlotMetaType, label: D, hint: (usize, Option<usize>), pts: Seq<L>) -> Seq<PlotTag<L, D>> {
    plot_tags(Some((typ, label)), hint, pts, false)
}

impl<D> SinglePlotBuilder<D> {
    fn gen<X: PlotNum, Y: PlotNum, P: PlotIt<X, Y>>(self, it: P, typ: PlotMetaType) -> (r: PlotRes<PlotIterCreator<P::It, D>, X, Y>)
        ensures
            r.area@ == grow_all((None, None), it.bounds()),
            r.it.inner().rest() == it.points(),
            r.it.rest() == new_plot_tags(typ, self.label(), r.it.inner().hint(), it.points()),
    {
        let mut area: Area<X, Y> = Area::new();
        let inner = it.unpack(&mut area);
        PlotRes { area, it: PlotIterCreator::new(self.label, typ, inner) }
    }

    /// Create a line from plots using a SVG path element.
    pub fn line<X: PlotNum, Y: PlotNum, P: PlotIt<X, Y>>(self, it: P) -> (r: PlotRes<PlotIterCreator<P::It, D>, X, Y>)
        ensures
            r.area@ == grow_all((None, None), it.bounds()),
            r.it.inner().rest() == it.points(),
            r.it.rest() == new_plot_tags(PlotMetaType::Plot(PlotType::Line), self.label(), r.it.inner().hint(), it.points()),
    {
        self.gen(it, PlotMetaType::Plot(PlotType::Line))
    }

    /// Create bars from plots.
    pub fn bars<X: PlotNum, Y: PlotNum, P: PlotIt<X, Y>>(self, it: P) -> (r: PlotRes<PlotIterCreator<P::It, D>, X, Y>)
        ensures
            r.area@ == grow_all((None, None), it.bounds()),
            r.it.inner().rest() == it.points(),
            r.it.rest() == new_plot_tags(PlotMetaType::Plot(PlotType::Bars), self.label(), r.it.inner().hint(), it.points()),
    {
        self.gen(it, PlotMetaType::Plot(PlotType::Bars))
    }

    /// Create a scatter plot from plots, using a SVG path with lines with zero length.
    pub fn scatter<X: PlotNum, Y: PlotNum, P: PlotIt<X, Y>>(self, it: P) -> (r: PlotRes<PlotIterCreator<P::It, D>, X, Y>)
        ensures
            r.area@ == grow_all((None, None), it.bounds()),
            r.it.inner().rest() == it.points(),
            r.it.rest() == new_plot_tags(PlotMetaType::Plot(PlotType::Scatter), self.label(), r.it.inner().hint(), it.points()),
    {
        self.gen(it, PlotMetaType::Plot(PlotType::Scatter))
    }

    /// Create a histogram from plots using SVG rect elements.
    pub fn histogram<X: PlotNum, Y: PlotNum, P: PlotIt<X, Y>>(self, it: P) -> (r: PlotRes<PlotIterCreator<P::It, D>, X, Y>)
        ensures
            r.area@ == grow_all((None, None), it.bounds()),
            r.it.inner().rest() == it.points(),
            r.it.rest() == new_plot_tags(PlotMetaType::Plot(PlotType::Histo), self.label(), r.it.inner().hint(), it.points()),
    {
        self.gen(it, PlotMetaType::Plot(PlotType::Histo))
    }

    /// Create a line from plots that will be filled underneath using a SVG path element.
    pub fn line_fill<X: PlotNum, Y: PlotNum, P: PlotIt<X, Y>>(self, it: P) -> (r: PlotRes<PlotIterCreator<P::It, D>, X, Y>)
        ensures
            r.area@ == grow_all((None, None), it.bounds()),
            r.it.inner().rest() == it.points(),
            r.it.rest() == new_plot_tags(PlotMetaType::Plot(PlotType::LineFill), self.label(), r.it.inner().hint(), it.points()),
    {
        self.gen(it, PlotMetaType::Plot(PlotType::LineFill))
    }

    /// Create a line from plots that will be filled using a SVG path element.
    /// The first and last points will be connected and then filled in.
    pub fn line_fill_raw<X: PlotNum, Y: PlotNum, P: PlotIt<X, Y>>(self, it: P) -> (r: PlotRes<PlotIterCreator<P::It, D>, X, Y>)
        ensures
            r.area@ == grow_all((None, None), it.bounds()),
            r.it.inner().rest() == it.points(),
            r.it.rest() == new_plot_tags(PlotMetaType::Plot(PlotType::LineFillRaw), self.label(), r.it.inner().hint(), it.points()),
    {
        self.gen(it, PlotMetaType::Plot(PlotType::LineFillRaw))
    }

    ///
    /// Write some text in the legend. This doesnt increment the plot number.
    ///
    pub fn text<X: PlotNum, Y: PlotNum>(self) -> (r: PlotRes<PlotIterCreator<Empty<(X, Y)>, D>, X, Y>)
        ensures
            r.area@ == (None::<[X; 2]>, None::<[Y; 2]>),
            r.it.rest() == new_plot_tags(PlotMetaType::Text, self.label(), (0usize, Some(0usize)), Seq::<(X, Y)>::empty()),
    {
        let area: Area<X, Y> = Area::new();
        PlotRes { area, it: PlotIterCreator::new(self.label, PlotMetaType::Text, Empty::new()) }
    }
}

/// The items of several sequences, one sequence after another.
pub open spec fn flatten<T>(s: Seq<Seq<T>>) -> Seq<T>
    decreases s.len(),
{
    if s.len() == 0 {
        Seq::empty()
    } else {
        s[0] + flatten(s.drop_first())
    }
}

/// The items each stream has left.
pub open spec fn rests<T, F: Stream<T>>(fs: Seq<F>) -> Seq<Seq<T>> {
    Seq::new(fs.len(), |i: int| fs[i].rest())
}

///
/// The tags of several plots, one plot after another.
///
pub struct MapPlotResIter<F> {
    its: VecIter<F>,
    cur: Option<F>,
}

impl<F> MapPlotResIter<F> {
    /// The stream being walked, if any.
    pub closed spec fn current(&self) -> Option<F> {
        self.cur
    }

    /// The streams still to walk after the current one.
    pub closed spec fn pending(&self) -> Seq<F> {
        self.its.rest()
    }
}

impl<T, F: Stream<T>> Stream<T> for MapPlotResIter<F> {
    open spec fn rest(&self) -> Seq<T> {
        (match self.current() {
            Some(f) => f.rest(),
            None => Seq::empty(),
        }) + flatten(rests(self.pending()))
    }

    fn next(&mut self) -> (r: Option<T>) {
        let ghost all = self.rest();
        loop
            invariant
                self.rest() == all,
                all == old(self).rest(),
            decreases 2 * self.pending().len() + (if self.current() is Some { 1int } else { 0int }),
        {
            let ghost pend = self.pending();
            let c = self.cur.take();
            if let Some(f0) = c {
                let mut f = f0;
                let ghost fr = f.rest();
                let x = f.next();
                if let Some(v) = x {
                    self.cur = Some(f);
                    proof {
                        assert(all == fr + flatten(rests(pend)));
                        assert(all.drop_first() =~= self.rest());
                    }
                    return Some(v);
                }
                proof {
                    assert(fr.len() == 0);
                    assert(all =~= flatten(rests(pend)));
                    assert(self.rest() =~= all);
                }
            }
            let nx = self.its.next();
            match nx {
                Some(g) => {
                    proof {
                        assert(rests(pend).drop_first() =~= rests(self.pending()));
                        assert(rests(pend)[0] == g.rest());
                    }
                    self.cur = Some(g);
                    proof {
                        assert(self.rest() =~= all);
                    }
                },
                None => {
                    proof {
                        assert(rests(pend) =~= Seq::<Seq<T>>::empty());
                        assert(all =~= Seq::<T>::empty());
                    }
                    return None;
                },
            }
        }
    }

    closed spec fn hint(&self) -> (usize, Option<usize>) {
        let f: (usize, Option<usize>) = match self.current() {
            Some(c) => c.hint(),
            None => (0, Some(0)),
        };
        (f.0, if self.its.hint().0 == 0 { f.1 } else { None })
    }

    fn size_hint(&self) -> (r: (usize, Option<usize>)) {
        let f: (usize, Option<usize>) = match &self.cur {
            Some(c) => c.size_hint(),
            None => (0, Some(0)),
        };
        let left = self.its.size_hint();
        (f.0, if left.0 == 0 { f.1 } else { None })
    }
}

/// The area that several areas cover together, taken in from first to last.
pub open spec fn union_all<X: PlotNum, Y: PlotNum>(
    a: (Option<[X; 2]>, Option<[Y; 2]>),
    areas: Seq<(Option<[X; 2]>, Option<[Y; 2]>)>,
) -> (Option<[X; 2]>, Option<[Y; 2]>)
    decreases areas.len(),
{
    if areas.len() == 0 {
        a
    } else {
        union_area(union_all(a, areas.drop_last()), areas.last())
    }
}

/// The areas of some plots.
pub open spec fn areas_of<I, X, Y>(ps: Seq<PlotRes<I, X, Y>>) -> Seq<(Option<[X; 2]>, Option<[Y; 2]>)> {
    Seq::new(ps.len(), |i: int| ps[i].area@)
}

/// The tag streams of some plots.
pub open spec fn streams_of<I, X, Y>(ps: Seq<PlotRes<I, X, Y>>) -> Seq<I> {
    Seq::new(ps.len(), |i: int| ps[i].it)
}

///
/// Put several plots together: the area covers all of theirs, and their tags follow
/// one another.
///
pub fn collect_plots<T, F: Stream<T>, X: PlotNum, Y: PlotNum>(plots: Vec<PlotRes<F, X, Y>>) -> (r: PlotRes<MapPlotResIter<F>, X, Y>)
    ensures
        r.area@ == union_all((None, None), areas_of(plots@)),
        r.it.rest() == flatten(rests(streams_of(plots@))),
{
    let ghost all = plots@;
    let mut src = VecIter::new(plots);
    let mut area: Area<X, Y> = Area::new();
    let mut its: Vec<F> = Vec::new();
    loop
        invariant
            all.len() >= src.rest().len(),
            src.rest() == all.skip(all.len() - src.rest().len()),
            its@ == streams_of(all).take(all.len() - src.rest().len()),
            area@ == union_all((None, None), areas_of(all).take(all.len() - src.rest().len())),
        ensures
            its@ == streams_of(all),
            area@ == union_all((None, None), areas_of(all)),
        decreases src.rest().len(),
    {
        let ghost k = all.len() - src.rest().len();
        match src.next() {
            Some(p) => {
                let PlotRes { area: pa, it } = p;
                area.grow_area(&pa);
                its.push(it);
                proof {
                    assert(all[k] == p);
                    assert(src.rest() =~= all.skip(k + 1));
                    assert(its@ =~= streams_of(all).take(k + 1));
                    assert(areas_of(all).take(k + 1).drop_last() =~= areas_of(all).take(k));
                }
            },
            None => {
                proof {
                    assert(streams_of(all).take(all.len() as int) =~= streams_of(all));
                    assert(areas_of(all).take(all.len() as int) =~= areas_of(all));
                }
                break;
            },
        }
    }
    let it = MapPlotResIter { its: VecIter::new(its), cur: None };
    proof {
        assert(it.rest() =~= flatten(rests(streams_of(all))));
    }
    PlotRes { area, it }
}

/// Every marker value that is not a hole is in view: the bounds that `markers` builds
/// hold it.
pub proof fn lemma_markers_in_view<X: PlotNum>(vals: Seq<X>, i: int)
    requires
        0 <= i < vals.len(),
        !vals[i].spec_is_hole(),
    ensures
        in_range(grow_seq(None, vals), vals[i]),
        range_wf(grow_seq(None, vals)),
    decreases vals.len(),
{
    lemma_grow_seq_wf(vals);
    let pre = vals.drop_last();
    lemma_grow_seq_wf(pre);
    if i == vals.len() - 1 {
        lemma_grow_range(grow_seq(None, pre), Some(vals[i]), vals[i]);
    } else {
        lemma_markers_in_view(pre, i);
        lemma_grow_range(grow_seq(None, pre), Some(vals.last()), vals[i]);
    }
}

/// The bounds built from values are well formed.
pub proof fn lemma_grow_seq_wf<X: PlotNum>(vals: Seq<X>)
    ensures
        range_wf(grow_seq(None, vals)),
    decreases vals.len(),
{
    if vals.len() > 0 {
        lemma_grow_seq_wf(vals.drop_last());
        lemma_grow_range(grow_seq(None, vals.drop_last()), Some(vals.last()), vals.last());
    }
}

/// The origin is in view: the bounds that `origin` builds hold zero on each axis that
/// does not count zero as a hole.
pub proof fn lemma_origin_in_view<X: PlotNum + HasZero, Y: PlotNum + HasZero>()
    ensures
        !X::spec_zero().spec_is_hole() ==> in_range(grow_range(None, Some(X::spec_zero())), X::spec_zero()),
        !Y::spec_zero().spec_is_hole() ==> in_range(grow_range(None, Some(Y::spec_zero())), Y::spec_zero()),
{
    lemma_grow_range(None, Some(X::spec_zero()), X::spec_zero());
    lemma_grow_range(None, Some(Y::spec_zero()), Y::spec_zero());
}

/// The area of a plot covers each of its points, on each axis where the coordinate is
/// not a hole.
pub proof fn lemma_points_in_area<X: PlotNum, Y: PlotNum>(pts: Seq<(X, Y)>, i: int)
    requires
        0 <= i < pts.len(),
    ensures
        !pts[i].0.spec_is_hole() ==> in_range(grow_all((None, None), pts).0, pts[i].0),
        !pts[i].1.spec_is_hole() ==> in_range(grow_all((None, None), pts).1, pts[i].1),
        range_wf(grow_all((None, None), pts).0),
        range_wf(grow_all((None, None), pts).1),
    decreases pts.len(),
{
    lemma_grow_all_wf(pts);
    let pre = pts.drop_last();
    lemma_grow_all_wf(pre);
    let b = grow_all((None, None), pre);
    if i == pts.len() - 1 {
        lemma_grow_range(b.0, Some(pts[i].0), pts[i].0);
        lemma_grow_range(b.1, Some(pts[i].1), pts[i].1);
    } else {
        lemma_points_in_area(pre, i);
        lemma_grow_range(b.0, Some(pts.last().0), pts[i].0);
        lemma_grow_range(b.1, Some(pts.last().1), pts[i].1);
    }
}

/// The bounds built from points are well formed.
pub proof fn lemma_grow_all_wf<X: PlotNum, Y: PlotNum>(pts: Seq<(X, Y)>)
    ensures
        range_wf(grow_all((None, None), pts).0),
        range_wf(grow_all((None, None), pts).1),
    decreases pts.len(),
{
    if pts.len() > 0 {
        lemma_grow_all_wf(pts.drop_last());
        let b = grow_all((None, None), pts.drop_last());
        lemma_grow_range(b.0, Some(pts.last().0), pts.last().0);
        lemma_grow_range(b.1, Some(pts.last().1), pts.last().1);
    }
}

/// Chaining plots covers the area of each: whatever lies in the view of either one lies
/// in the view of the chain.
pub proof fn lemma_union_covers<X: PlotNum>(a: Option<[X; 2]>, b: Option<[X; 2]>, w: X)
    requires
        range_wf(a),
        range_wf(b),
        in_range(a, w) || in_range(b, w),
    ensures
        in_range(union_area::<X, X>((a, None), (b, None)).0, w),
        range_wf(union_area::<X, X>((a, None), (b, None)).0),
{
    match b {
        Some(r) => {
            let a1 = grow_range(a, Some(r[0]));
            lemma_grow_range(a, Some(r[0]), w);
            lemma_grow_range(a1, Some(r[1]), w);
            if !r[0].spec_is_hole() && !r[1].spec_is_hole() {
                lemma_grow_range(a, Some(r[0]), r[0]);
                lemma_grow_range(a1, Some(r[1]), r[0]);
                lemma_grow_range(a1, Some(r[1]), r[1]);
                if in_range(b, w) {
                    lemma_in_range_between(grow_range(a1, Some(r[1])), r[0], r[1], w);
                }
            }
        },
        None => {},
    }
}

} // verus!
