//!
//! Reading one plot back out of a stream of plot tags.
//!
use vstd::prelude::*;
use crate::build::plot::{creator_hint, new_plot_tags, PlotMetaType, PlotTag};
use crate::build::stream::Stream;

verus! {

/// The points that the tags give before the first finish tag, with the number of
/// them; none where a start tag comes first or no finish tag comes.
pub open spec fn points_until_finish<L, D>(tags: Seq<PlotTag<L, D>>) -> Option<Seq<L>>
    decreases tags.len(),
{
    if tags.len() == 0 {
        None
    } else {
        match tags[0] {
            PlotTag::Plot(a) => match points_until_finish(tags.drop_first()) {
                Some(p) => Some(seq![a] + p),
                None => None,
            },
            PlotTag::Finish => Some(Seq::empty()),
            PlotTag::Start { .. } => None,
        }
    }
}

///
/// The points of one plot, read from a stream of plot tags up to the plot's finish
/// tag.
///
pub struct SinglePlotIterator<I> {
    it: I,
    size_hint: (usize, Option<usize>),
    finished: bool,
}

impl<I> SinglePlotIterator<I> {
    /// The stream of tags.
    pub closed spec fn inner(&self) -> I {
        self.it
    }

    /// Whether the plot's finish tag has been read.
    pub closed spec fn finished(&self) -> bool {
        self.finished
    }

    /// The size hint that the plot's start tag carried.
    pub closed spec fn spec_size_hint(&self) -> (usize, Option<usize>) {
        self.size_hint
    }

    /// The points of the plot still to come, if the tags are well formed.
    pub open spec fn points<L, D>(&self) -> Option<Seq<L>>
        where
            I: Stream<PlotTag<L, D>>,
    {
        if self.finished() {
            Some(Seq::empty())
        } else {
            points_until_finish(self.inner().rest())
        }
    }

    /// Read the start tag of the next plot: none if the stream has ended, else the
    /// plot's points with its label and kind.
    pub fn new<L, D>(it: I) -> (r: Option<(Self, D, PlotMetaType)>)
        where
            I: Stream<PlotTag<L, D>>,
        requires
            it.rest().len() > 0 ==> it.rest()[0] is Start,
        ensures
            it.rest().len() == 0 <==> r is None,
            r matches Some(t) ==> ({
                let (s, name, typ) = t;
                &&& it.rest()[0] == PlotTag::<L, D>::Start { name, typ, size_hint: s.spec_size_hint() }
                &&& s.inner().rest() == it.rest().drop_first()
                &&& !s.finished()
            }),
    {
        let mut it = it;
        match it.next() {
            Some(PlotTag::Start { name, typ, size_hint }) => Some((SinglePlotIterator { it, size_hint, finished: false }, name, typ)),
            _ => None,
        }
    }

    /// The next point of the plot; none once its finish tag has been read.
    pub fn next<L, D>(&mut self) -> (r: Option<L>)
        where
            I: Stream<PlotTag<L, D>>,
        requires
            old(self).points() is Some,
        ensures
            final(self).spec_size_hint() == old(self).spec_size_hint(),
            next_step::<I, L, D>(*old(self), r, *final(self)),
    {
        if self.finished {
            return None;
        }
        let ghost tags = self.it.rest();
        let o = self.it.next();
        match o {
            Some(PlotTag::Plot(a)) => {
                proof {
                    assert(tags.drop_first() == self.it.rest());
                    assert(seq![a] + points_until_finish(self.it.rest()).unwrap() == points_until_finish(tags).unwrap());
                    assert((seq![a] + points_until_finish(self.it.rest()).unwrap()).drop_first()
                        =~= points_until_finish(self.it.rest()).unwrap());
                }
                Some(a)
            },
            _ => {
                self.finished = true;
                None
            },
        }
    }

    /// The size hint that the plot's start tag carried.
    pub fn size_hint(&self) -> (r: (usize, Option<usize>))
        ensures
            r == self.spec_size_hint(),
    {
        self.size_hint
    }

    /// Hand back the stream of tags, for the plots that follow.
    pub fn into_inner(self) -> (r: I)
        ensures
            r == self.inner(),
    {
        self.it
    }
}

/// One call of `SinglePlotIterator::next`, from `s0` to `s1`, returning `r`: the next
/// point while there is one, else nothing and the plot is finished. Each call before
/// the finish reads one tag; once finished, the tags are left alone.
pub open spec fn next_step<I: Stream<PlotTag<L, D>>, L, D>(s0: SinglePlotIterator<I>, r: Option<L>, s1: SinglePlotIterator<I>) -> bool {
    &&& s1.points::<L, D>() is Some
    &&& s0.points::<L, D>().unwrap().len() == 0 ==> r is None && s1.finished()
    &&& s0.points::<L, D>().unwrap().len() > 0 ==> r == Some(s0.points::<L, D>().unwrap()[0])
        && s1.points::<L, D>().unwrap() == s0.points::<L, D>().unwrap().drop_first()
        && !s1.finished()
    &&& !s0.finished() ==> s1.inner().rest() == s0.inner().rest().drop_first()
    &&& s0.finished() ==> s1.inner() == s0.inner()
}

/// The tags of one plot with `pts` as its points, and `more` after them.
pub open spec fn plot_body<L, D>(pts: Seq<L>, more: Seq<PlotTag<L, D>>) -> Seq<PlotTag<L, D>> {
    pts.map_values(|p: L| PlotTag::<L, D>::Plot(p)) + seq![PlotTag::<L, D>::Finish] + more
}

/// Reading a plot's points one call after another, from just after its start tag:
/// the calls return its points in order, then nothing ever after; the finish tag is
/// the last tag read, so the tags that follow it are handed back untouched.
/// `ss` holds the reader before each call and after the last, `rs` what each call
/// returned.
pub proof fn lemma_single_plot_run<I: Stream<PlotTag<L, D>>, L, D>(
    pts: Seq<L>,
    more: Seq<PlotTag<L, D>>,
    ss: Seq<SinglePlotIterator<I>>,
    rs: Seq<Option<L>>,
)
    requires
        ss.len() == rs.len() + 1,
        !ss[0].finished(),
        ss[0].inner().rest() == plot_body(pts, more),
        forall|i: int| 0 <= i < rs.len() ==> next_step::<I, L, D>(#[trigger] ss[i], rs[i], ss[i + 1]),
    ensures
        forall|i: int| 0 <= i < rs.len() && i < pts.len() ==> #[trigger] rs[i] == Some(pts[i]),
        forall|i: int| pts.len() <= i < rs.len() ==> (#[trigger] rs[i]) is None,
        forall|j: int| pts.len() < j < ss.len() ==> (#[trigger] ss[j]).finished() && ss[j].inner().rest() == more,
{
    lemma_points_until_finish::<L, D>(pts, more);
    lemma_single_plot_prefix(pts, more, ss, rs, if rs.len() < pts.len() { rs.len() as int } else { pts.len() as int });
    let n = pts.len() as int;
    if rs.len() > n {
        lemma_single_plot_prefix(pts, more, ss, rs, n);
        assert(next_step::<I, L, D>(ss[n], rs[n], ss[n + 1]));
        assert(pts.skip(n) =~= Seq::<L>::empty());
        assert(plot_body(pts.skip(n), more) =~= seq![PlotTag::<L, D>::Finish] + more);
        assert(ss[n + 1].inner().rest() =~= more);
        lemma_single_plot_after(pts, more, ss, rs, rs.len() as int);
    }
}

/// The first `k` calls, none of them past the last point.
proof fn lemma_single_plot_prefix<I: Stream<PlotTag<L, D>>, L, D>(
    pts: Seq<L>,
    more: Seq<PlotTag<L, D>>,
    ss: Seq<SinglePlotIterator<I>>,
    rs: Seq<Option<L>>,
    k: int,
)
    requires
        ss.len() == rs.len() + 1,
        !ss[0].finished(),
        ss[0].inner().rest() == plot_body(pts, more),
        forall|i: int| 0 <= i < rs.len() ==> next_step::<I, L, D>(#[trigger] ss[i], rs[i], ss[i + 1]),
        0 <= k <= rs.len(),
        k <= pts.len(),
    ensures
        !ss[k].finished(),
        ss[k].inner().rest() == plot_body(pts.skip(k), more),
        ss[k].points::<L, D>() == Some(pts.skip(k)),
        forall|i: int| 0 <= i < k ==> #[trigger] rs[i] == Some(pts[i]),
    decreases k,
{
    if k == 0 {
        assert(pts.skip(0) =~= pts);
        lemma_points_until_finish::<L, D>(pts, more);
    } else {
        lemma_single_plot_prefix(pts, more, ss, rs, k - 1);
        let j = k - 1;
        assert(next_step::<I, L, D>(ss[j], rs[j], ss[k]));
        assert(pts.skip(j).len() > 0);
        assert(pts.skip(j)[0] == pts[j]);
        assert(pts.skip(j).drop_first() =~= pts.skip(k));
        assert(plot_body(pts.skip(j), more).drop_first() =~= plot_body(pts.skip(k), more));
    }
}

/// Every call after the finish tag was read returns nothing and reads no tag.
proof fn lemma_single_plot_after<I: Stream<PlotTag<L, D>>, L, D>(
    pts: Seq<L>,
    more: Seq<PlotTag<L, D>>,
    ss: Seq<SinglePlotIterator<I>>,
    rs: Seq<Option<L>>,
    k: int,
)
    requires
        ss.len() == rs.len() + 1,
        forall|i: int| 0 <= i < rs.len() ==> next_step::<I, L, D>(#[trigger] ss[i], rs[i], ss[i + 1]),
        pts.len() < rs.len(),
        ss[pts.len() + 1int].finished(),
        ss[pts.len() + 1int].inner().rest() == more,
        pts.len() + 1 <= k <= rs.len(),
    ensures
        forall|j: int| pts.len() < j <= k ==> (#[trigger] ss[j]).finished() && ss[j].inner().rest() == more,
        forall|i: int| pts.len() < i < k ==> (#[trigger] rs[i]) is None,
    decreases k,
{
    if k > pts.len() + 1 {
        lemma_single_plot_after(pts, more, ss, rs, k - 1);
        let j = k - 1;
        assert(next_step::<I, L, D>(ss[j], rs[j], ss[k]));
    }
}

/// The tags of a plot read back: its points are found up to its finish tag, whatever
/// tags follow.
pub proof fn lemma_points_until_finish<L, D>(pts: Seq<L>, more: Seq<PlotTag<L, D>>)
    ensures
        points_until_finish(pts.map_values(|p: L| PlotTag::<L, D>::Plot(p)) + seq![PlotTag::<L, D>::Finish] + more)
            == Some(pts),
    decreases pts.len(),
{
    let tags = pts.map_values(|p: L| PlotTag::<L, D>::Plot(p)) + seq![PlotTag::<L, D>::Finish] + more;
    if pts.len() == 0 {
        assert(tags[0] == PlotTag::<L, D>::Finish);
    } else {
        let rest = pts.drop_first();
        lemma_points_until_finish::<L, D>(rest, more);
        assert(tags.drop_first() =~= rest.map_values(|p: L| PlotTag::<L, D>::Plot(p)) + seq![PlotTag::<L, D>::Finish] + more);
        assert(seq![pts[0]] + rest =~= pts);
    }
}

/// Reading back a plot that was built gives its label, kind, size hint and points:
/// a start tag then the points up to a finish tag, whatever tags follow.
pub proof fn lemma_plot_round_trip<L, D>(
    typ: PlotMetaType,
    label: D,
    hint: (usize, Option<usize>),
    pts: Seq<L>,
    more: Seq<PlotTag<L, D>>,
)
    ensures
        ({
            let tags = new_plot_tags(typ, label, hint, pts) + more;
            &&& tags[0] == PlotTag::<L, D>::Start { name: label, typ, size_hint: creator_hint(hint, 1usize) }
            &&& points_until_finish(tags.drop_first()) == Some(pts)
        }),
{
    let tags = new_plot_tags(typ, label, hint, pts) + more;
    lemma_points_until_finish::<L, D>(pts, more);
    assert(tags.drop_first() =~= pts.map_values(|p: L| PlotTag::<L, D>::Plot(p)) + seq![PlotTag::<L, D>::Finish] + more);
}

} // verus!
