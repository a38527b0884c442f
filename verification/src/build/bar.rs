//!
//! Create bar charts
//!
use vstd::prelude::*;
use crate::build::plot::{
    grow_all, grow_seq, new_plot_tags, plot, tags_a, tags_b, union_area, markers, Chain, PlotIterCreator, PlotMetaType,
    PlotRes, PlotTag, PlotType,
};
use crate::build::stream::{Empty, Stream, VecIter};
use crate::plotnum::PlotNum;
use crate::ticks::{TickDistribution, TickFmt};

verus! {

///
/// Writes bar number `i` as the name of the `i`-th bar.
///
pub struct BarTickFmt {
    ticks: Vec<String>,
}

/// The texts of some strings.
pub open spec fn str_views(v: Seq<String>) -> Seq<Seq<char>> {
    Seq::new(v.len(), |i: int| v[i]@)
}

/// The names of the bars of `vals`.
pub open spec fn bar_names<X>(vals: Seq<(X, String)>) -> Seq<Seq<char>> {
    Seq::new(vals.len(), |i: int| vals[i].1@)
}

impl BarTickFmt {
    /// The names of the bars, in order.
    pub closed spec fn names(&self) -> Seq<Seq<char>> {
        str_views(self.ticks@)
    }
}

impl TickFmt<i128> for BarTickFmt {
    open spec fn tick_ok(&self, val: i128) -> bool {
        0 <= val < self.names().len()
    }

    open spec fn tick_spec(&self, val: i128, out: Seq<char>) -> bool {
        out == self.names()[val as int]
    }

    open spec fn where_ok(&self) -> bool {
        true
    }

    open spec fn where_spec(&self, out: Seq<char>) -> bool {
        out == Seq::<char>::empty()
    }

    fn write_tick(&self, val: &i128) -> (s: String) {
        let n = self.ticks.len();
        proof {
            assert(self.tick_ok(*val));
            assert(self.names().len() == n);
        }
        let i = *val as usize;
        proof {
            assert(i as int == *val as int);
            assert(self.names()[i as int] == self.ticks@[i as int]@);
        }
        self.ticks[i].clone()
    }

    fn write_where(&self) -> (s: String) {
        String::new()
    }
}

/// The points of the bars: the value of bar `i` against `i`.
pub open spec fn bar_points<X, D>(vals: Seq<(X, D)>) -> Seq<(X, i128)> {
    Seq::new(vals.len(), |i: int| (vals[i].0, i as i128))
}

/// The tick positions of the bars: `0` to the number of bars, exclusive.
pub open spec fn bar_ticks(n: nat) -> Seq<i128> {
    Seq::new(n, |i: int| i as i128)
}

///
/// Build a bar chart: one bar per value, at positions `0, 1, ...` on the y axis,
/// each written with its name; the area also covers the markers and the positions
/// `-1` and the number of bars.
///
pub fn gen_bar<K, X: PlotNum>(name: K, vals: Vec<(X, String)>, marker: Vec<X>) -> (r: (
    PlotRes<Chain<PlotIterCreator<VecIter<(X, i128)>, K>, Empty<PlotTag<(X, i128), &'static str>>>, X, i128>,
    TickDistribution<Vec<i128>, BarTickFmt>,
))
    requires
        vals@.len() < i128::MAX,
    ensures
        r.0.area@ == union_area(
            grow_all((None, None), bar_points(vals@)),
            (grow_seq(None, marker@), grow_seq(None, seq![-1i128, vals@.len() as i128])),
        ),
        r.0.it.rest() == tags_a::<(X, i128), K, &'static str>(
            new_plot_tags(
                PlotMetaType::Plot(PlotType::Bars),
                name,
                (vals@.len() as usize, Some(vals@.len() as usize)),
                bar_points(vals@),
            ),
        ) + tags_b::<(X, i128), K, &'static str>(Seq::empty()),
        r.1.iter@ == bar_ticks(vals@.len()),
        r.1.fmt.names() == bar_names(vals@),
{
    let n = vals.len();
    let mut pts: Vec<(X, i128)> = Vec::new();
    let mut names: Vec<String> = Vec::new();
    let mut ticks: Vec<i128> = Vec::new();
    let mut i: usize = 0;
    while i < n
        invariant
            n == vals@.len(),
            n < i128::MAX,
            i <= n,
            names@.len() == i,
            pts@ == bar_points(vals@).take(i as int),
            ticks@ == bar_ticks(n as nat).take(i as int),
            str_views(names@) == bar_names(vals@).take(i as int),
        decreases n - i,
    {
        let x = vals[i].0;
        let s = vals[i].1.clone();
        let ghost names_before = names@;
        pts.push((x, i as i128));
        ticks.push(i as i128);
        names.push(s);
        proof {
            assert(s@ == vals@[i as int].1@);
            assert forall|j: int| 0 <= j < i + 1 implies #[trigger] str_views(names@)[j] == bar_names(vals@).take(i + 1)[j] by {
                if j < i {
                    assert(names@[j] == names_before[j]);
                    assert(str_views(names_before)[j] == bar_names(vals@).take(i as int)[j]);
                }
            }
            assert(pts@ =~= bar_points(vals@).take(i + 1));
            assert(ticks@ =~= bar_ticks(n as nat).take(i + 1));
            assert(str_views(names@) =~= bar_names(vals@).take(i + 1));
        }
        i = i + 1;
    }
    proof {
        assert(pts@ =~= bar_points(vals@));
        assert(ticks@ =~= bar_ticks(n as nat));
        assert(str_views(names@) =~= bar_names(vals@));
    }
    let bars = plot(name).bars(pts);
    let mut ys: Vec<i128> = Vec::new();
    ys.push(-1);
    ys.push(n as i128);
    proof {
        assert(ys@ =~= seq![-1i128, n as i128]);
    }
    let m = markers(marker, ys);
    (bars.chain(m), TickDistribution::from_parts(ticks, BarTickFmt { ticks: names }))
}

} // verus!
