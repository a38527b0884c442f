use poloto::build::bar::gen_bar;
use poloto::build::bounds::find_bounds;
use poloto::build::crop::Croppable;
use poloto::build::iter::{
    buffer_iter, buffered, from_iter, from_rect, twice_iter, DoubleIterator, IterBuilder, OutputZip, Plottable,
    Unwrapper, UnwrapperIter,
};
use poloto::build::marker::Area;
use poloto::build::plot::{collect_plots, markers, origin, plot, ChainDisplay, ClonedPlotIt, PlotMetaType, PlotTag, PlotType};
use poloto::build::stream::{PointSlice, Stream, VecIter};
use poloto::plotnum::{DiscNum, PlotNum};
use poloto::render::single::SinglePlotIterator;
use poloto::ticks::TickFmt;

fn points_of<S: Stream<(i128, i128)>>(mut s: S) -> Vec<(i128, i128)> {
    let mut v = Vec::new();
    while let Some(p) = s.next() {
        v.push(p);
    }
    v
}

fn describe<L: std::fmt::Debug, D: std::fmt::Display, S: Stream<PlotTag<L, D>>>(mut s: S) -> Vec<String> {
    let mut v = Vec::new();
    while let Some(t) = s.next() {
        v.push(match t {
            PlotTag::Start { name, typ, size_hint } => format!("start {} {:?} {:?}", name, typ, size_hint),
            PlotTag::Plot(p) => format!("{:?}", p),
            PlotTag::Finish => "finish".to_string(),
        });
    }
    v
}

#[allow(non_snake_case)]
fn Label<A: std::fmt::Display, B: std::fmt::Display>(c: ChainDisplay<A, B>) -> String {
    match c {
        ChainDisplay::A(a) => format!("{}", a),
        ChainDisplay::B(b) => format!("{}", b),
    }
}

fn bounds(a: Area<i128, i128>) -> ([i128; 2], [i128; 2]) {
    let (x, y) = a.build();
    ([x.min, x.max], [y.min, y.max])
}

#[test]
fn line_plot_tags_and_area() {
    let res = plot("a").line(vec![(1i128, 2i128), (3, 4)]);
    let tags = describe(res.it);
    assert_eq!(
        tags,
        vec!["start a Plot(Line) (3, Some(3))", "(1, 2)", "(3, 4)", "finish"]
    );
    assert_eq!(bounds(res.area), ([1, 3], [2, 4]));
}

#[test]
fn every_plot_kind() {
    let kinds = [
        (plot("s").scatter(vec![(0i128, 0i128)]).it, PlotType::Scatter),
        (plot("s").histogram(vec![(0i128, 0i128)]).it, PlotType::Histo),
        (plot("s").line_fill(vec![(0i128, 0i128)]).it, PlotType::LineFill),
        (plot("s").line_fill_raw(vec![(0i128, 0i128)]).it, PlotType::LineFillRaw),
        (plot("s").bars(vec![(0i128, 0i128)]).it, PlotType::Bars),
    ];
    for (mut it, typ) in kinds {
        match it.next() {
            Some(PlotTag::Start { typ: t, .. }) => assert_eq!(t, PlotMetaType::Plot(typ)),
            _ => panic!("expected a start tag"),
        }
    }
}

#[test]
fn text_plot_has_no_points() {
    let res = plot("note").text::<i128, i128>();
    assert_eq!(describe(res.it), vec!["start note Text (1, Some(1))", "finish"]);
    assert_eq!(bounds(res.area), ([-1, 1], [-1, 1]));
}

#[test]
fn chained_plots_follow_one_another() {
    let a = plot("a").line(vec![(1i128, 1i128)]);
    let b = plot("b").scatter(vec![(5i128, -3i128), (6, 2)]);
    let c = a.chain(b);
    assert_eq!(bounds(c.area), ([1, 6], [-3, 2]));
    let mut it = c.it;
    let mut out = Vec::new();
    while let Some(t) = it.next() {
        out.push(match t {
            PlotTag::Start { name, typ, .. } => format!("start {} {:?}", Label(name), typ),
            PlotTag::Plot(p) => format!("{:?}", p),
            PlotTag::Finish => "finish".to_string(),
        });
    }
    assert_eq!(
        out,
        vec!["start a Plot(Line)", "(1, 1)", "finish", "start b Plot(Scatter)", "(5, -3)", "(6, 2)", "finish"]
    );
}

#[test]
fn chain_size_hint_adds_up() {
    let a = plot("a").line(vec![(1i128, 1i128)]);
    let b = plot("b").line(vec![(2i128, 2i128), (3, 3)]);
    let c = a.chain(b);
    assert_eq!(c.it.size_hint(), (7, Some(7)));
}

#[test]
fn collected_plots_flatten() {
    let a = plot("a").line(vec![(1i128, 1i128)]);
    let b = plot("b").line(vec![(10i128, 20i128)]);
    let all = collect_plots(vec![a, b]);
    assert_eq!(bounds(all.area), ([1, 10], [1, 20]));
    assert_eq!(
        describe(all.it),
        vec![
            "start a Plot(Line) (2, Some(2))",
            "(1, 1)",
            "finish",
            "start b Plot(Line) (2, Some(2))",
            "(10, 20)",
            "finish"
        ]
    );
}

#[test]
fn markers_and_origin_stay_in_view() {
    let m = markers::<i128, i128>(vec![5], vec![-1, 10]);
    assert_eq!(bounds(m.area), ([4, 6], [-1, 10]));
    let o = origin::<i128, i128>();
    assert_eq!(bounds(o.area), ([-1, 1], [-1, 1]));
    let p = plot("p").line(vec![(3i128, 4i128), (7, 9)]).chain(origin::<i128, i128>());
    assert_eq!(bounds(p.area), ([0, 7], [0, 9]));
}

#[test]
fn area_try_build() {
    let mut a: Area<i128, i128> = Area::new();
    a.grow(Some(i128::MAX), Some(2));
    assert!(a.try_build().is_none());
    let mut b: Area<i128, i128> = Area::new();
    b.grow(Some(1), Some(2));
    let (x, y) = b.try_build().unwrap();
    assert_eq!(([x.min, x.max], [y.min, y.max]), ([0, 2], [1, 3]));
}

#[test]
fn area_grows_and_builds() {
    let mut a: Area<i128, i128> = Area::new();
    a.grow(Some(3), None);
    a.grow(Some(-2), Some(8));
    a.grow(Some(1), Some(8));
    assert_eq!(bounds(a), ([-2, 3], [7, 9]));
}

#[test]
fn read_back_single_plots() {
    let res = plot("first").line(vec![(1i128, 2i128), (3, 4)]).chain(plot("second").scatter(vec![(9i128, 9i128)]));
    let (mut s, name, typ) = SinglePlotIterator::new(res.it).unwrap();
    assert_eq!(format!("{}", Label(name)), "first");
    assert_eq!(typ, PlotMetaType::Plot(PlotType::Line));
    assert_eq!(s.size_hint(), (3, Some(3)));
    assert_eq!(s.next(), Some((1, 2)));
    assert_eq!(s.next(), Some((3, 4)));
    assert_eq!(s.next(), None);
    assert_eq!(s.next(), None);
    let (mut s2, name2, typ2) = SinglePlotIterator::new(s.into_inner()).unwrap();
    assert_eq!(format!("{}", Label(name2)), "second");
    assert_eq!(typ2, PlotMetaType::Plot(PlotType::Scatter));
    assert_eq!(s2.next(), Some((9, 9)));
    assert_eq!(s2.next(), None);
    assert!(SinglePlotIterator::new(s2.into_inner()).is_none());
}

#[test]
fn cloned_slice_plot() {
    let pts = [(1i128, 1i128), (2, 5)];
    let res = plot("c").line(ClonedPlotIt::new(&pts[..]));
    assert_eq!(bounds(res.area), ([1, 2], [1, 5]));
    assert_eq!(describe(res.it).len(), 4);
}

#[test]
fn find_bounds_of_points_and_markers() {
    assert_eq!(find_bounds(&[(1i128, 5i128), (3, 2)], vec![10], vec![]), ([1, 10], [2, 5]));
    assert_eq!(find_bounds(&[(4i128, 4i128)], vec![], vec![]), ([3, 5], [3, 5]));
    assert_eq!(find_bounds::<i128, i128>(&[], vec![7], vec![7]), ([-1, 1], [-1, 1]));
    assert_eq!(find_bounds(&[(4i128, 4i128)], vec![4], vec![6]), ([3, 5], [4, 6]));
}

#[test]
fn bar_chart() {
    let (res, ticks) = gen_bar("bars", vec![(5i128, "a".to_string()), (7, "b".to_string())], vec![0]);
    assert_eq!(ticks.iter, vec![0, 1]);
    assert_eq!(ticks.fmt.write_tick(&0), "a");
    assert_eq!(ticks.fmt.write_tick(&1), "b");
    assert_eq!(ticks.fmt.write_where(), "");
    assert_eq!(bounds(res.area), ([0, 7], [-1, 2]));
    let mut it = res.it;
    let mut out = Vec::new();
    while let Some(t) = it.next() {
        out.push(match t {
            PlotTag::Start { name, typ, size_hint } => format!("start {} {:?} {:?}", Label(name), typ, size_hint),
            PlotTag::Plot(p) => format!("{:?}", p),
            PlotTag::Finish => "finish".to_string(),
        });
    }
    assert_eq!(out, vec!["start bars Plot(Bars) (3, Some(3))", "(5, 0)", "(7, 1)", "finish"]);
}

#[test]
fn known_bounds_draw_the_second_stream() {
    let kb = from_rect((0i128, 0i128), (10, 10), VecIter::new(vec![(1i128, 1i128)]));
    let res = plot("k").scatter(kb);
    assert_eq!(bounds(res.area), ([0, 10], [0, 10]));
    assert_eq!(describe(res.it), vec!["start k Plot(Scatter) (2, Some(2))", "(1, 1)", "finish"]);
    let kb2 = from_iter(VecIter::new(vec![(-5i128, 0i128), (5, 1)]), VecIter::new(vec![(0i128, 0i128)]));
    assert_eq!(bounds(plot("k").line(kb2).area), ([-5, 5], [0, 1]));
    let built = VecIter::new(vec![(2i128, 2i128)]).rect_bound_plot([0, 4], [0, 8]);
    assert_eq!(bounds(plot("r").line(built).area), ([0, 4], [0, 8]));
    let custom = VecIter::new(vec![(2i128, 2i128)]).custom_bound_plot(VecIter::new(vec![(1i128, 1i128), (3, 3)]));
    assert_eq!(bounds(plot("c").line(custom).area), ([1, 3], [1, 3]));
}

#[test]
fn buffered_plot_walks_once() {
    let b = buffered(VecIter::new(vec![(3i128, 1i128), (1, 3)]));
    let res = plot("b").line(b);
    assert_eq!(bounds(res.area), ([1, 3], [1, 3]));
    assert_eq!(describe(res.it), vec!["start b Plot(Line) (3, Some(3))", "(3, 1)", "(1, 3)", "finish"]);
    let b2 = VecIter::new(vec![(0i128, 0i128), (2, 2)]).buffered_plot();
    assert_eq!(bounds(plot("b").line(b2).area), ([0, 2], [0, 2]));
}

#[test]
fn double_iterators_give_the_first_walk_again() {
    let mut b = buffer_iter(VecIter::new(vec![1i128, 2, 3]));
    let mut first = Vec::new();
    while let Some(x) = b.next() {
        first.push(x);
    }
    let mut second = Vec::new();
    let mut again = b.finish_first();
    while let Some(x) = again.next() {
        second.push(x);
    }
    assert_eq!(first, vec![1, 2, 3]);
    assert_eq!(second, first);

    let pts = [(1i128, 2i128), (3, 4)];
    let mut t = twice_iter(PointSlice::new(&pts[..]));
    assert_eq!(t.next(), Some((1, 2)));
    assert_eq!(t.next(), Some((3, 4)));
    assert_eq!(t.next(), None);
    assert_eq!(points_of(t.finish_first()), vec![(1, 2), (3, 4)]);
}

#[test]
fn output_zipper_pairs_outputs() {
    let mut z = VecIter::new(vec![1i128, 2, 3]).zip_output(|x: i128| x * x);
    assert_eq!(z.size_hint(), (3, Some(3)));
    assert_eq!(z.next(), Some((1, 1)));
    assert_eq!(z.next(), Some((2, 4)));
    assert_eq!(z.next(), Some((3, 9)));
    assert_eq!(z.next(), None);
}

#[test]
fn unwrapping_points() {
    assert_eq!([1i128, 2].unwrap(), (1, 2));
    assert_eq!((&[3i128, 4]).unwrap(), (3, 4));
    assert_eq!((5i128, 6i128).unwrap(), (5, 6));
    assert_eq!([1i128, 2].make_plot(), (1, 2));
    assert_eq!((&(7i128, 8i128)).make_plot(), (7, 8));
    let it = UnwrapperIter(VecIter::new(vec![[1i128, 2], [3, 4]]));
    assert_eq!(points_of(it), vec![(1, 2), (3, 4)]);
}

/// A number with a hole value, for cropping.
#[derive(Debug, Copy, Clone, PartialEq)]
struct Num(i64);

impl PlotNum for Num {
    fn spec_is_hole(&self) -> bool {
        self.is_hole()
    }
    fn spec_lt(&self, other: &Self) -> bool {
        self.less_than(other)
    }
    fn unit_range_ok(offset: Option<Self>) -> bool {
        offset.map_or(true, |o| o.0 > i64::MIN + 1 && o.0 < i64::MAX)
    }
    fn spec_unit_range(offset: Option<Self>) -> [Self; 2] {
        Self::unit_range(offset)
    }
    fn lemma_lt_irreflexive(_a: Self) {}
    fn lemma_lt_transitive(_a: Self, _b: Self, _c: Self) {}
    fn lemma_lt_total(_a: Self, _b: Self) {}
    fn is_hole(&self) -> bool {
        self.0 == i64::MIN
    }
    fn less_than(&self, other: &Self) -> bool {
        self.0 < other.0
    }
    fn has_unit_range(offset: Option<Self>) -> bool {
        Self::unit_range_ok(offset)
    }
    fn unit_range(offset: Option<Self>) -> [Self; 2] {
        match offset {
            Some(o) => [Num(o.0 - 1), Num(o.0 + 1)],
            None => [Num(-1), Num(1)],
        }
    }
}

impl DiscNum for Num {
    fn spec_hole() -> Self {
        Self::hole()
    }
    fn lemma_hole() {}
    fn hole() -> Self {
        Num(i64::MIN)
    }
}

fn nums(v: &[(i64, i64)]) -> VecIter<(Num, Num)> {
    VecIter::new(v.iter().map(|&(a, b)| (Num(a), Num(b))).collect())
}

fn crop_out<S: Stream<(Num, Num)>>(mut s: S) -> Vec<(i64, i64)> {
    let mut v = Vec::new();
    while let Some((a, b)) = s.next() {
        v.push((a.0, b.0));
    }
    v
}

#[test]
fn cropping_makes_holes() {
    let h = i64::MIN;
    let pts = [(0, 0), (1, 5), (2, 10), (3, -5)];
    assert_eq!(crop_out(nums(&pts).crop_above(Num(5))), vec![(0, 0), (1, 5), (2, h), (3, -5)]);
    assert_eq!(crop_out(nums(&pts).crop_below(Num(0))), vec![(0, 0), (1, 5), (2, 10), (3, h)]);
    assert_eq!(crop_out(nums(&pts).crop_left(Num(2))), vec![(h, 0), (h, 5), (2, 10), (3, -5)]);
    assert_eq!(crop_out(nums(&pts).crop_right(Num(1))), vec![(0, 0), (1, 5), (h, 10), (h, -5)]);
    assert_eq!(crop_out(nums(&pts).crop_around_y([Num(0), Num(5)])), vec![(0, 0), (1, 5), (2, h), (3, h)]);
    assert_eq!(crop_out(nums(&pts).crop_around_x([Num(1), Num(2)])), vec![(h, 0), (1, 5), (2, 10), (h, -5)]);
    assert_eq!(
        crop_out(nums(&pts).crop_around_area([Num(1), Num(3)], [Num(0), Num(5)])),
        vec![(h, 0), (1, 5), (2, h), (3, h)]
    );
}

#[test]
fn holes_are_left_out_of_the_area() {
    let h = i64::MIN;
    let res = plot("h").line(vec![(Num(1), Num(1)), (Num(h), Num(50)), (Num(3), Num(h))]);
    let (x, y) = res.area.build();
    assert_eq!((x.min, x.max), (Num(1), Num(3)));
    assert_eq!((y.min, y.max), (Num(1), Num(50)));
}

fn collatz(mut a: i128) -> Vec<i128> {
    let mut v = Vec::new();
    while a != 1 {
        a = if a % 2 == 0 { a / 2 } else { 3 * a + 1 };
        v.push(a);
    }
    v
}

#[test]
fn collatz_plots_together() {
    let mut plots = Vec::new();
    for i in 1000..1006 {
        let pts: Vec<(i128, i128)> = collatz(i).into_iter().enumerate().map(|(k, v)| (k as i128, v)).collect();
        plots.push(plot(format!("c({})", i)).line(pts));
    }
    let all = collect_plots(plots);
    let mut rest = all.it;
    let mut names = Vec::new();
    loop {
        let (mut s, name, _) = match SinglePlotIterator::new(rest) {
            Some(t) => t,
            None => break,
        };
        let mut n = 0;
        while s.next().is_some() {
            n += 1;
        }
        assert_eq!(n, collatz(1000 + names.len() as i128).len());
        names.push(name);
        rest = s.into_inner();
    }
    assert_eq!(names, vec!["c(1000)", "c(1001)", "c(1002)", "c(1003)", "c(1004)", "c(1005)"]);
    let (x, y) = all.area.build();
    assert_eq!(x.min, 0);
    assert_eq!(y.min, 1);
    assert_eq!(y.max, *collatz(1001).iter().max().unwrap().max(collatz(1003).iter().max().unwrap()).max(collatz(1005).iter().max().unwrap()).max(collatz(1000).iter().max().unwrap()).max(collatz(1002).iter().max().unwrap()).max(collatz(1004).iter().max().unwrap()));
}

#[test]
fn hourly_histogram_with_custom_ticks() {
    let trend: [i128; 24] = [0, 0, 0, 0, 0, 3, 5, 5, 10, 20, 50, 60, 70, 50, 40, 34, 34, 20, 10, 20, 10, 4, 2, 0];
    let pts: Vec<(i128, i128)> = trend.iter().enumerate().map(|(h, &v)| (h as i128, v)).collect();
    let data = plot("").histogram(pts).chain(markers::<i128, i128>(vec![24], vec![]));
    assert_eq!(bounds(data.area), ([0, 24], [0, 70]));
    let ticks = poloto::ticks::from_iter(vec![0i128, 6, 12, 18, 24]).with_tick_fmt(|v: &i128| format!("{} hr", v));
    assert_eq!(ticks.iter, vec![0, 6, 12, 18, 24]);
    assert_eq!(ticks.fmt.write_tick(&6), "6 hr");
}

#[test]
fn cloned_and_collected_plots_agree() {
    let data = [(1i128, 1i128), (2, 3)];
    let l1 = plot("").scatter(ClonedPlotIt::new(&data[..])).chain(plot("").scatter(data.to_vec()));
    let l2 = plot("").scatter(data.to_vec()).chain(plot("").scatter(ClonedPlotIt::new(&data[..])));
    assert_eq!(bounds(l1.area), bounds(l2.area));
    let mut a = l1.it;
    let mut b = l2.it;
    loop {
        match (a.next(), b.next()) {
            (None, None) => break,
            (Some(PlotTag::Plot(p)), Some(PlotTag::Plot(q))) => assert_eq!(p, q),
            (Some(PlotTag::Finish), Some(PlotTag::Finish)) => {}
            (Some(PlotTag::Start { typ: t1, size_hint: h1, .. }), Some(PlotTag::Start { typ: t2, size_hint: h2, .. })) => {
                assert_eq!((t1, h1), (t2, h2))
            }
            _ => panic!("the plots differ"),
        }
    }
}

#[test]
fn area_is_the_min_and_max_of_the_values_and_only_widens() {
    let xs = [5i128, -7, 12, 0, 3];
    let ys = [1i128, 3, -4, 9, 2];
    let grown = |n: usize| {
        let mut a: Area<i128, i128> = Area::new();
        for i in 0..n {
            a.grow(Some(xs[i]), Some(ys[i]));
        }
        bounds(a)
    };
    for n in 3..=xs.len() {
        let (px, py) = grown(n - 1);
        let (nx, ny) = grown(n);
        assert!(nx[0] <= px[0] && nx[1] >= px[1]);
        assert!(ny[0] <= py[0] && ny[1] >= py[1]);
    }
    assert_eq!(grown(xs.len()), ([-7, 12], [-4, 9]));
}

#[test]
fn plot_size_hint_counts_only_the_tags_left() {
    let mut it = plot("e").line(Vec::<(i128, i128)>::new()).it;
    assert_eq!(it.size_hint(), (2, Some(2)));
    assert!(it.next().is_some());
    assert_eq!(it.size_hint(), (1, Some(1)));
    assert!(it.next().is_some());
    assert_eq!(it.size_hint(), (0, Some(0)));
    assert!(it.next().is_none());
    assert_eq!(it.size_hint(), (0, Some(0)));
}

#[test]
fn chain_size_hint_shrinks_as_tags_are_read() {
    let a = plot("a").line(vec![(1i128, 1i128)]);
    let b = plot("b").line(vec![(2i128, 2i128), (3, 3)]);
    let mut c = a.chain(b).it;
    let mut left = 7usize;
    while left > 0 {
        assert_eq!(c.size_hint(), (left, Some(left)));
        assert!(c.next().is_some());
        left -= 1;
    }
    assert_eq!(c.size_hint(), (0, Some(0)));
    assert!(c.next().is_none());
}

#[test]
fn chain_has_no_upper_bound_where_one_side_has_none() {
    let a = plot("a").line(vec![(1i128, 1i128)]);
    let b = plot("b").line(vec![(10i128, 20i128)]);
    let all = collect_plots(vec![a, b]);
    assert_eq!(all.it.size_hint().1, None);
    let c = plot("c").line(vec![(2i128, 2i128), (3, 3)]);
    let chained = c.chain(all);
    assert_eq!(chained.it.size_hint(), (4, None));
}

#[test]
fn find_bounds_is_the_min_and_max_unless_all_are_equal() {
    let pts = [(5i128, 2i128), (-3, 2), (8, 2), (0, 2)];
    assert_eq!(find_bounds(&pts, vec![-9, 1], vec![2]), ([-9, 8], [1, 3]));
    assert_eq!(find_bounds(&pts, vec![], vec![7, -4]), ([-3, 8], [-4, 7]));
    assert_eq!(find_bounds(&[(6i128, 6i128), (6, 6)], vec![6], vec![6]), ([5, 7], [5, 7]));
}
