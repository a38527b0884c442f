use poloto::build::plot::{PlotMetaType, PlotType};
use poloto::render::colors::assign_colors;
use poloto::plotnum::Tick;
use poloto::render::axis::ticks_in_bound;
use poloto::render::path::{Line, LineFill, PathCmd};
use poloto::render::theme::{Color, Theme, STYLE_CONFIG_DARK_DEFAULT, STYLE_CONFIG_LIGHT_DEFAULT, SVG_END, SVG_HEADER};
use poloto::ticks::{from_closure, from_iter, DataBound, DefaultTickFmt, IndexRequester, TickDistribution, TickFmt};
use poloto::util::{DisplayableClosure, DisplayableClosureMut, DisplayableClosureOnce};

#[test]
fn line_breaks_at_points_that_are_not_finite() {
    let l = Line::new(vec![true, true, false, true, true]);
    assert_eq!(
        l.commands(),
        vec![PathCmd::MoveTo(0), PathCmd::LineTo(1), PathCmd::MoveTo(3), PathCmd::LineTo(4)]
    );
    assert_eq!(Line::new(vec![]).commands(), vec![]);
    assert_eq!(Line::new(vec![true]).commands(), vec![]);
    assert_eq!(Line::new(vec![false, true, false]).commands(), vec![PathCmd::MoveTo(1)]);
}

#[test]
fn filled_line_goes_down_to_the_base() {
    let f = LineFill::new(vec![true, true, false, true, true], true);
    assert_eq!(
        f.commands(),
        vec![
            PathCmd::MoveToBase(0),
            PathCmd::LineTo(0),
            PathCmd::LineTo(1),
            PathCmd::LineToBase(1),
            PathCmd::MoveTo(3),
            PathCmd::LineTo(4),
            PathCmd::LineToBase(4),
            PathCmd::Close,
        ]
    );
    let raw = LineFill::new(vec![true, true, true], false);
    assert_eq!(
        raw.commands(),
        vec![PathCmd::MoveTo(0), PathCmd::LineTo(1), PathCmd::LineTo(2), PathCmd::Close]
    );
    assert_eq!(LineFill::new(vec![true, false], true).commands(), vec![PathCmd::LineToBase(0)]);
}

#[test]
fn themes() {
    assert_eq!(Theme::light().styles(), STYLE_CONFIG_LIGHT_DEFAULT);
    assert_eq!(Theme::dark().styles(), STYLE_CONFIG_DARK_DEFAULT);
    assert!(STYLE_CONFIG_LIGHT_DEFAULT.contains(".poloto_background{fill:AliceBlue;}"));
    assert!(STYLE_CONFIG_DARK_DEFAULT.contains(".poloto_background{fill:#262626;}"));
    assert!(SVG_HEADER.starts_with("<svg class=\"poloto\" width=\"800\" height=\"500\""));
    assert_eq!(SVG_END, "</svg>");
    let c = Color::default_color();
    assert_eq!((c.back, c.fore), (0, 0));
}

#[test]
fn displayable_closures() {
    let d = DisplayableClosure::new(|| "hi".to_string());
    assert_eq!(d.fmt(), "hi");
    assert_eq!(d.fmt(), "hi");
    let mut o = DisplayableClosureOnce::new(|| "once".to_string());
    assert_eq!(o.fmt(), "once");
    assert_eq!(o.fmt(), "");
    assert_eq!(o.fmt(), "");
    let mut n = 0;
    let mut m = DisplayableClosureMut::new(move || {
        n += 1;
        format!("{}", n)
    });
    assert_eq!(m.fmt(), "1");
    assert_eq!(m.fmt(), "2");
}

#[test]
fn tick_distribution_formatters() {
    let d = from_iter(vec![1i128, 2, 3]);
    assert_eq!(d.iter, vec![1, 2, 3]);
    assert_eq!(d.fmt.write_tick(&-5), "-5");
    assert_eq!(TickFmt::<i128>::write_where(&d.fmt), "");
    let t = d.with_tick_fmt(|v: &i128| format!("<{}>", v));
    assert_eq!(t.fmt.write_tick(&7), "<7>");
    assert_eq!(t.fmt.write_where(), "");
    let w = t.with_where_fmt(|| "note".to_string());
    assert_eq!(w.fmt.write_tick(&7), "<7>");
    assert_eq!(w.fmt.write_where(), "note");
    let e = w.with_data(42u8);
    assert_eq!(e.fmt.data, 42);
    assert_eq!(e.fmt.write_tick(&1), "<1>");
    let back = e.with_fmt(DefaultTickFmt::new());
    assert_eq!(back.fmt.write_tick(&1), "1");
    let parts = TickDistribution::from_parts(vec![0i128], DefaultTickFmt);
    assert_eq!(parts.iter, vec![0]);
}

#[test]
fn index_requester_hands_out_numbers() {
    let mut counter = 3usize;
    {
        let r = IndexRequester::new(&mut counter);
        assert_eq!(r.request(), 3);
    }
    assert_eq!(counter, 4);
    let g = from_closure(|d: &DataBound<i128>, req: IndexRequester| (d.max - d.min, req.request()));
    let (width, n) = g.generate(&DataBound { min: 2, max: 9 }, IndexRequester::new(&mut counter));
    assert_eq!((width, n), (7, 4));
    assert_eq!(counter, 5);
}

#[test]
fn tick_map() {
    let t = Tick { position: 1i128, value: 2i128 }.map(|x| x * 10);
    assert_eq!((t.position, t.value), (10, 20));
}

#[test]
fn plots_cycle_through_colors() {
    let l = PlotMetaType::Plot(PlotType::Line);
    let t = PlotMetaType::Text;
    assert_eq!(assign_colors(&[l, t, l, l, l], Some(3)), vec![Some(0), None, Some(1), Some(2), Some(0)]);
    assert_eq!(assign_colors(&[l, l, t], None), vec![Some(0), Some(1), None]);
    assert_eq!(assign_colors(&[l, l], Some(1)), vec![Some(0), Some(0)]);
}

#[test]
fn successive_requests_count_up() {
    let mut counter = 10usize;
    let got: Vec<usize> = (0..4).map(|_| IndexRequester::new(&mut counter).request()).collect();
    assert_eq!(got, vec![10, 11, 12, 13]);
    assert_eq!(counter, 14);
}

#[test]
fn only_ticks_within_the_bounds_are_drawn() {
    let ticks = [-10i128, 0, 10, 20, 30, 40];
    let b = DataBound { min: 0, max: 25 };
    assert_eq!(ticks_in_bound(&ticks, &b), Some(vec![0, 10, 20]));
    let edge = DataBound { min: 5, max: 20 };
    assert_eq!(ticks_in_bound(&ticks, &edge), Some(vec![10, 20]));
    let narrow = DataBound { min: 11, max: 29 };
    assert_eq!(ticks_in_bound(&ticks, &narrow), None);
    assert_eq!(ticks_in_bound(&[] as &[i128], &b), None);
    // ticks are only skipped at the front and taken up to the first one above
    let unsorted = [-5i128, 3, -1, 7, 50, 4];
    assert_eq!(ticks_in_bound(&unsorted, &DataBound { min: 0, max: 10 }), Some(vec![3, -1, 7]));
}
