//!
//! A simple dark and light css theme.
//!
use vstd::prelude::*;

verus! {

///
/// Default SVG Header for a Poloto graph.
///
pub const SVG_HEADER: &'static str = "<svg class=\"poloto\" width=\"800\" height=\"500\" viewBox=\"0 0 800 500\" xmlns=\"http://www.w3.org/2000/svg\">";

///
/// Default SVG end tag.
///
pub const SVG_END: &'static str = "</svg>";

/// Default light theme
pub const STYLE_CONFIG_LIGHT_DEFAULT: &'static str = ".poloto{\
    stroke-linecap:round;\
    stroke-linejoin:round;\
    font-family:Roboto,sans-serif;\
    font-size:16px;\
    }\
    .poloto_background{fill:AliceBlue;}\
    .poloto_scatter{stroke-width:7}\
    .poloto_tick_line{stroke:gray;stroke-width:0.5}\
    .poloto_line{stroke-width:2}\
    .poloto_text{fill: black;}\
    .poloto_axis_lines{stroke: black;stroke-width:3;fill:none;stroke-dasharray:none}\
    .poloto_title{font-size:24px;dominant-baseline:start;text-anchor:middle;}\
    .poloto_xname{font-size:24px;dominant-baseline:start;text-anchor:middle;}\
    .poloto_yname{font-size:24px;dominant-baseline:start;text-anchor:middle;}\
    .poloto_legend_text{font-size:20px;dominant-baseline:middle;text-anchor:start;}\
    .poloto0stroke{stroke:blue;}\
    .poloto1stroke{stroke:red;}\
    .poloto2stroke{stroke:green;}\
    .poloto3stroke{stroke:gold;}\
    .poloto4stroke{stroke:aqua;}\
    .poloto5stroke{stroke:lime;}\
    .poloto6stroke{stroke:orange;}\
    .poloto7stroke{stroke:chocolate;}\
    .poloto0fill{fill:blue;}\
    .poloto1fill{fill:red;}\
    .poloto2fill{fill:green;}\
    .poloto3fill{fill:gold;}\
    .poloto4fill{fill:aqua;}\
    .poloto5fill{fill:lime;}\
    .poloto6fill{fill:orange;}\
    .poloto7fill{fill:chocolate;}";

/// Default dark theme
pub const STYLE_CONFIG_DARK_DEFAULT: &'static str = ".poloto{\
    stroke-linecap:round;\
    stroke-linejoin:round;\
    font-family:Roboto,sans-serif;\
    font-size:16px;\
    }\
    .poloto_background{fill:#262626;}\
    .poloto_scatter{stroke-width:7}\
    .poloto_tick_line{stroke:dimgray;stroke-width:0.5}\
    .poloto_line{stroke-width:2}\
    .poloto_text{fill: white;}\
    .poloto_axis_lines{stroke: white;stroke-width:3;fill:none;stroke-dasharray:none}\
    .poloto_title{font-size:24px;dominant-baseline:start;text-anchor:middle;}\
    .poloto_xname{font-size:24px;dominant-baseline:start;text-anchor:middle;}\
    .poloto_yname{font-size:24px;dominant-baseline:start;text-anchor:middle;}\
    .poloto0stroke{stroke:blue;}\
    .poloto1stroke{stroke:red;}\
    .poloto2stroke{stroke:green;}\
    .poloto3stroke{stroke:gold;}\
    .poloto4stroke{stroke:aqua;}\
    .poloto5stroke{stroke:lime;}\
    .poloto6stroke{stroke:orange;}\
    .poloto7stroke{stroke:chocolate;}\
    .poloto0fill{fill:blue;}\
    .poloto1fill{fill:red;}\
    .poloto2fill{fill:green;}\
    .poloto3fill{fill:gold;}\
    .poloto4fill{fill:aqua;}\
    .poloto5fill{fill:lime;}\
    .poloto6fill{fill:orange;}\
    .poloto7fill{fill:chocolate;}";

///
/// The css styles of a plot.
///
#[derive(Copy, Clone)]
pub struct Theme<'a> {
    styles: &'a str,
}

impl<'a> Theme<'a> {
    /// The css text of the theme.
    pub closed spec fn spec_styles(&self) -> &'a str {
        self.styles
    }

    /// The css text of the theme.
    pub fn styles(&self) -> (r: &'a str)
        ensures
            r == self.spec_styles(),
    {
        self.styles
    }
}

impl Theme<'static> {
    /// The default light theme.
    pub fn light() -> (r: Theme<'static>)
        ensures
            r.spec_styles()@ == STYLE_CONFIG_LIGHT_DEFAULT@,
    {
        Theme { styles: STYLE_CONFIG_LIGHT_DEFAULT }
    }

    /// The default dark theme.
    pub fn dark() -> (r: Theme<'static>)
        ensures
            r.spec_styles()@ == STYLE_CONFIG_DARK_DEFAULT@,
    {
        Theme { styles: STYLE_CONFIG_DARK_DEFAULT }
    }
}

///
/// The colors of a plot: background, foreground, and one per plot.
///
#[derive(Copy, Clone)]
pub struct Color {
    pub back: u32,
    pub fore: u32,
    plots: [u32; 10],
}

impl Color {
    /// The background color.
    pub closed spec fn spec_back(&self) -> u32 {
        self.back
    }

    /// The foreground color.
    pub closed spec fn spec_fore(&self) -> u32 {
        self.fore
    }

    /// The color of the plot with index `i`.
    pub closed spec fn spec_plot(&self, i: int) -> u32 {
        self.plots[i]
    }

    /// The colors where every one is `0`.
    pub fn default_color() -> (r: Color)
        ensures
            r.spec_back() == 0,
            r.spec_fore() == 0,
            forall|i: int| 0 <= i < 10 ==> r.spec_plot(i) == 0,
    {
        Color { back: 0, fore: 0, plots: [0u32; 10] }
    }
}

} // verus!
