//!
//! Which css color class each plot is drawn with.
//!
use vstd::prelude::*;
use crate::build::plot::PlotMetaType;

verus! {

/// The number of plots (not text) among the first `i` entries.
pub open spec fn plots_before(kinds: Seq<PlotMetaType>, i: int) -> nat
    decreases i,
{
    if i <= 0 {
        0
    } else {
        plots_before(kinds, i - 1) + (if kinds[i - 1] is Plot { 1nat } else { 0nat })
    }
}

/// The number of color classes: as given, or without limit.
pub open spec fn num_colors(num_css_classes: Option<usize>) -> int {
    match num_css_classes {
        Some(n) => n as int,
        None => usize::MAX as int,
    }
}

/// The color class of each entry: the plots take the classes `0, 1, 2, ...` in turn,
/// starting over after the last class; text takes none.
pub open spec fn spec_colors(kinds: Seq<PlotMetaType>, num_css_classes: Option<usize>) -> Seq<Option<usize>> {
    Seq::new(kinds.len(), |i: int|
        if kinds[i] is Text { None } else { Some(((plots_before(kinds, i) as int) % num_colors(num_css_classes)) as usize) })
}

///
/// The color class of each plot, in order: the plots take the classes in turn,
/// starting over after the last one; text entries take none.
///
pub fn assign_colors(kinds: &[PlotMetaType], num_css_classes: Option<usize>) -> (r: Vec<Option<usize>>)
    requires
        num_css_classes != Some(0usize),
    ensures
        r@ == spec_colors(kinds@, num_css_classes),
{
    let max: usize = match num_css_classes {
        Some(n) => n,
        None => usize::MAX,
    };
    let mut r: Vec<Option<usize>> = Vec::new();
    let mut next: usize = 0;
    proof {
        vstd::arithmetic::div_mod::lemma_small_mod(0, max as nat);
    }
    let mut i: usize = 0;
    while i < kinds.len()
        invariant
            max as int == num_colors(num_css_classes),
            max > 0,
            i <= kinds@.len(),
            next < max,
            next as int == (plots_before(kinds@, i as int) as int) % (max as int),
            r@ == spec_colors(kinds@, num_css_classes).take(i as int),
        decreases kinds.len() - i,
    {
        let ghost before = plots_before(kinds@, i as int);
        match kinds[i] {
            PlotMetaType::Text => {
                r.push(None);
            },
            PlotMetaType::Plot(_) => {
                r.push(Some(next));
                proof {
                    let m = max as int;
                    vstd::arithmetic::div_mod::lemma_fundamental_div_mod(before as int, m);
                    let q = (before as int) / m;
                    assert((q + 1) * m == q * m + m) by (nonlinear_arith);
                    assert(m * q == q * m) by (nonlinear_arith);
                    if next + 1 < max {
                        vstd::arithmetic::div_mod::lemma_fundamental_div_mod_converse(before as int + 1, m, q, next + 1);
                    } else {
                        vstd::arithmetic::div_mod::lemma_fundamental_div_mod_converse(before as int + 1, m, q + 1, 0);
                    }
                }
                next = if next + 1 < max { next + 1 } else { 0 };
            },
        }
        proof {
            assert(r@ =~= spec_colors(kinds@, num_css_classes).take(i + 1));
        }
        i = i + 1;
    }
    proof {
        assert(r@ =~= spec_colors(kinds@, num_css_classes));
    }
    r
}

} // verus!
