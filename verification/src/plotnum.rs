//!
//! Contains the [`PlotNum`] trait and its supporting structs.
//!
use vstd::prelude::*;

verus! {

///
/// A plottable number: it can be compared, it may be a hole (a value that marks a
/// disconnect in a plot), and it knows what range to show around a single value.
///
pub trait PlotNum: Copy + Sized {
    /// Is this a hole value to inject discontinuity?
    spec fn spec_is_hole(&self) -> bool;

    /// The order of plottable values.
    spec fn spec_lt(&self, other: &Self) -> bool;

    /// The inputs on which `unit_range` is defined.
    spec fn unit_range_ok(offset: Option<Self>) -> bool;

    /// The range `unit_range` returns.
    spec fn spec_unit_range(offset: Option<Self>) -> [Self; 2];

    fn is_hole(&self) -> (b: bool)
        ensures
            b == self.spec_is_hole(),
    ;

    fn less_than(&self, other: &Self) -> (b: bool)
        ensures
            b == self.spec_lt(other),
    ;

    /// Whether `unit_range` is defined for `offset`.
    fn has_unit_range(offset: Option<Self>) -> (b: bool)
        ensures
            b == Self::unit_range_ok(offset),
    ;

    /// If there is only one point in a graph, or no point at all,
    /// the range to display in the graph.
    fn unit_range(offset: Option<Self>) -> (r: [Self; 2])
        requires
            Self::unit_range_ok(offset),
        ensures
            r == Self::spec_unit_range(offset),
    ;

    /// The order is a strict order.
    proof fn lemma_lt_irreflexive(a: Self)
        ensures
            !a.spec_lt(&a),
    ;

    proof fn lemma_lt_transitive(a: Self, b: Self, c: Self)
        requires
            a.spec_lt(&b),
            b.spec_lt(&c),
        ensures
            a.spec_lt(&c),
    ;

    /// Of two different values one is below the other.
    proof fn lemma_lt_total(a: Self, b: Self)
        ensures
            a.spec_lt(&b) || b.spec_lt(&a) || a == b,
    ;
}

/// A disconnectable number. A number that can be marked as a hole to signify that there
/// is a disconnect in plots. See [`crate::build::crop::Croppable`].
pub trait DiscNum: PlotNum {
    /// The hole value.
    spec fn spec_hole() -> Self;

    /// The hole value is a hole.
    proof fn lemma_hole()
        ensures
            Self::spec_hole().spec_is_hole(),
    ;

    /// Create a hole value.
    fn hole() -> (r: Self)
        ensures
            r == Self::spec_hole(),
    ;
}

///
/// Signify if a number has a zero value.
///
pub trait HasZero: Sized {
    spec fn spec_zero() -> Self;

    fn zero() -> (r: Self)
        ensures
            r == Self::spec_zero(),
    ;
}

impl PlotNum for i128 {
    open spec fn spec_is_hole(&self) -> bool {
        false
    }

    open spec fn spec_lt(&self, other: &Self) -> bool {
        *self < *other
    }

    open spec fn unit_range_ok(offset: Option<Self>) -> bool {
        offset matches Some(o) ==> i128::MIN < o < i128::MAX
    }

    open spec fn spec_unit_range(offset: Option<Self>) -> [Self; 2] {
        match offset {
            Some(o) => [(o - 1) as i128, (o + 1) as i128],
            None => [-1i128, 1i128],
        }
    }

    fn is_hole(&self) -> (b: bool) {
        false
    }

    fn less_than(&self, other: &Self) -> (b: bool) {
        *self < *other
    }

    fn has_unit_range(offset: Option<Self>) -> (b: bool) {
        match offset {
            Some(o) => i128::MIN < o && o < i128::MAX,
            None => true,
        }
    }

    fn unit_range(offset: Option<Self>) -> (r: [Self; 2]) {
        if let Some(o) = offset {
            [o - 1, o + 1]
        } else {
            [-1, 1]
        }
    }

    proof fn lemma_lt_irreflexive(a: Self) {
    }

    proof fn lemma_lt_transitive(a: Self, b: Self, c: Self) {
    }

    proof fn lemma_lt_total(a: Self, b: Self) {
    }
}

impl HasZero for i128 {
    open spec fn spec_zero() -> Self {
        0
    }

    fn zero() -> (r: Self) {
        0
    }
}

///
/// One interval tick
///
#[derive(Debug, Clone, Copy)]
pub struct Tick<I> {
    pub position: I,
    /// If [`TickInfo::display_relative`] is `None`, then this has the same value as [`Tick::position`]
    pub value: I,
}

impl<I> Tick<I> {
    /// Apply a function to both the position and the value.
    pub fn map<J, F: Fn(I) -> J>(self, func: F) -> (r: Tick<J>)
        requires
            call_requires(func, (self.position,)),
            call_requires(func, (self.value,)),
        ensures
            call_ensures(func, (self.position,), r.position),
            call_ensures(func, (self.value,), r.value),
    {
        let position = func(self.position);
        let value = func(self.value);
        Tick { position, value }
    }
}

///
/// Information on the properties of all the interval ticks for one dimension.
///
pub struct TickInfo<I> {
    /// List of the position of each tick to be displayed.
    pub ticks: Vec<Tick<I>>,
    /// If we want to display the tick values relatively, this will
    /// have the base start to start with.
    pub display_relative: Option<I>,
}

} // verus!
