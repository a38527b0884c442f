//!
//! Tools to create tick distributions.
//!
use vstd::prelude::*;
use crate::fmt_num::{int_text, int_to_string};

verus! {

///
/// Min/max bounds for all plots
///
#[derive(Debug, Clone, Copy)]
pub struct DataBound<X> {
    pub min: X,
    pub max: X,
}

/// Which axis a tick distribution is for.
#[derive(Debug, Copy, Clone, PartialEq, Eq, Structural)]
pub enum Axis {
    X,
    Y,
}

///
/// Useful for numbering footnotes. If one axis uses the number one as a footnote,
/// The second access should use the number two as a footnote.
///
pub struct IndexRequester<'a> {
    pub counter: &'a mut usize,
}

impl<'a> IndexRequester<'a> {
    pub fn new(counter: &'a mut usize) -> (r: Self)
        ensures
            *r.counter == *old(counter),
            *final(counter) == *final(r.counter),
    {
        IndexRequester { counter }
    }

    /// Hand out the current number and advance the counter.
    pub fn request(self) -> (r: usize)
        requires
            *old(self.counter) < usize::MAX,
        ensures
            r == *old(self.counter),
            *final(self.counter) == *old(self.counter) + 1,
    {
        let val = *self.counter;
        *self.counter += 1;
        val
    }
}


/// Successive requests hand out consecutive numbers: where each request returns the
/// counter and increments it (as `request` does), `k` requests from `c0` return
/// `c0, c0 + 1, ..., c0 + k - 1`, all different, and leave the counter at `c0 + k`.
/// `cs` holds the counter before each request and after the last, `rs` what each
/// request returned.
pub proof fn lemma_requests(cs: Seq<usize>, rs: Seq<usize>)
    requires
        cs.len() == rs.len() + 1,
        forall|i: int| 0 <= i < rs.len() ==> #[trigger] rs[i] == cs[i] && cs[i + 1] == cs[i] + 1,
    ensures
        forall|i: int| 0 <= i < rs.len() ==> #[trigger] rs[i] == cs[0] + i,
        cs.last() == cs[0] + rs.len(),
        forall|i: int, j: int| 0 <= i < j < rs.len() ==> rs[i] != rs[j],
    decreases rs.len(),
{
    if rs.len() > 0 {
        let n = rs.len() - 1;
        let cs2 = cs.drop_last();
        let rs2 = rs.drop_last();
        assert forall|i: int| 0 <= i < rs2.len() implies #[trigger] rs2[i] == cs2[i] && cs2[i + 1] == cs2[i] + 1 by {
            assert(rs[i] == cs[i] && cs[i + 1] == cs[i] + 1);
        }
        lemma_requests(cs2, rs2);
        assert(rs[n] == cs[n] && cs[n + 1] == cs[n] + 1);
        assert forall|i: int| 0 <= i < rs.len() implies #[trigger] rs[i] == cs[0] + i by {
            if i < n {
                assert(rs2[i] == cs2[0] + i);
            }
        }
    }
}

///
/// Formatter for a tick distribution: writes each tick and an optional
/// "where" footnote for the axis.
///
pub trait TickFmt<Num>: Sized {
    /// The tick values this formatter can write.
    spec fn tick_ok(&self, val: Num) -> bool;

    /// `out` is a text that `write_tick` may produce for `val`.
    spec fn tick_spec(&self, val: Num, out: Seq<char>) -> bool;

    /// Whether this formatter can write its footnote.
    spec fn where_ok(&self) -> bool;

    /// `out` is a text that `write_where` may produce.
    spec fn where_spec(&self, out: Seq<char>) -> bool;

    fn write_tick(&self, val: &Num) -> (s: String)
        requires
            self.tick_ok(*val),
        ensures
            self.tick_spec(*val, s@),
    ;

    fn write_where(&self) -> (s: String)
        requires
            self.where_ok(),
        ensures
            self.where_spec(s@),
    ;
}

/// Writes each tick the way `{}` writes it, with no footnote.
#[derive(Debug, Copy, Clone)]
pub struct DefaultTickFmt;

impl DefaultTickFmt {
    pub fn new() -> (r: DefaultTickFmt)
        ensures
            r == DefaultTickFmt,
    {
        DefaultTickFmt
    }
}

impl TickFmt<i128> for DefaultTickFmt {
    open spec fn tick_ok(&self, val: i128) -> bool {
        true
    }

    open spec fn tick_spec(&self, val: i128, out: Seq<char>) -> bool {
        out == int_text(val as int)
    }

    open spec fn where_ok(&self) -> bool {
        true
    }

    open spec fn where_spec(&self, out: Seq<char>) -> bool {
        out == Seq::<char>::empty()
    }

    fn write_tick(&self, val: &i128) -> (s: String) {
        int_to_string(*val)
    }

    fn write_where(&self) -> (s: String) {
        String::new()
    }
}

/// A tick formatter whose footnote is written by a closure.
pub struct WithWhereFmt<D, F> {
    pub ticks: D,
    pub func: F,
}

impl<N, D: TickFmt<N>, F: Fn() -> String> TickFmt<N> for WithWhereFmt<D, F> {
    open spec fn tick_ok(&self, val: N) -> bool {
        self.ticks.tick_ok(val)
    }

    open spec fn tick_spec(&self, val: N, out: Seq<char>) -> bool {
        self.ticks.tick_spec(val, out)
    }

    open spec fn where_ok(&self) -> bool {
        call_requires(self.func, ())
    }

    open spec fn where_spec(&self, out: Seq<char>) -> bool {
        exists|s: String| call_ensures(self.func, (), s) && s@ == out
    }

    fn write_tick(&self, val: &N) -> (s: String) {
        self.ticks.write_tick(val)
    }

    fn write_where(&self) -> (s: String) {
        let s = (self.func)();
        s
    }
}

/// A tick formatter whose ticks are written by a closure.
pub struct WithTickFmt<D, F> {
    pub ticks: D,
    pub func: F,
}

impl<N, D: TickFmt<N>, F: Fn(&N) -> String> TickFmt<N> for WithTickFmt<D, F> {
    open spec fn tick_ok(&self, val: N) -> bool {
        call_requires(self.func, (&val,))
    }

    open spec fn tick_spec(&self, val: N, out: Seq<char>) -> bool {
        exists|s: String| call_ensures(self.func, (&val,), s) && s@ == out
    }

    open spec fn where_ok(&self) -> bool {
        self.ticks.where_ok()
    }

    open spec fn where_spec(&self, out: Seq<char>) -> bool {
        self.ticks.where_spec(out)
    }

    fn write_tick(&self, val: &N) -> (s: String) {
        let s = (self.func)(val);
        s
    }

    fn write_where(&self) -> (s: String) {
        self.ticks.write_where()
    }
}

/// A tick formatter that carries extra user data along, writing exactly as the inner one.
pub struct WithData<K, E> {
    pub ticks: K,
    pub data: E,
}

impl<N, K: TickFmt<N>, E> TickFmt<N> for WithData<K, E> {
    open spec fn tick_ok(&self, val: N) -> bool {
        self.ticks.tick_ok(val)
    }

    open spec fn tick_spec(&self, val: N, out: Seq<char>) -> bool {
        self.ticks.tick_spec(val, out)
    }

    open spec fn where_ok(&self) -> bool {
        self.ticks.where_ok()
    }

    open spec fn where_spec(&self, out: Seq<char>) -> bool {
        self.ticks.where_spec(out)
    }

    fn write_tick(&self, val: &N) -> (s: String) {
        self.ticks.write_tick(val)
    }

    fn write_where(&self) -> (s: String) {
        self.ticks.write_where()
    }
}


///
/// A tick distribution: the tick values and how to write them.
///
pub struct TickDistribution<I, F> {
    pub iter: I,
    pub fmt: F,
}

impl<I, F> TickDistribution<I, F> {
    pub fn from_parts(it: I, fmt: F) -> (r: Self)
        ensures
            r.iter == it,
            r.fmt == fmt,
    {
        TickDistribution { iter: it, fmt }
    }

    /// Replace how ticks are written, keeping the footnote.
    pub fn with_tick_fmt<N, G: Fn(&N) -> String>(self, func: G) -> (r: TickDistribution<I, WithTickFmt<F, G>>)
        ensures
            r.iter == self.iter,
            r.fmt.ticks == self.fmt,
            r.fmt.func == func,
    {
        TickDistribution { iter: self.iter, fmt: WithTickFmt { ticks: self.fmt, func } }
    }

    /// Replace the footnote, keeping how ticks are written.
    pub fn with_where_fmt<G: Fn() -> String>(self, func: G) -> (r: TickDistribution<I, WithWhereFmt<F, G>>)
        ensures
            r.iter == self.iter,
            r.fmt.ticks == self.fmt,
            r.fmt.func == func,
    {
        TickDistribution { iter: self.iter, fmt: WithWhereFmt { ticks: self.fmt, func } }
    }

    /// Attach user data to the formatter.
    pub fn with_data<E>(self, data: E) -> (r: TickDistribution<I, WithData<F, E>>)
        ensures
            r.iter == self.iter,
            r.fmt.ticks == self.fmt,
            r.fmt.data == data,
    {
        TickDistribution { iter: self.iter, fmt: WithData { ticks: self.fmt, data } }
    }

    /// Use another formatter.
    pub fn with_fmt<J>(self, other: J) -> (r: TickDistribution<I, J>)
        ensures
            r.iter == self.iter,
            r.fmt == other,
    {
        TickDistribution { iter: self.iter, fmt: other }
    }
}

impl<I> TickDistribution<I, DefaultTickFmt> {
    /// Ticks written with the default formatter.
    pub fn new(it: I) -> (r: Self)
        ensures
            r.iter == it,
            r.fmt == DefaultTickFmt,
    {
        TickDistribution { iter: it, fmt: DefaultTickFmt }
    }
}

///
/// Ticks at the given values, written the default way.
///
pub fn from_iter<I>(it: I) -> (r: TickDistribution<I, DefaultTickFmt>)
    ensures
        r.iter == it,
        r.fmt == DefaultTickFmt,
{
    TickDistribution::new(it)
}

///
/// Tick generation from a closure: the closure gets the data bounds and a footnote
/// number requester, and builds the tick distribution.
///
pub struct GenTickDistClosure<F> {
    func: F,
}

impl<F> GenTickDistClosure<F> {
    /// The closure that builds the ticks.
    pub closed spec fn func(&self) -> F {
        self.func
    }

    /// Build the ticks by calling the closure.
    pub fn generate<'a, N, R>(self, data: &DataBound<N>, req: IndexRequester<'a>) -> (r: R)
        where
            F: FnOnce(&DataBound<N>, IndexRequester<'a>) -> R,
        requires
            call_requires(self.func(), (data, req)),
        ensures
            call_ensures(self.func(), (data, req), r),
    {
        (self.func)(data, req)
    }
}

///
/// Create tick generation from a closure.
///
pub fn from_closure<'a, N, R, F: FnOnce(&DataBound<N>, IndexRequester<'a>) -> R>(func: F) -> (r: GenTickDistClosure<F>)
    ensures
        r.func() == func,
{
    GenTickDistClosure { func }
}

/// A tick formatter whose footnote is written by a closure.
pub type WithWhere<D, F> = WithWhereFmt<D, F>;

/// A tick formatter whose ticks are written by a closure.
pub type WithTicky<D, F> = WithTickFmt<D, F>;

/// Tick generation from a closure.
pub type ClosureTickFormat<F> = GenTickDistClosure<F>;

/// A tick formatter whose ticks are written by a closure.
pub type WithFmt<D, F> = WithTickFmt<D, F>;

/// A tick formatter whose footnote is written by a closure.
pub type WhereFmt<D, F> = WithWhereFmt<D, F>;

} // verus!
