//!
//! Sources of points that are walked twice: once to find the min max bounds, once to
//! draw. Also small adaptors on streams of points.
//!
use vstd::prelude::*;
use crate::build::marker::Area;
use crate::build::plot::{grow_all, grow_by_stream, PlotIt};
use crate::build::stream::{Stream, VecIter};
use crate::plotnum::PlotNum;

verus! {

///
/// Used to allow the user to pass a point as a pair array or as a tuple.
///
pub trait Unwrapper: Sized {
    type Item;

    /// The point this value stands for.
    spec fn spec_unwrap(&self) -> Self::Item;

    /// Produce one point.
    fn unwrap(self) -> (r: Self::Item)
        ensures
            r == self.spec_unwrap(),
    ;
}

impl<T: PlotNum> Unwrapper for [T; 2] {
    type Item = (T, T);

    open spec fn spec_unwrap(&self) -> (T, T) {
        (self[0], self[1])
    }

    fn unwrap(self) -> (r: (T, T)) {
        (self[0], self[1])
    }
}

impl<'a, T: PlotNum> Unwrapper for &'a [T; 2] {
    type Item = (T, T);

    open spec fn spec_unwrap(&self) -> (T, T) {
        (self[0], self[1])
    }

    fn unwrap(self) -> (r: (T, T)) {
        (self[0], self[1])
    }
}

impl<A: PlotNum, B: PlotNum> Unwrapper for (A, B) {
    type Item = (A, B);

    open spec fn spec_unwrap(&self) -> (A, B) {
        *self
    }

    fn unwrap(self) -> (r: (A, B)) {
        self
    }
}

impl<'a, A: PlotNum, B: PlotNum> Unwrapper for &'a (A, B) {
    type Item = (A, B);

    open spec fn spec_unwrap(&self) -> (A, B) {
        **self
    }

    fn unwrap(self) -> (r: (A, B)) {
        (self.0, self.1)
    }
}

///
/// A value that stands for one point of a plot.
///
pub trait Plottable<X: PlotNum, Y: PlotNum>: Sized {
    /// The point this value stands for.
    spec fn spec_plot(&self) -> (X, Y);

    /// Produce one point.
    fn make_plot(self) -> (r: (X, Y))
        ensures
            r == self.spec_plot(),
    ;
}

impl<T: PlotNum> Plottable<T, T> for [T; 2] {
    open spec fn spec_plot(&self) -> (T, T) {
        (self[0], self[1])
    }

    fn make_plot(self) -> (r: (T, T)) {
        (self[0], self[1])
    }
}

impl<'a, T: PlotNum> Plottable<T, T> for &'a [T; 2] {
    open spec fn spec_plot(&self) -> (T, T) {
        (self[0], self[1])
    }

    fn make_plot(self) -> (r: (T, T)) {
        (self[0], self[1])
    }
}

impl<A: PlotNum, B: PlotNum> Plottable<A, B> for (A, B) {
    open spec fn spec_plot(&self) -> (A, B) {
        *self
    }

    fn make_plot(self) -> (r: (A, B)) {
        self
    }
}

impl<'a, A: PlotNum, B: PlotNum> Plottable<A, B> for &'a (A, B) {
    open spec fn spec_plot(&self) -> (A, B) {
        **self
    }

    fn make_plot(self) -> (r: (A, B)) {
        (self.0, self.1)
    }
}

///
/// The points of a stream of pair arrays, as tuples.
///
pub struct UnwrapperIter<I>(pub I);

impl<T: PlotNum, I: Stream<[T; 2]>> Stream<(T, T)> for UnwrapperIter<I> {
    open spec fn rest(&self) -> Seq<(T, T)> {
        self.0.rest().map_values(|a: [T; 2]| a.spec_unwrap())
    }

    fn next(&mut self) -> (r: Option<(T, T)>) {
        match self.0.next() {
            Some(a) => {
                proof {
                    assert(old(self).rest().drop_first() =~= self.rest());
                }
                Some(a.unwrap())
            },
            None => {
                proof {
                    assert(old(self).rest() =~= self.rest());
                }
                None
            },
        }
    }

    open spec fn hint(&self) -> (usize, Option<usize>) {
        self.0.hint()
    }

    fn size_hint(&self) -> (r: (usize, Option<usize>)) {
        self.0.size_hint()
    }
}

///
/// A plot whose min max bounds are known beforehand: the first stream gives the
/// points that the bounds must cover, the second the points that are drawn.
///
pub struct KnownBounds<I1, I2> {
    iter1: I1,
    iter2: I2,
}

impl<I1, I2> KnownBounds<I1, I2> {
    /// The stream for the bounds.
    pub closed spec fn first(&self) -> I1 {
        self.iter1
    }

    /// The stream that is drawn.
    pub closed spec fn second(&self) -> I2 {
        self.iter2
    }
}

/// Bounds given by the points of `iter1`, points drawn from `iter2`.
pub fn from_iter<I1, I2>(iter1: I1, iter2: I2) -> (r: KnownBounds<I1, I2>)
    ensures
        r.first() == iter1,
        r.second() == iter2,
{
    KnownBounds { iter1, iter2 }
}

/// Bounds given by the rectangle with corners `min` and `max`.
pub fn from_rect<X: PlotNum, Y: PlotNum, I>(min: (X, Y), max: (X, Y), iter: I) -> (r: KnownBounds<VecIter<(X, Y)>, I>)
    ensures
        r.first().rest() == seq![min, max],
        r.second() == iter,
{
    let mut v: Vec<(X, Y)> = Vec::new();
    v.push(min);
    v.push(max);
    from_iter(VecIter::new(v), iter)
}

impl<X: PlotNum, Y: PlotNum, I1: Stream<(X, Y)>, I2: Stream<(X, Y)>> PlotIt<X, Y> for KnownBounds<I1, I2> {
    type It = I2;

    open spec fn points(&self) -> Seq<(X, Y)> {
        self.second().rest()
    }

    open spec fn bounds(&self) -> Seq<(X, Y)> {
        self.first().rest()
    }

    fn unpack(self, area: &mut Area<X, Y>) -> (r: I2) {
        let KnownBounds { iter1, iter2 } = self;
        let mut it = iter1;
        grow_by_stream(area, &mut it);
        iter2
    }
}

///
/// A stream that keeps a copy of each point it hands out.
///
pub struct WrapperIter<I, T> {
    vec: Vec<T>,
    iter: I,
}

impl<I, T> WrapperIter<I, T> {
    /// The points handed out so far.
    pub closed spec fn seen(&self) -> Seq<T> {
        self.vec@
    }

    /// The stream the points come from.
    pub closed spec fn source(&self) -> I {
        self.iter
    }
}

impl<X: Copy, Y: Copy, I: Stream<(X, Y)>> Stream<(X, Y)> for WrapperIter<I, (X, Y)> {
    open spec fn rest(&self) -> Seq<(X, Y)> {
        self.source().rest()
    }

    fn next(&mut self) -> (r: Option<(X, Y)>)
        ensures
            final(self).seen() == match r {
                Some(p) => old(self).seen().push(p),
                None => old(self).seen(),
            },
    {
        if let Some(b) = self.iter.next() {
            self.vec.push((b.0, b.1));
            Some(b)
        } else {
            None
        }
    }

    open spec fn hint(&self) -> (usize, Option<usize>) {
        self.source().hint()
    }

    fn size_hint(&self) -> (r: (usize, Option<usize>)) {
        self.iter.size_hint()
    }
}

///
/// A plot from a stream that can be walked only once: the first walk keeps the points
/// in a vector, and the vector is drawn.
///
pub struct VecBackedIter<I> {
    iter: I,
}

impl<I> VecBackedIter<I> {
    pub fn new(iter: I) -> (r: Self)
        ensures
            r.source() == iter,
    {
        VecBackedIter { iter }
    }

    /// The stream the points come from.
    pub closed spec fn source(&self) -> I {
        self.iter
    }
}

///
/// Create a plot from a stream that can be walked only once.
///
pub fn buffered<I>(it: I) -> (r: VecBackedIter<I>)
    ensures
        r.source() == it,
{
    VecBackedIter::new(it)
}

impl<X: PlotNum, Y: PlotNum, I: Stream<(X, Y)>> PlotIt<X, Y> for VecBackedIter<I> {
    type It = VecIter<(X, Y)>;

    open spec fn points(&self) -> Seq<(X, Y)> {
        self.source().rest()
    }

    open spec fn bounds(&self) -> Seq<(X, Y)> {
        self.source().rest()
    }

    fn unpack(self, area: &mut Area<X, Y>) -> (r: VecIter<(X, Y)>) {
        let mut w: WrapperIter<I, (X, Y)> = WrapperIter { vec: Vec::new(), iter: self.iter };
        let ghost all = w.rest();
        let ghost start = area@;
        loop
            invariant
                all.len() >= w.rest().len(),
                w.rest() == all.skip(all.len() - w.rest().len()),
                w.seen() == all.take(all.len() - w.rest().len()),
                area@ == grow_all(start, w.seen()),
            ensures
                w.seen() == all,
                area@ == grow_all(start, all),
            decreases w.rest().len(),
        {
            let ghost k = all.len() - w.rest().len();
            match w.next() {
                Some(p) => {
                    proof {
                        assert(all.take(k + 1) =~= all.take(k).push(p));
                        assert(w.rest() =~= all.skip(k + 1));
                    }
                    area.grow(Some(p.0), Some(p.1));
                    proof {
                        assert(w.seen().drop_last() =~= all.take(k));
                        assert(w.seen().last() == p);
                    }
                },
                None => {
                    proof {
                        assert(all.take(all.len() as int) =~= all);
                    }
                    break;
                },
            }
        }
        VecIter::new(w.vec)
    }
}

///
/// A stream that is walked once and then again: once the first walk is done,
/// `finish_first` hands back a stream for the second.
///
pub trait DoubleIterator<T>: Stream<T> {
    type Next: Stream<T>;

    /// The items of the first walk, from its beginning to its end.
    spec fn first_items(&self) -> Seq<T>;

    /// A stream for the second walk: once the first walk is done, it yields what the
    /// first walk yielded.
    fn finish_first(self) -> (r: Self::Next)
        ensures
            self.rest().len() == 0 ==> r.rest() == self.first_items(),
    ;
}

///
/// Walks a stream once, and keeps each item for the second walk.
///
pub struct BufferIter<I, T> {
    inner: I,
    buffer: Vec<T>,
}

impl<I, T> BufferIter<I, T> {
    /// The items handed out so far.
    pub closed spec fn seen(&self) -> Seq<T> {
        self.buffer@
    }

    /// The stream the items come from.
    pub closed spec fn source(&self) -> I {
        self.inner
    }
}

/// Walk `it` once, keeping each item for the second walk.
pub fn buffer_iter<T: Copy, I: Stream<T>>(it: I) -> (r: BufferIter<I, T>)
    ensures
        r.rest() == it.rest(),
        r.first_items() == it.rest(),
{
    let r = BufferIter { inner: it, buffer: Vec::new() };
    proof {
        assert(r.seen() + r.rest() =~= it.rest());
    }
    r
}

impl<T: Copy, I: Stream<T>> Stream<T> for BufferIter<I, T> {
    open spec fn rest(&self) -> Seq<T> {
        self.source().rest()
    }

    fn next(&mut self) -> (r: Option<T>)
        ensures
            final(self).first_items() == old(self).first_items(),
    {
        let ghost before = self.inner.rest();
        match self.inner.next() {
            Some(a) => {
                let ghost buf = self.buffer@;
                self.buffer.push(a);
                proof {
                    assert(buf.push(a) + before.drop_first() =~= buf + before);
                }
                Some(a)
            },
            None => None,
        }
    }

    open spec fn hint(&self) -> (usize, Option<usize>) {
        self.source().hint()
    }

    fn size_hint(&self) -> (r: (usize, Option<usize>)) {
        self.inner.size_hint()
    }
}

impl<T: Copy, I: Stream<T>> DoubleIterator<T> for BufferIter<I, T> {
    type Next = VecIter<T>;

    open spec fn first_items(&self) -> Seq<T> {
        self.seen() + self.rest()
    }

    fn finish_first(self) -> (r: VecIter<T>) {
        proof {
            if self.rest().len() == 0 {
                assert(self.seen() + self.rest() =~= self.seen());
            }
        }
        VecIter::new(self.buffer)
    }
}

///
/// Walks a stream once, and a copy of it taken at the start for the second walk.
///
pub struct NoBufferIter<I> {
    inner: I,
    inner2: I,
}

impl<I> NoBufferIter<I> {
    /// The copy kept for the second walk.
    pub closed spec fn second(&self) -> I {
        self.inner2
    }

    /// The stream of the first walk.
    pub closed spec fn source(&self) -> I {
        self.inner
    }
}

/// Walk `it` once, and a copy of it for the second walk.
pub fn twice_iter<T, I: Stream<T> + Copy>(it: I) -> (r: NoBufferIter<I>)
    ensures
        r.rest() == it.rest(),
        r.first_items() == it.rest(),
{
    NoBufferIter { inner: it, inner2: it }
}

impl<T, I: Stream<T>> Stream<T> for NoBufferIter<I> {
    open spec fn rest(&self) -> Seq<T> {
        self.source().rest()
    }

    fn next(&mut self) -> (r: Option<T>)
        ensures
            final(self).second() == old(self).second(),
    {
        self.inner.next()
    }

    open spec fn hint(&self) -> (usize, Option<usize>) {
        self.source().hint()
    }

    fn size_hint(&self) -> (r: (usize, Option<usize>)) {
        self.inner.size_hint()
    }
}

impl<T, I: Stream<T>> DoubleIterator<T> for NoBufferIter<I> {
    type Next = I;

    open spec fn first_items(&self) -> Seq<T> {
        self.second().rest()
    }

    fn finish_first(self) -> (r: I) {
        self.inner2
    }
}

///
/// Pairs each item of a stream with the output of a function on it.
///
pub struct OutputZipper<I, F> {
    inner: I,
    func: F,
}

impl<I, F> OutputZipper<I, F> {
    /// The stream of inputs.
    pub closed spec fn source(&self) -> I {
        self.inner
    }

    /// The function applied to each input.
    pub closed spec fn func(&self) -> F {
        self.func
    }

    /// The next input with the function's output on it.
    pub fn next<T: Copy, Y>(&mut self) -> (r: Option<(T, Y)>)
        where
            I: Stream<T>,
            F: Fn(T) -> Y,
        requires
            forall|x: T| call_requires(old(self).func(), (x,)),
        ensures
            final(self).func() == old(self).func(),
            old(self).source().rest().len() == 0 ==> r is None
                && final(self).source().rest() == old(self).source().rest(),
            old(self).source().rest().len() > 0 ==> r is Some
                && r.unwrap().0 == old(self).source().rest()[0]
                && call_ensures(old(self).func(), (r.unwrap().0,), r.unwrap().1)
                && final(self).source().rest() == old(self).source().rest().drop_first(),
    {
        match self.inner.next() {
            Some(s) => {
                assert(call_requires(old(self).func(), (s,)));
                assert(self.func == old(self).func());
                let y = (self.func)(s);
                Some((s, y))
            },
            None => None,
        }
    }

    /// A hint at the number of items still to come: that of the inputs.
    pub fn size_hint<T>(&self) -> (r: (usize, Option<usize>))
        where
            I: Stream<T>,
        ensures
            r == self.source().hint(),
    {
        self.inner.size_hint()
    }
}

///
/// Provides shorthand for plotting the output of some function: maps each `x` to
/// `(x, func(x))`.
///
pub trait OutputZip<T>: Stream<T> {
    fn zip_output<Y, F: Fn(T) -> Y>(self, func: F) -> (r: OutputZipper<Self, F>)
        ensures
            r.source() == self,
            r.func() == func,
    {
        OutputZipper { inner: self, func }
    }
}

impl<T, I: Stream<T>> OutputZip<T> for I {
}

///
/// Ways to make a plot out of a stream of points.
///
pub trait IterBuilder<X: PlotNum, Y: PlotNum>: Stream<(X, Y)> {
    /// Walk the stream once, keeping the points to draw.
    fn buffered_plot(self) -> (r: VecBackedIter<Self>)
        ensures
            r.source() == self,
    {
        VecBackedIter::new(self)
    }

    /// The bounds are the rectangle spanned by `x` and `y`.
    fn rect_bound_plot(self, x: [X; 2], y: [Y; 2]) -> (r: KnownBounds<VecIter<(X, Y)>, Self>)
        ensures
            r.first().rest() == seq![(x[0], y[0]), (x[1], y[1])],
            r.second() == self,
    {
        from_rect((x[0], y[0]), (x[1], y[1]), self)
    }

    /// The bounds are those of the points of `bound`.
    fn custom_bound_plot<I: Stream<(X, Y)>>(self, bound: I) -> (r: KnownBounds<I, Self>)
        ensures
            r.first() == bound,
            r.second() == self,
    {
        from_iter(bound, self)
    }
}

impl<X: PlotNum, Y: PlotNum, I: Stream<(X, Y)>> IterBuilder<X, Y> for I {
}

} // verus!
