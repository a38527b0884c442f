//! The iteration protocol plots are built on.
use vstd::prelude::*;

verus! {

///
/// A source of items, one at a time. Once it has yielded all its items it keeps
/// yielding nothing.
///
pub trait Stream<T>: Sized {
    /// The items still to come, in order.
    spec fn rest(&self) -> Seq<T>;

    fn next(&mut self) -> (r: Option<T>)
        ensures
            old(self).rest().len() == 0 ==> r is None && final(self).rest() == old(self).rest(),
            old(self).rest().len() > 0 ==> r == Some(old(self).rest()[0])
                && final(self).rest() == old(self).rest().drop_first(),
    ;

    /// The bounds on the number of items still to come that `size_hint` reports.
    spec fn hint(&self) -> (usize, Option<usize>);

    /// A hint at the number of items still to come, as `Iterator::size_hint` gives:
    /// the lower bound is never above the number of items still to come, and the
    /// upper bound, where there is one, never below it.
    fn size_hint(&self) -> (r: (usize, Option<usize>))
        ensures
            r == self.hint(),
            r.0 <= self.rest().len(),
            r.1 matches Some(u) ==> self.rest().len() <= u,
    ;
}

///
/// The items of a vector, front to back. The vector is kept back to front, so
/// that each step pops its last element.
///
pub struct VecIter<T> {
    rev: Vec<T>,
}

impl<T> VecIter<T> {
    pub fn new(v: Vec<T>) -> (r: Self)
        ensures
            r.rest() == v@,
    {
        let ghost orig = v@;
        let mut w = v;
        let mut rev: Vec<T> = Vec::new();
        while w.len() > 0
            invariant
                rev@ + w@.reverse() =~= orig.reverse(),
            decreases w.len(),
        {
            let ghost w0 = w@;
            let x = w.pop().unwrap();
            proof {
                assert(w0.reverse() =~= seq![x] + w@.reverse());
            }
            rev.push(x);
        }
        proof {
            assert(w@.reverse() =~= Seq::<T>::empty());
            assert(rev@.reverse() =~= orig);
        }
        VecIter { rev }
    }
}

impl<T> Stream<T> for VecIter<T> {
    closed spec fn rest(&self) -> Seq<T> {
        self.rev@.reverse()
    }

    fn next(&mut self) -> (r: Option<T>) {
        let ghost r0 = self.rev@;
        let r = self.rev.pop();
        proof {
            if r0.len() > 0 {
                assert(r0.reverse().drop_first() =~= self.rev@.reverse());
            } else {
                assert(r0.reverse() =~= Seq::<T>::empty());
            }
        }
        r
    }

    open spec fn hint(&self) -> (usize, Option<usize>) {
        (self.rest().len() as usize, Some(self.rest().len() as usize))
    }

    fn size_hint(&self) -> (r: (usize, Option<usize>)) {
        (self.rev.len(), Some(self.rev.len()))
    }
}

///
/// The points of a slice, front to back.
///
#[derive(Clone, Copy)]
pub struct PointSlice<'a, X, Y> {
    s: &'a [(X, Y)],
    pos: usize,
}

impl<'a, X: Copy, Y: Copy> PointSlice<'a, X, Y> {
    pub fn new(s: &'a [(X, Y)]) -> (r: Self)
        ensures
            r.rest() == s@,
    {
        proof {
            assert(s@.skip(0) == s@);
        }
        PointSlice { s, pos: 0 }
    }
}

impl<'a, X: Copy, Y: Copy> Stream<(X, Y)> for PointSlice<'a, X, Y> {
    closed spec fn rest(&self) -> Seq<(X, Y)> {
        if self.pos <= self.s@.len() { self.s@.skip(self.pos as int) } else { Seq::empty() }
    }

    fn next(&mut self) -> (r: Option<(X, Y)>) {
        if self.pos < self.s.len() {
            let p = &self.s[self.pos];
            let x = (p.0, p.1);
            proof {
                assert(old(self).rest().drop_first() == self.s@.skip(self.pos + 1));
            }
            self.pos = self.pos + 1;
            Some(x)
        } else {
            None
        }
    }

    open spec fn hint(&self) -> (usize, Option<usize>) {
        (self.rest().len() as usize, Some(self.rest().len() as usize))
    }

    fn size_hint(&self) -> (r: (usize, Option<usize>)) {
        let n = if self.pos <= self.s.len() { self.s.len() - self.pos } else { 0 };
        (n, Some(n))
    }
}

/// An empty stream.
pub struct Empty<T> {
    v: Option<T>,
}

impl<T> Empty<T> {
    pub fn new() -> (r: Self)
        ensures
            r.rest() == Seq::<T>::empty(),
    {
        Empty { v: None }
    }
}

impl<T> Stream<T> for Empty<T> {
    closed spec fn rest(&self) -> Seq<T> {
        Seq::empty()
    }

    fn next(&mut self) -> (r: Option<T>) {
        None
    }

    open spec fn hint(&self) -> (usize, Option<usize>) {
        (0, Some(0))
    }

    fn size_hint(&self) -> (r: (usize, Option<usize>)) {
        (0, Some(0))
    }
}

} // verus!
