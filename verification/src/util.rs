//!
//! Closures that write text, held as values.
//!
use vstd::prelude::*;

verus! {

/// A closure that writes text, held as a value; it may be written many times.
pub struct DisplayableClosure<F>(pub F);

impl<F: Fn() -> String> DisplayableClosure<F> {
    pub fn new(a: F) -> (r: Self)
        ensures
            r.0 == a,
    {
        DisplayableClosure(a)
    }

    /// The text that the closure writes.
    pub fn fmt(&self) -> (s: String)
        requires
            call_requires(self.0, ()),
        ensures
            call_ensures(self.0, (), s),
    {
        (self.0)()
    }
}

///
/// A closure that writes text once: the first write runs it, later writes give
/// nothing.
///
pub struct DisplayableClosureOnce<F>(pub Option<F>);

impl<F: FnOnce() -> String> DisplayableClosureOnce<F> {
    pub fn new(a: F) -> (r: Self)
        ensures
            r.0 == Some(a),
    {
        DisplayableClosureOnce(Some(a))
    }

    /// The text that the closure writes, the first time; nothing after that.
    pub fn fmt(&mut self) -> (s: String)
        requires
            old(self).0 matches Some(f) ==> call_requires(f, ()),
        ensures
            once_step(*old(self), s, *final(self)),
    {
        match self.0.take() {
            Some(f) => f(),
            None => String::new(),
        }
    }
}

/// One call of `DisplayableClosureOnce::fmt`, from `d0` to `d1`, writing `s`: the
/// closure is gone afterwards; if it was there, `s` is what it wrote, else `s` is empty.
pub open spec fn once_step<F: FnOnce() -> String>(d0: DisplayableClosureOnce<F>, s: String, d1: DisplayableClosureOnce<F>) -> bool {
    &&& d1.0 is None
    &&& d0.0 matches Some(f) ==> call_ensures(f, (), s)
    &&& d0.0 is None ==> s@ == Seq::<char>::empty()
}

/// Formatting a `DisplayableClosureOnce::new(f)` again and again: the first time
/// writes what `f` writes, every later time writes nothing, and the closure is gone
/// after the first time. `ds` holds the value before each call and after the last,
/// `outs` what each call wrote.
pub proof fn lemma_once_run<F: FnOnce() -> String>(f: F, ds: Seq<DisplayableClosureOnce<F>>, outs: Seq<String>)
    requires
        ds.len() == outs.len() + 1,
        ds[0].0 == Some(f),
        forall|i: int| 0 <= i < outs.len() ==> once_step(#[trigger] ds[i], outs[i], ds[i + 1]),
    ensures
        outs.len() > 0 ==> call_ensures(f, (), outs[0]),
        forall|i: int| 1 <= i < outs.len() ==> (#[trigger] outs[i])@ == Seq::<char>::empty(),
        forall|i: int| 1 <= i < ds.len() ==> (#[trigger] ds[i]).0 is None,
{
    if outs.len() > 0 {
        assert(once_step(ds[0], outs[0], ds[1]));
    }
    assert forall|i: int| 1 <= i < ds.len() implies (#[trigger] ds[i]).0 is None by {
        assert(once_step(ds[i - 1], outs[i - 1], ds[i]));
    }
    assert forall|i: int| 1 <= i < outs.len() implies (#[trigger] outs[i])@ == Seq::<char>::empty() by {
        assert(once_step(ds[i - 1], outs[i - 1], ds[i]));
        assert(once_step(ds[i], outs[i], ds[i + 1]));
    }
}

///
/// A closure that writes text and may change its own state as it does.
///
pub struct DisplayableClosureMut<F>(pub F);

impl<F: FnMut() -> String> DisplayableClosureMut<F> {
    pub fn new(a: F) -> (r: Self)
        ensures
            r.0 == a,
    {
        DisplayableClosureMut(a)
    }

    /// The text that the closure writes this time.
    pub fn fmt(&mut self) -> (s: String)
        requires
            call_requires(old(self).0, ()),
        ensures
            call_ensures(old(self).0, (), s),
    {
        (self.0)()
    }
}

} // verus!
