//! Trusted interface to `smallvec::SmallVec`, the inline-capacity vector that
//! holds child index lists.
//!
//! Verus cannot declare `SmallVec<A: Array>` itself (the `Array` bound is a
//! trait of the outside crate), so the vector is held inside an opaque struct
//! and reached only through the wrappers below. `sv_contents` names the
//! sequence of elements the vector holds; every wrapper's contract speaks of
//! that name.
use vstd::prelude::*;

verus! {

/// A list of child indices, backed by `smallvec::SmallVec<[usize; 8]>`.
#[derive(Debug)]
#[verifier::external_body]
pub struct ChildList {
    inner: smallvec::SmallVec<[usize; 8]>,
}

/// The sequence of indices a `ChildList` holds.
pub uninterp spec fn sv_contents(v: ChildList) -> Seq<usize>;

impl ChildList {
    /// Relies on SmallVec::new: a freshly created vector is empty.
    #[verifier::external_body]
    pub fn new() -> (r: ChildList)
        ensures
            sv_contents(r) == Seq::<usize>::empty(),
    {
        ChildList { inner: smallvec::SmallVec::new() }
    }

    /// Relies on SmallVec::push: appends one element at the back.
    #[verifier::external_body]
    pub fn push(&mut self, value: usize)
        ensures
            sv_contents(*final(self)) == sv_contents(*old(self)).push(value),
    {
        self.inner.push(value)
    }

    /// Relies on SmallVec::len: the number of elements held.
    #[verifier::external_body]
    pub fn len(&self) -> (r: usize)
        ensures
            r == sv_contents(*self).len(),
    {
        self.inner.len()
    }

    /// Relies on SmallVec's Index impl: reads the element at `i`.
    #[verifier::external_body]
    pub fn get(&self, i: usize) -> (r: usize)
        requires
            i < sv_contents(*self).len(),
        ensures
            r == sv_contents(*self)[i as int],
    {
        self.inner[i]
    }
}

} // verus!
