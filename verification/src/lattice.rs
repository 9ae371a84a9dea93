//! An earlier flavor of the semilattice wrapper, generic over the domain
//! type itself: the merge operator is carried as a phantom parameter that
//! must declare that domain.

use vstd::prelude::*;
use core::marker::PhantomData;
use crate::merge::Merge;

verus! {

/// A semilattice-valued cell over an explicit domain type `T`, merged by
/// the operator `F`. Its model is the view of the wrapped value.
#[verifier::reject_recursive_types(T)]
pub struct Semilattice<T, F> where F: Merge<Domain = T> {
    val: T,
    _phantom: PhantomData<F>,
}

impl<T, F> View for Semilattice<T, F> where F: Merge<Domain = T> {
    type V = F::ViewT;

    closed spec fn view(&self) -> F::ViewT {
        F::view_of(&self.val)
    }
}

impl<T, F> Semilattice<T, F> where F: Merge<Domain = T> {
    /// The wrapper `new` builds, as a specification-level value.
    pub closed spec fn new_spec(val: T) -> Self {
        Semilattice { val, _phantom: PhantomData }
    }

    /// Wrap an initial (bottom) value.
    pub fn new(val: T) -> (s: Self)
        ensures
            s@ == F::view_of(&val),
            s == Self::new_spec(val),
    {
        Semilattice { val, _phantom: PhantomData }
    }

    /// Fold a new value into the current knowledge.
    pub fn merge_in(&mut self, val: T)
        ensures
            final(self)@ == F::merge_spec(old(self)@, F::view_of(&val)),
    {
        F::merge_in(&mut self.val, val);
    }

    /// Consume the wrapper and expose the raw value. Writing to it
    /// outside the merge discipline forfeits monotonicity.
    pub fn into_reveal(self) -> (r: T)
        ensures
            F::view_of(&r) == self@,
    {
        self.val
    }
}

impl<T, F: Merge<Domain = T>> From<T> for Semilattice<T, F> {
    /// Wrapping a value is the same as `new`.
    fn from(val: T) -> (s: Self) {
        Semilattice::new(val)
    }
}

impl<T, F: Merge<Domain = T>> vstd::std_specs::convert::FromSpecImpl<T> for Semilattice<T, F> {
    open spec fn obeys_from_spec() -> bool {
        true
    }

    open spec fn from_spec(val: T) -> Self {
        Semilattice::new_spec(val)
    }
}

impl<T, F> Default for Semilattice<T, F> where T: Default, F: Merge<Domain = T> {
    /// Start from the domain's default value.
    fn default() -> Self {
        Semilattice { val: T::default(), _phantom: PhantomData }
    }
}

} // verus!
