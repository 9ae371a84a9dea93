//! A wrapper binding one domain value to one merge operator, so that the
//! value can only grow: external mutation goes through `merge_in` alone.

use vstd::prelude::*;
use crate::merge::Merge;

verus! {

/// A semilattice-valued cell: owns one value of the operator's domain,
/// mutated only by merging. Its model is the view of that value.
pub struct Semilattice<F> where F: Merge {
    val: F::Domain,
}

impl<F> View for Semilattice<F> where F: Merge {
    type V = F::ViewT;

    closed spec fn view(&self) -> F::ViewT {
        F::view_of(&self.val)
    }
}

impl<F> Semilattice<F> where F: Merge {
    /// The wrapped domain value, at the specification level.
    pub closed spec fn revealed(&self) -> F::Domain {
        self.val
    }

    /// Wrap an initial (bottom) value.
    pub fn new(val: F::Domain) -> (s: Self)
        ensures
            s@ == F::view_of(&val),
            s.revealed() == val,
    {
        Semilattice { val }
    }

    /// Fold a new value into the current knowledge.
    pub fn merge_in(&mut self, val: F::Domain)
        ensures
            final(self)@ == F::merge_spec(old(self)@, F::view_of(&val)),
    {
        F::merge_in(&mut self.val, val);
    }

    /// Consume the wrapper and expose the raw value. Writing to it
    /// outside the merge discipline forfeits monotonicity.
    pub fn into_reveal(self) -> (r: F::Domain)
        ensures
            r == self.revealed(),
            F::view_of(&r) == self@,
    {
        self.val
    }

    /// Borrow the raw value. Interop only: a caller that copies it out
    /// and writes it back unmerged forfeits monotonicity.
    pub fn reveal_ref(&self) -> (r: &F::Domain)
        ensures
            r == self.revealed(),
            F::view_of(r) == self@,
    {
        &self.val
    }
}

impl<F> Default for Semilattice<F> where F: Merge, F::Domain: Default {
    /// Start from the domain's default value.
    fn default() -> Self {
        Semilattice { val: F::Domain::default() }
    }
}

impl<F> Clone for Semilattice<F> where F: Merge, F::Domain: Clone {
    /// Clone the wrapped value; the copy holds whatever the domain's own
    /// `clone` promises to return for it.
    fn clone(&self) -> (r: Self)
        ensures
            cloned::<F::Domain>(self.revealed(), r.revealed()),
    {
        Semilattice { val: self.val.clone() }
    }
}

} // verus!
