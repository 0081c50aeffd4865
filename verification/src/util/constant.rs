//! A value that is set once and only read afterwards.

use vstd::prelude::*;

verus! {

/// A value that is never changed after it is made, and so can be shared.
pub struct Constant<T> {
    val: T,
}

impl<T> Constant<T> {
    /// The value held.
    pub closed spec fn value(&self) -> T {
        self.val
    }

    /// Wraps `val`.
    pub fn new(val: T) -> (r: Self)
        ensures
            r.value() == val,
    {
        Self { val }
    }

    /// The value held.
    pub fn inner(&self) -> (r: &T)
        ensures
            *r == self.value(),
    {
        &self.val
    }
}

} // verus!
