//! A wrapper that lets a value be shared on a single processor.

use vstd::prelude::*;

verus! {

/// A value that is shared as it is. On one processor nothing else can
/// touch it at the same moment.
pub struct SyncWrapper<T> {
    val: T,
}

impl<T> SyncWrapper<T> {
    /// The value held.
    pub closed spec fn value(&self) -> T {
        self.val
    }

    /// Wraps `val`.
    pub fn new(val: T) -> (r: Self)
        ensures
            r.value() == val,
    {
        Self { val }
    }

    /// The value held.
    pub fn inner(&self) -> (r: &T)
        ensures
            *r == self.value(),
    {
        &self.val
    }
}

} // verus!
