//! A cell that is empty at first and filled exactly once.

use vstd::prelude::*;

verus! {

/// A place for a value that is made after the place itself. It starts out
/// empty, is filled once, and is only read after that.
pub struct InitCell<T> {
    value: Option<T>,
}

impl<T> InitCell<T> {
    /// What the cell holds: `None` until it is filled.
    pub closed spec fn contents(&self) -> Option<T> {
        self.value
    }

    /// An empty cell.
    pub fn new() -> (r: Self)
        ensures
            r.contents().is_none(),
    {
        Self { value: None }
    }

    /// Whether the cell has been filled.
    pub fn is_init(&self) -> (r: bool)
        ensures
            r == self.contents().is_some(),
    {
        self.value.is_some()
    }

    /// Fills the cell, which must be empty.
    pub fn init(&mut self, value: T)
        requires
            old(self).contents().is_none(),
        ensures
            final(self).contents() == Some(value),
    {
        self.value = Some(value);
    }

    /// The value in the cell, which must have been filled.
    pub fn get(&self) -> (r: &T)
        requires
            self.contents().is_some(),
        ensures
            *r == self.contents().unwrap(),
    {
        self.value.as_ref().unwrap()
    }
}

} // verus!
