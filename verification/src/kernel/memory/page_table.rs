//! The record of the active page mappings.

use crate::kernel::memory::addr::{Page, PhysFrame, PAGE_SIZE};
use std::collections::HashMap;
use vstd::prelude::*;

verus! {

broadcast use vstd::std_specs::hash::group_hash_axioms;

/// Flag of a mapping: the page is present in memory.
pub const PRESENT: u64 = 1;

/// Flag of a mapping: the page may be written to.
pub const WRITABLE: u64 = 2;

/// What a page is mapped to: a frame, and the flags of the mapping.
#[derive(Clone, Copy, Debug, PartialEq, Eq, Structural)]
pub struct Mapping {
    /// The number of the frame that backs the page.
    pub frame: u64,
    /// The flags of the mapping, `PRESENT` and `WRITABLE` among them.
    pub flags: u64,
}

/// Why a mapping could not be installed.
#[derive(Clone, Copy, Debug, PartialEq, Eq, Structural)]
pub enum MapToError {
    /// The page is mapped already, to the frame whose number is given here.
    PageAlreadyMapped(u64),
}

/// The mappings from pages to frames that are in force. A page is mapped to
/// at most one frame.
pub struct PageTable {
    entries: HashMap<u64, Mapping>,
}

impl View for PageTable {
    type V = Map<u64, Mapping>;

    /// The mappings, keyed by the start address of the page.
    closed spec fn view(&self) -> Map<u64, Mapping> {
        self.entries@
    }
}

impl PageTable {
    /// A table with no mappings.
    pub fn new() -> (r: PageTable)
        ensures
            r@ == Map::<u64, Mapping>::empty(),
    {
        PageTable { entries: HashMap::new() }
    }

    /// What `page` is mapped to, if it is mapped.
    pub fn translate_page(&self, page: Page) -> (r: Option<Mapping>)
        ensures
            r == if self@.contains_key(page.start()) {
                Some(self@[page.start()])
            } else {
                None
            },
    {
        let key: u64 = page.start_address().as_u64();
        match self.entries.get(&key) {
            Some(entry) => Some(*entry),
            None => None,
        }
    }

    /// Maps `page` to `frame` with `flags`, unless the page is mapped
    /// already: then the table stays as it is and the error names the frame
    /// that the page is mapped to.
    pub fn map_to(&mut self, page: Page, frame: PhysFrame, flags: u64) -> (r: Result<(), MapToError>)
        ensures
            old(self)@.contains_key(page.start()) ==> r == Err::<(), MapToError>(
                MapToError::PageAlreadyMapped(old(self)@[page.start()].frame),
            ) && final(self)@ == old(self)@,
            !old(self)@.contains_key(page.start()) ==> r.is_ok() && final(self)@ == old(
                self,
            )@.insert(page.start(), Mapping { frame: frame.start() / PAGE_SIZE, flags }),
    {
        let key: u64 = page.start_address().as_u64();
        match self.entries.get(&key) {
            Some(entry) => Err(MapToError::PageAlreadyMapped(entry.frame)),
            None => {
                let number: u64 = frame.start_address().as_u64() / PAGE_SIZE;
                self.entries.insert(key, Mapping { frame: number, flags });
                Ok(())
            },
        }
    }
}

} // verus!
