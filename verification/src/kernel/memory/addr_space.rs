//! The partition of the virtual address space into a user region and a
//! kernel region, and the hand-out of page ranges inside the kernel region.

use crate::kernel::memory::addr::{Page, PageRange, VirtAddr, PAGE_SIZE};
use core::ops::Range;
use vstd::prelude::*;

verus! {

/// First address of the kernel region.
pub const KERNEL_VIRTUAL_START: u64 = 0xa00_0000_0000;

/// Length of the kernel region in bytes: 2 TiB.
pub const KERNEL_VIRTUAL_LENGTH: u64 = 0x200_0000_0000;

/// First address of the user region.
pub const USER_VIRTUAL_START: u64 = 0x800_0000_0000;

/// Length of the user region in bytes: 2 TiB.
pub const USER_VIRTUAL_LENGTH: u64 = 0x200_0000_0000;

/// Number of pages in the kernel region.
pub const KERNEL_VIRTUAL_PAGES: u64 = 0x2000_0000;

/// The addresses of the kernel region.
pub fn kernel_virtual_range() -> (r: Range<u64>)
    ensures
        r.start == KERNEL_VIRTUAL_START,
        r.end == KERNEL_VIRTUAL_START + KERNEL_VIRTUAL_LENGTH,
{
    KERNEL_VIRTUAL_START..KERNEL_VIRTUAL_START + KERNEL_VIRTUAL_LENGTH
}

/// The addresses of the user region.
pub fn user_virtual_range() -> (r: Range<u64>)
    ensures
        r.start == USER_VIRTUAL_START,
        r.end == USER_VIRTUAL_START + USER_VIRTUAL_LENGTH,
{
    USER_VIRTUAL_START..USER_VIRTUAL_START + USER_VIRTUAL_LENGTH
}

/// Whether `addr` lies in the kernel region.
pub open spec fn in_kernel_region(addr: u64) -> bool {
    KERNEL_VIRTUAL_START <= addr < KERNEL_VIRTUAL_START + KERNEL_VIRTUAL_LENGTH
}

/// Whether `addr` lies in the user region.
pub open spec fn in_user_region(addr: u64) -> bool {
    USER_VIRTUAL_START <= addr < USER_VIRTUAL_START + USER_VIRTUAL_LENGTH
}

/// No address lies in both the user region and the kernel region.
pub proof fn lemma_regions_disjoint(addr: u64)
    ensures
        !(in_kernel_region(addr) && in_user_region(addr)),
{
}

/// Hands out ranges of pages from the kernel region, each starting where
/// the one before ended. Ranges are never taken back.
pub struct AddrSpaceManager {
    kernel_alloc: u64,
}

impl AddrSpaceManager {
    #[verifier::type_invariant]
    closed spec fn valid(self) -> bool {
        self.kernel_alloc <= KERNEL_VIRTUAL_PAGES
    }

    /// The number of kernel pages handed out so far.
    pub closed spec fn allocated(&self) -> u64 {
        self.kernel_alloc
    }

    /// A manager that has handed out nothing yet.
    pub fn new() -> (r: AddrSpaceManager)
        ensures
            r.allocated() == 0,
    {
        Self { kernel_alloc: 0 }
    }

    /// The pages of the user region.
    pub fn user() -> (r: PageRange)
        ensures
            r.start.start() == USER_VIRTUAL_START,
            r.end.start() == USER_VIRTUAL_START + USER_VIRTUAL_LENGTH,
    {
        let begin = VirtAddr::new(USER_VIRTUAL_START);
        let end = VirtAddr::new(USER_VIRTUAL_START + USER_VIRTUAL_LENGTH);
        PageRange { start: Page::containing_address(begin), end: Page::containing_address(end) }
    }

    /// The number of kernel pages that can still be handed out.
    pub fn kernel_pages_left(&self) -> (r: u64)
        ensures
            r == KERNEL_VIRTUAL_PAGES - self.allocated(),
            self.allocated() <= KERNEL_VIRTUAL_PAGES,
    {
        proof {
            use_type_invariant(self);
        }
        KERNEL_VIRTUAL_PAGES - self.kernel_alloc
    }

    /// Hands out the next `pages` pages of the kernel region. The range
    /// starts right after everything handed out before, so no two ranges
    /// overlap. The region must have that many pages left.
    pub fn kernel_alloc(&mut self, pages: u64) -> (r: PageRange)
        requires
            old(self).allocated() + pages <= KERNEL_VIRTUAL_PAGES,
        ensures
            final(self).allocated() == old(self).allocated() + pages,
            r.start.start() == KERNEL_VIRTUAL_START + old(self).allocated() * PAGE_SIZE,
            r.end.start() == r.start.start() + pages * PAGE_SIZE,
            r.end.start() <= KERNEL_VIRTUAL_START + KERNEL_VIRTUAL_LENGTH,
    {
        let kernel_start = Page::containing_address(VirtAddr::new(KERNEL_VIRTUAL_START));
        let cur: u64 = self.kernel_alloc;
        assert(cur * PAGE_SIZE + pages * PAGE_SIZE <= KERNEL_VIRTUAL_LENGTH) by (nonlinear_arith)
            requires
                cur + pages <= 0x2000_0000,
                PAGE_SIZE == 4096,
                KERNEL_VIRTUAL_LENGTH == 0x200_0000_0000,
        ;
        let cur_start = kernel_start.offset(cur);
        let cur_end = cur_start.offset(pages);
        self.kernel_alloc = cur + pages;
        PageRange { start: cur_start, end: cur_end }
    }
}

} // verus!
