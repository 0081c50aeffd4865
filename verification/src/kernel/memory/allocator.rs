//! The region of kernel virtual memory set aside for the heap.

use crate::kernel::memory::addr::PageRange;
use crate::kernel::memory::addr_space::{AddrSpaceManager, KERNEL_VIRTUAL_PAGES};
use crate::kernel::memory::frame::kernel_page_address;
use vstd::prelude::*;

verus! {

/// Size of the kernel heap in bytes: 64 GiB of virtual memory, backed by
/// frames only as it is touched.
pub const KERNEL_HEAP_SIZE: u64 = 0x10_0000_0000;

/// Number of pages in the kernel heap.
pub const KERNEL_HEAP_PAGES: u64 = 0x100_0000;

/// Reserves the pages of the kernel heap in the kernel region. No frame is
/// mapped: each page gets its frame when it is first touched.
pub fn init(addr_space: &mut AddrSpaceManager) -> (heap: PageRange)
    requires
        old(addr_space).allocated() + KERNEL_HEAP_PAGES <= KERNEL_VIRTUAL_PAGES,
    ensures
        final(addr_space).allocated() == old(addr_space).allocated() + KERNEL_HEAP_PAGES,
        heap.start.start() == kernel_page_address(old(addr_space).allocated() as int),
        heap.end.start() == heap.start.start() + KERNEL_HEAP_SIZE,
{
    let pages: u64 = KERNEL_HEAP_SIZE >> 12;
    assert(0x10_0000_0000u64 >> 12 == 0x100_0000u64) by (bit_vector);
    addr_space.kernel_alloc(pages)
}

} // verus!
