//! Physical frames, virtual pages and the mappings between them.

pub mod addr;
pub mod addr_space;
pub mod allocator;
pub mod frame;
pub mod links;
pub mod page_table;
pub mod phys_addr_trans;
pub mod pool;
pub mod ranges;

use crate::kernel::memory::addr::{is_canonical, page_floor, Page, VirtAddr, PAGE_SIZE};
use crate::kernel::memory::addr::PageRange;
use crate::kernel::memory::addr_space::{
    in_kernel_region, AddrSpaceManager, KERNEL_VIRTUAL_LENGTH, KERNEL_VIRTUAL_START,
};
use crate::kernel::memory::allocator::{KERNEL_HEAP_PAGES, KERNEL_HEAP_SIZE};
use crate::kernel::memory::frame::{
    can_set_up, storage_mappings, storage_pages, tracked_frames, FrameManager,
};
use crate::kernel::memory::page_table::{Mapping, PageTable, PRESENT, WRITABLE};
use crate::kernel::memory::phys_addr_trans::AddressTranslator;
use crate::kernel::memory::ranges::{
    frames_of, in_ranges, take_many, usable_ranges, MemoryRegion,
};
use vstd::prelude::*;

verus! {

/// Bit of a page-fault error code: the fault was raised in user mode.
pub const USER_MODE: u64 = 4;

/// The error code that the processor reports with a page fault.
#[derive(Clone, Copy, Debug, PartialEq, Eq, Structural)]
pub struct PageFaultErrorCode {
    /// The bits of the code.
    pub bits: u64,
}

impl PageFaultErrorCode {
    /// Whether the fault was raised in user mode.
    pub open spec fn is_user_mode(self) -> bool {
        self.bits & USER_MODE == USER_MODE
    }

    /// Whether the fault was raised in user mode.
    pub fn user_mode(self) -> (r: bool)
        ensures
            r == self.is_user_mode(),
    {
        self.bits & USER_MODE == USER_MODE
    }
}

/// What kind of page fault has been raised.
#[derive(Clone, Copy, Debug, PartialEq, Eq, Structural)]
pub enum PageFault {
    /// A fault raised in user mode. Not handled.
    UserMode,
    /// A fault raised in kernel mode at an address outside the kernel
    /// region. A bug in the kernel.
    OutsideKernel,
    /// A fault raised in kernel mode at an address inside the kernel
    /// region: the page asks for a frame.
    KernelDemand,
}

/// The kind of a page fault at `addr` with error code `err`.
pub open spec fn fault_kind(addr: u64, err: PageFaultErrorCode) -> PageFault {
    if err.is_user_mode() {
        PageFault::UserMode
    } else if !in_kernel_region(addr) {
        PageFault::OutsideKernel
    } else {
        PageFault::KernelDemand
    }
}

/// Tells what kind of page fault has been raised.
pub fn classify_page_fault(addr: VirtAddr, err: PageFaultErrorCode) -> (r: PageFault)
    ensures
        r == fault_kind(addr@, err),
{
    if err.user_mode() {
        PageFault::UserMode
    } else {
        let a: u64 = addr.as_u64();
        if a < KERNEL_VIRTUAL_START || a >= KERNEL_VIRTUAL_START + KERNEL_VIRTUAL_LENGTH {
            PageFault::OutsideKernel
        } else {
            PageFault::KernelDemand
        }
    }
}

/// Handles a page fault raised in kernel mode at an address inside the
/// kernel region. If the page that holds the address is not mapped yet, one
/// frame is allocated and the page is mapped to it, present and writable.
/// If the page is mapped already, nothing is allocated and nothing changes.
///
/// Faults of the other kinds are not handled here, and a frame must be left
/// for a page that needs one.
pub fn do_page_fault(
    addr: VirtAddr,
    err: PageFaultErrorCode,
    page_table: &mut PageTable,
    frame_manager: &mut FrameManager,
)
    requires
        fault_kind(addr@, err) == PageFault::KernelDemand,
        old(frame_manager).wf(),
        old(page_table)@.contains_key(page_floor(addr@)) || old(frame_manager).has_frame(),
    ensures
        final(frame_manager).wf(),
        old(page_table)@.contains_key(page_floor(addr@)) ==> final(page_table)@ == old(
            page_table,
        )@ && *final(frame_manager) == *old(frame_manager),
        !old(page_table)@.contains_key(page_floor(addr@)) ==> exists|f: u64|
            old(frame_manager).allocates(final(frame_manager), Some(f)) && final(page_table)@
                == old(page_table)@.insert(
                page_floor(addr@),
                Mapping { frame: f, flags: PRESENT | WRITABLE },
            ),
{
    let page = Page::containing_address(addr);
    if page_table.translate_page(page).is_some() {
        return ;
    }
    let frame = frame_manager.allocate(0);
    match frame {
        Some(f) => {
            let backing = f.into_frame();
            let mapped = page_table.map_to(page, backing, PRESENT | WRITABLE);
            assert(mapped.is_ok());
        },
        None => {},
    }
}

/// The state of the memory subsystem: everything that the kernel keeps
/// about physical frames, virtual pages and their mappings.
pub struct KernelMemory {
    /// How physical addresses are reached through the linear mapping.
    pub translator: AddressTranslator,
    /// The hand-out of kernel pages.
    pub addr_space: AddrSpaceManager,
    /// The active page mappings.
    pub page_table: PageTable,
    /// The allocator of physical frames.
    pub frame_manager: FrameManager,
    /// The pages of the kernel heap.
    pub heap: PageRange,
}

/// Sets the memory subsystem up from what the boot loader hands over: the
/// offset of the linear mapping of physical memory, and the memory map.
/// The frame allocator is brought to the steady state, with the pages of
/// its bookkeeping record at the start of the kernel region, and the pages
/// of the kernel heap are reserved right after them.
pub fn init(physical_memory_offset: u64, memory_map: &Vec<MemoryRegion>) -> (r: KernelMemory)
    requires
        is_canonical(physical_memory_offset),
        can_set_up(usable_ranges(memory_map@), Map::<u64, Mapping>::empty(), 0),
    ensures
        r.translator.offset() == physical_memory_offset,
        r.frame_manager.wf(),
        r.frame_manager.is_steady(),
        r.frame_manager.ranges() == take_many(
            usable_ranges(memory_map@),
            storage_pages(usable_ranges(memory_map@)),
        ),
        r.frame_manager.pool().free_list == frames_of(r.frame_manager.ranges()),
        r.frame_manager.pool().bitmap == Seq::new(
            tracked_frames(usable_ranges(memory_map@)) as nat,
            |f: int| in_ranges(r.frame_manager.ranges(), f as u64),
        ),
        forall|g: int|
            0 <= g < tracked_frames(usable_ranges(memory_map@)) && !in_ranges(
                r.frame_manager.ranges(),
                g as u64,
            ) ==> r.frame_manager.links()[g] == 0,
        r.addr_space.allocated() == storage_pages(usable_ranges(memory_map@)) + KERNEL_HEAP_PAGES,
        r.page_table@ == storage_mappings(
            Map::<u64, Mapping>::empty(),
            0,
            frames_of(usable_ranges(memory_map@)),
            storage_pages(usable_ranges(memory_map@)),
        ),
        r.heap.start.start() == KERNEL_VIRTUAL_START + storage_pages(usable_ranges(memory_map@))
            * PAGE_SIZE,
        r.heap.end.start() == r.heap.start.start() + KERNEL_HEAP_SIZE,
{
    let translator = AddressTranslator::new(VirtAddr::new(physical_memory_offset));
    let mut addr_space = AddrSpaceManager::new();
    let mut page_table = PageTable::new();
    proof {
        crate::kernel::memory::frame::lemma_storage_pages_bound(usable_ranges(memory_map@));
    }
    let frame_manager = FrameManager::new(memory_map, &mut page_table, &mut addr_space);
    let heap = crate::kernel::memory::allocator::init(&mut addr_space);
    KernelMemory { translator, addr_space, page_table, frame_manager, heap }
}

} // verus!
