use ngos::kernel::memory::addr::{Page, PhysAddr, PhysFrame, VirtAddr};
use ngos::kernel::memory::addr_space::{
    kernel_virtual_range, user_virtual_range, AddrSpaceManager, KERNEL_VIRTUAL_START,
};
use ngos::kernel::memory::frame::FrameNumber;
use ngos::kernel::memory::page_table::{MapToError, Mapping, PageTable, PRESENT, WRITABLE};
use ngos::kernel::memory::phys_addr_trans::AddressTranslator;
use ngos::kernel::memory::ranges::{FrameRange, MemoryRegion, MemoryRegionType};
use ngos::kernel::memory::{
    classify_page_fault, do_page_fault, init, PageFault, PageFaultErrorCode, USER_MODE,
};

fn usable(start: u64, end: u64) -> MemoryRegion {
    MemoryRegion {
        range: FrameRange { start_frame_number: start, end_frame_number: end },
        region_type: MemoryRegionType::Usable,
    }
}

fn kernel_mode() -> PageFaultErrorCode {
    PageFaultErrorCode { bits: 2 }
}

#[test]
fn regions_are_two_tebibytes_each_and_apart() {
    let kernel = kernel_virtual_range();
    let user = user_virtual_range();
    assert_eq!(kernel.start, 20 << 39);
    assert_eq!(kernel.end, 24 << 39);
    assert_eq!(user.start, 16 << 39);
    assert_eq!(user.end, 20 << 39);
    assert!(user.end <= kernel.start);
}

#[test]
fn user_region_as_pages() {
    let range = AddrSpaceManager::user();
    assert_eq!(range.start.start_address().as_u64(), 16 << 39);
    assert_eq!(range.end.start_address().as_u64(), 20 << 39);
}

#[test]
fn kernel_alloc_hands_out_consecutive_ranges() {
    let mut manager = AddrSpaceManager::new();
    let a = manager.kernel_alloc(3);
    let b = manager.kernel_alloc(0);
    let c = manager.kernel_alloc(5);
    assert_eq!(a.start.start_address().as_u64(), KERNEL_VIRTUAL_START);
    assert_eq!(a.end.start_address().as_u64(), KERNEL_VIRTUAL_START + 3 * 4096);
    assert_eq!(b.start, a.end);
    assert_eq!(b.end, a.end);
    assert_eq!(c.start, a.end);
    assert_eq!(c.end.start_address().as_u64(), KERNEL_VIRTUAL_START + 8 * 4096);
    assert_eq!(manager.kernel_pages_left(), 0x2000_0000 - 8);
}

#[test]
fn kernel_alloc_can_take_the_whole_region() {
    let mut manager = AddrSpaceManager::new();
    let all = manager.kernel_alloc(0x2000_0000);
    assert_eq!(all.start.start_address().as_u64(), 20 << 39);
    assert_eq!(all.end.start_address().as_u64(), 24 << 39);
    assert_eq!(manager.kernel_pages_left(), 0);
}

#[test]
fn translator_adds_the_offset() {
    let translator = AddressTranslator::new(VirtAddr::new(0x1000_0000_0000));
    let addr = PhysAddr::new(0x1234_5678);
    assert!(translator.can_translate(addr));
    assert_eq!(translator.physical_to_virtual(addr).as_u64(), 0x1000_1234_5678);
}

#[test]
fn translator_stops_at_the_end_of_the_lower_half() {
    let translator = AddressTranslator::new(VirtAddr::new(0x7fff_ffff_f000));
    assert!(translator.can_translate(PhysAddr::new(0xfff)));
    assert!(!translator.can_translate(PhysAddr::new(0x1000)));
}

#[test]
fn page_and_frame_round_addresses_down() {
    let page = Page::containing_address(VirtAddr::new(0x1234_5fff));
    assert_eq!(page.start_address().as_u64(), 0x1234_5000);
    assert_eq!(page.offset(2).start_address().as_u64(), 0x1234_7000);
    let frame = PhysFrame::containing_address(PhysAddr::new(0x1000));
    assert_eq!(frame.start_address().as_u64(), 0x1000);
}

#[test]
fn page_table_maps_a_page_once() {
    let mut table = PageTable::new();
    let page = Page::containing_address(VirtAddr::new(0x4000));
    let frame = FrameNumber::from_u64(9).into_frame();
    let other = FrameNumber::from_u64(10).into_frame();
    assert_eq!(table.translate_page(page), None);
    assert_eq!(table.map_to(page, frame, PRESENT), Ok(()));
    assert_eq!(table.translate_page(page), Some(Mapping { frame: 9, flags: PRESENT }));
    assert_eq!(
        table.map_to(page, other, PRESENT | WRITABLE),
        Err(MapToError::PageAlreadyMapped(9))
    );
    assert_eq!(table.translate_page(page), Some(Mapping { frame: 9, flags: PRESENT }));
}

#[test]
fn fault_kinds() {
    let inside = VirtAddr::new(KERNEL_VIRTUAL_START + 0x1234);
    let below = VirtAddr::new(KERNEL_VIRTUAL_START - 1);
    let above = VirtAddr::new(24 << 39);
    let last = VirtAddr::new((24 << 39) - 1);
    let user = PageFaultErrorCode { bits: USER_MODE | 1 };
    assert_eq!(classify_page_fault(inside, kernel_mode()), PageFault::KernelDemand);
    assert_eq!(classify_page_fault(last, kernel_mode()), PageFault::KernelDemand);
    assert_eq!(classify_page_fault(below, kernel_mode()), PageFault::OutsideKernel);
    assert_eq!(classify_page_fault(above, kernel_mode()), PageFault::OutsideKernel);
    assert_eq!(classify_page_fault(inside, user), PageFault::UserMode);
    assert_eq!(classify_page_fault(below, user), PageFault::UserMode);
    assert!(user.user_mode());
    assert!(!kernel_mode().user_mode());
}

#[test]
fn page_fault_maps_one_frame_and_a_second_fault_in_the_page_maps_none() {
    let map = vec![usable(1, 10), usable(20, 40)];
    let mut memory = init(0x1000_0000_0000, &map);
    let addr = VirtAddr::new(KERNEL_VIRTUAL_START + 0x5123);
    let page = Page::containing_address(addr);
    assert_eq!(memory.page_table.translate_page(page), None);

    do_page_fault(addr, kernel_mode(), &mut memory.page_table, &mut memory.frame_manager);
    assert_eq!(
        memory.page_table.translate_page(page),
        Some(Mapping { frame: 1, flags: PRESENT | WRITABLE })
    );
    assert!(!memory.frame_manager.is_free(FrameNumber::from_u64(1)));
    assert!(memory.frame_manager.is_free(FrameNumber::from_u64(2)));

    let again = VirtAddr::new(KERNEL_VIRTUAL_START + 0x5ff0);
    do_page_fault(again, kernel_mode(), &mut memory.page_table, &mut memory.frame_manager);
    assert_eq!(
        memory.page_table.translate_page(page),
        Some(Mapping { frame: 1, flags: PRESENT | WRITABLE })
    );
    assert!(memory.frame_manager.is_free(FrameNumber::from_u64(2)));
    assert_eq!(memory.frame_manager.allocate(0), Some(FrameNumber::from_u64(2)));
}

#[test]
fn page_faults_in_different_pages_get_different_frames() {
    let map = vec![usable(1, 10), usable(20, 40)];
    let mut memory = init(0x1000_0000_0000, &map);
    let a = VirtAddr::new(KERNEL_VIRTUAL_START + 0x10_0000);
    let b = VirtAddr::new(KERNEL_VIRTUAL_START + 0x10_1000);
    do_page_fault(a, kernel_mode(), &mut memory.page_table, &mut memory.frame_manager);
    do_page_fault(b, kernel_mode(), &mut memory.page_table, &mut memory.frame_manager);
    assert_eq!(
        memory.page_table.translate_page(Page::containing_address(a)),
        Some(Mapping { frame: 1, flags: 3 })
    );
    assert_eq!(
        memory.page_table.translate_page(Page::containing_address(b)),
        Some(Mapping { frame: 2, flags: 3 })
    );
}

#[test]
fn init_reserves_the_heap_after_the_record() {
    let map = vec![usable(1, 10), usable(20, 40)];
    let memory = init(0xffff_8000_0000_0000, &map);
    assert!(memory.frame_manager.is_steady_state());
    assert_eq!(memory.heap.start.start_address().as_u64(), KERNEL_VIRTUAL_START + 4096);
    assert_eq!(
        memory.heap.end.start_address().as_u64(),
        KERNEL_VIRTUAL_START + 4096 + (1 << 36)
    );
    assert_eq!(memory.addr_space.kernel_pages_left(), 0x2000_0000 - 1 - (1 << 24));
    assert_eq!(
        memory.translator.physical_to_virtual(PhysAddr::new(0x2000)).as_u64(),
        0xffff_8000_0000_2000
    );
    assert_eq!(
        memory.page_table.translate_page(Page::containing_address(VirtAddr::new(
            KERNEL_VIRTUAL_START
        ))),
        Some(Mapping { frame: 39, flags: PRESENT | WRITABLE })
    );
}
