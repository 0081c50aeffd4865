use ngos::kernel::memory::addr::{Page, VirtAddr};
use ngos::kernel::memory::addr_space::{AddrSpaceManager, KERNEL_VIRTUAL_START};
use ngos::kernel::memory::frame::{FrameManager, FrameNumber};
use ngos::kernel::memory::page_table::{PageTable, PRESENT};
use ngos::kernel::memory::ranges::{FrameRange, MemoryRegion, MemoryRegionType};

fn usable(start: u64, end: u64) -> MemoryRegion {
    MemoryRegion {
        range: FrameRange { start_frame_number: start, end_frame_number: end },
        region_type: MemoryRegionType::Usable,
    }
}

fn reserved(start: u64, end: u64) -> MemoryRegion {
    MemoryRegion {
        range: FrameRange { start_frame_number: start, end_frame_number: end },
        region_type: MemoryRegionType::Reserved,
    }
}

fn numbers(mgr: &mut FrameManager, count: usize) -> Vec<Option<u64>> {
    (0..count).map(|_| mgr.allocate(0).map(|f| f.into_u64())).collect()
}

#[test]
fn bootstrap_starts_outside_the_steady_state() {
    let mgr = FrameManager::bootstrap(&vec![usable(1, 4)]);
    assert!(!mgr.is_steady_state());
    assert!(mgr.has_free_frame());
}

#[test]
fn bootstrap_allocation_takes_the_highest_frame_first() {
    let mut mgr = FrameManager::bootstrap(&vec![usable(1, 4), reserved(4, 8), usable(8, 10)]);
    assert_eq!(
        numbers(&mut mgr, 6),
        vec![Some(9), Some(8), Some(3), Some(2), Some(1), None]
    );
    assert!(!mgr.has_free_frame());
    assert_eq!(mgr.allocate(0), None);
}

#[test]
fn bootstrap_allocation_skips_empty_ranges() {
    let mut mgr = FrameManager::bootstrap(&vec![usable(2, 3), usable(5, 5), usable(7, 7)]);
    assert!(mgr.has_free_frame());
    assert_eq!(numbers(&mut mgr, 2), vec![Some(2), None]);
}

#[test]
fn bootstrap_from_a_map_without_usable_memory() {
    let mut mgr = FrameManager::bootstrap(&vec![reserved(0, 100)]);
    assert!(!mgr.has_free_frame());
    assert_eq!(mgr.allocate(0), None);
    let table = PageTable::new();
    let space = AddrSpaceManager::new();
    assert!(!mgr.can_setup_buddy(&table, &space));
}

#[test]
fn frames_taken_in_bootstrap_are_not_free_in_the_steady_state() {
    let mut mgr = FrameManager::bootstrap(&vec![usable(1, 10), usable(20, 40)]);
    assert_eq!(numbers(&mut mgr, 3), vec![Some(39), Some(38), Some(37)]);
    let mut table = PageTable::new();
    let mut space = AddrSpaceManager::new();
    assert!(mgr.can_setup_buddy(&table, &space));
    mgr.setup_buddy(&mut table, &mut space);
    assert!(mgr.is_steady_state());
    assert_eq!(mgr.frame_count(), 37);
    for f in 0..37 {
        let expected = (1..10).contains(&f) || (20..36).contains(&f);
        assert_eq!(mgr.is_free(FrameNumber::from_u64(f)), expected, "frame {}", f);
    }
    let page = Page::containing_address(VirtAddr::new(KERNEL_VIRTUAL_START));
    assert_eq!(table.translate_page(page).map(|m| m.frame), Some(36));
    let mut count = 0;
    while mgr.allocate(0).is_some() {
        count += 1;
    }
    assert_eq!(count, 9 + 16);
}

#[test]
fn map_check_accepts_ordered_ranges() {
    assert!(FrameManager::can_bootstrap_from(&vec![]));
    assert!(FrameManager::can_bootstrap_from(&vec![usable(1, 1)]));
    assert!(FrameManager::can_bootstrap_from(&vec![
        reserved(0, 1),
        usable(1, 10),
        reserved(5, 3),
        usable(10, 20),
        usable(30, 1 << 26),
    ]));
    let sixteen: Vec<MemoryRegion> = (0..16).map(|i| usable(1 + 2 * i, 2 + 2 * i)).collect();
    assert!(FrameManager::can_bootstrap_from(&sixteen));
}

#[test]
fn map_check_refuses_frame_zero() {
    assert!(!FrameManager::can_bootstrap_from(&vec![usable(0, 10)]));
}

#[test]
fn map_check_refuses_a_range_that_ends_before_it_starts() {
    assert!(!FrameManager::can_bootstrap_from(&vec![usable(10, 9)]));
}

#[test]
fn map_check_refuses_frames_beyond_the_limit() {
    assert!(!FrameManager::can_bootstrap_from(&vec![usable(1, (1 << 26) + 1)]));
}

#[test]
fn map_check_refuses_ranges_out_of_order() {
    assert!(!FrameManager::can_bootstrap_from(&vec![usable(10, 20), usable(1, 5)]));
    assert!(!FrameManager::can_bootstrap_from(&vec![usable(1, 11), usable(10, 20)]));
}

#[test]
fn map_check_refuses_seventeen_usable_ranges() {
    let seventeen: Vec<MemoryRegion> = (0..17).map(|i| usable(1 + 2 * i, 2 + 2 * i)).collect();
    assert!(!FrameManager::can_bootstrap_from(&seventeen));
}

#[test]
fn setup_check_needs_a_frame_for_every_page_of_the_record() {
    let table = PageTable::new();
    let space = AddrSpaceManager::new();
    let empty = FrameManager::bootstrap(&vec![usable(3, 3)]);
    assert!(!empty.can_setup_buddy(&table, &space));
    let one = FrameManager::bootstrap(&vec![usable(3, 4)]);
    assert!(one.can_setup_buddy(&table, &space));
    let mut big = FrameManager::bootstrap(&vec![usable(1, 3), usable(39999, 40000)]);
    assert!(big.can_setup_buddy(&table, &space));
    assert_eq!(big.allocate(0), Some(FrameNumber::from_u64(39999)));
    assert!(big.can_setup_buddy(&table, &space));
    assert_eq!(big.allocate(0), Some(FrameNumber::from_u64(2)));
    assert!(big.can_setup_buddy(&table, &space));
}

#[test]
fn setup_check_counts_the_pages_of_the_record() {
    let table = PageTable::new();
    let space = AddrSpaceManager::new();
    let one_page = FrameManager::bootstrap(&vec![usable(32703, 32704)]);
    assert!(one_page.can_setup_buddy(&table, &space));
    let two_pages = FrameManager::bootstrap(&vec![usable(32704, 32705)]);
    assert!(!two_pages.can_setup_buddy(&table, &space));
    let enough = FrameManager::bootstrap(&vec![usable(32703, 32705)]);
    assert!(enough.can_setup_buddy(&table, &space));
}

#[test]
fn setup_check_needs_room_in_the_kernel_region() {
    let table = PageTable::new();
    let mut space = AddrSpaceManager::new();
    let mgr = FrameManager::bootstrap(&vec![usable(1, 10)]);
    space.kernel_alloc(0x2000_0000 - 1);
    assert!(mgr.can_setup_buddy(&table, &space));
    space.kernel_alloc(1);
    assert!(!mgr.can_setup_buddy(&table, &space));
}

#[test]
fn setup_check_needs_the_pages_of_the_record_unmapped() {
    let mut table = PageTable::new();
    let mut space = AddrSpaceManager::new();
    space.kernel_alloc(2);
    let mgr = FrameManager::bootstrap(&vec![usable(1, 10)]);
    let frame = FrameNumber::from_u64(50).into_frame();
    let before = Page::containing_address(VirtAddr::new(KERNEL_VIRTUAL_START + 4096));
    assert_eq!(table.map_to(before, frame, PRESENT), Ok(()));
    assert!(mgr.can_setup_buddy(&table, &space));
    let target = Page::containing_address(VirtAddr::new(KERNEL_VIRTUAL_START + 2 * 4096));
    assert_eq!(table.map_to(target, frame, PRESENT), Ok(()));
    assert!(!mgr.can_setup_buddy(&table, &space));
}
