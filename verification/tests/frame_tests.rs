use ngos::kernel::memory::addr::{Page, PhysAddr, PhysFrame, VirtAddr};
use ngos::kernel::memory::addr_space::{AddrSpaceManager, KERNEL_VIRTUAL_START};
use ngos::kernel::memory::frame::{FrameManager, FrameNumber};
use ngos::kernel::memory::page_table::{Mapping, PageTable, PRESENT, WRITABLE};
use ngos::kernel::memory::ranges::{FrameRange, MemoryRegion, MemoryRegionType};

fn region(start: u64, end: u64, region_type: MemoryRegionType) -> MemoryRegion {
    MemoryRegion {
        range: FrameRange { start_frame_number: start, end_frame_number: end },
        region_type,
    }
}

fn small_map() -> Vec<MemoryRegion> {
    vec![
        region(0, 1, MemoryRegionType::Reserved),
        region(1, 10, MemoryRegionType::Usable),
        region(10, 20, MemoryRegionType::InUse),
        region(20, 40, MemoryRegionType::Usable),
    ]
}

fn set_up(map: &Vec<MemoryRegion>) -> (FrameManager, PageTable, AddrSpaceManager) {
    let mut page_table = PageTable::new();
    let mut addr_space = AddrSpaceManager::new();
    let mgr = FrameManager::new(map, &mut page_table, &mut addr_space);
    (mgr, page_table, addr_space)
}

fn kernel_page(index: u64) -> Page {
    Page::containing_address(VirtAddr::new(KERNEL_VIRTUAL_START + index * 4096))
}

#[test]
fn frame_number_none_is_zero() {
    assert!(FrameNumber::none().is_none());
    assert_eq!(FrameNumber::none().into_u64(), 0);
    assert!(!FrameNumber::from_u64(1).is_none());
    assert_eq!(FrameNumber::from_u64(77).into_u64(), 77);
}

#[test]
fn frame_number_and_address() {
    assert_eq!(FrameNumber::from_addr(PhysAddr::new(0x5000)).into_u64(), 5);
    assert_eq!(FrameNumber::from_addr(PhysAddr::new(0x5fff)).into_u64(), 5);
    assert_eq!(FrameNumber::from_u64(5).into_addr().as_u64(), 0x5000);
    assert_eq!(FrameNumber::from_u64(0xff_ffff_ffff).into_addr().as_u64(), 0xf_ffff_ffff_f000);
}

#[test]
fn frame_number_and_frame() {
    let frame = PhysFrame::containing_address(PhysAddr::new(0x7abc));
    assert_eq!(frame.start_address().as_u64(), 0x7000);
    assert_eq!(FrameNumber::from_frame(frame).into_u64(), 7);
    assert_eq!(FrameNumber::from_u64(7).into_frame(), frame);
}

#[test]
fn set_up_reaches_steady_state() {
    let (mgr, _, addr_space) = set_up(&small_map());
    assert!(mgr.is_steady_state());
    assert_eq!(mgr.frame_count(), 40);
    assert!(mgr.has_free_frame());
    assert_eq!(addr_space.kernel_pages_left(), 0x2000_0000 - 1);
}

#[test]
fn set_up_maps_the_record_to_the_highest_frame() {
    let (_, page_table, _) = set_up(&small_map());
    assert_eq!(
        page_table.translate_page(kernel_page(0)),
        Some(Mapping { frame: 39, flags: PRESENT | WRITABLE })
    );
    assert_eq!(page_table.translate_page(kernel_page(1)), None);
}

#[test]
fn set_up_marks_the_frames_left_in_the_ranges_as_free() {
    let (mut mgr, _, _) = set_up(&small_map());
    for f in 0..40 {
        let expected = (1..10).contains(&f) || (20..39).contains(&f);
        assert_eq!(mgr.is_free(FrameNumber::from_u64(f)), expected, "frame {}", f);
    }
}

#[test]
fn steady_allocation_goes_from_the_lowest_frame_up() {
    let (mut mgr, _, _) = set_up(&small_map());
    let mut got = Vec::new();
    while let Some(f) = mgr.allocate(0) {
        got.push(f.into_u64());
    }
    let expected: Vec<u64> = (1..10).chain(20..39).collect();
    assert_eq!(got, expected);
}

#[test]
fn allocation_marks_the_frame_as_in_use() {
    let (mut mgr, _, _) = set_up(&small_map());
    let f = mgr.allocate(0).unwrap();
    assert_eq!(f.into_u64(), 1);
    assert!(!mgr.is_free(f));
    assert!(mgr.is_free(FrameNumber::from_u64(2)));
}

#[test]
fn exhaustion_after_exactly_the_free_frames() {
    let (mut mgr, _, _) = set_up(&small_map());
    for _ in 0..28 {
        assert!(mgr.has_free_frame());
        assert!(mgr.allocate(0).is_some());
    }
    assert!(!mgr.has_free_frame());
    assert_eq!(mgr.allocate(0), None);
    assert_eq!(mgr.allocate(0), None);
}

#[test]
fn no_frame_is_handed_out_twice() {
    let (mut mgr, _, _) = set_up(&small_map());
    let mut got: Vec<u64> = Vec::new();
    while let Some(f) = mgr.allocate(0) {
        assert!(!got.contains(&f.into_u64()));
        got.push(f.into_u64());
    }
    assert_eq!(got.len(), 28);
}

#[test]
fn dealloc_right_after_alloc_restores_the_pool() {
    let (mut mgr, _, _) = set_up(&small_map());
    let f = mgr.allocate(0).unwrap();
    mgr.dealloc(0, f);
    assert!(mgr.is_free(f));
    assert_eq!(mgr.allocate(0), Some(f));
    assert_eq!(mgr.allocate(0), Some(FrameNumber::from_u64(2)));
}

#[test]
fn dealloc_puts_the_frame_at_the_head() {
    let (mut mgr, _, _) = set_up(&small_map());
    let a = mgr.allocate(0).unwrap();
    let b = mgr.allocate(0).unwrap();
    let c = mgr.allocate(0).unwrap();
    assert_eq!((a.into_u64(), b.into_u64(), c.into_u64()), (1, 2, 3));
    mgr.dealloc(0, b);
    mgr.dealloc(0, a);
    assert_eq!(mgr.allocate(0), Some(a));
    assert_eq!(mgr.allocate(0), Some(b));
    assert_eq!(mgr.allocate(0), Some(FrameNumber::from_u64(4)));
}

#[test]
fn dealloc_after_exhaustion_makes_a_frame_available() {
    let (mut mgr, _, _) = set_up(&small_map());
    let mut last = FrameNumber::none();
    while let Some(f) = mgr.allocate(0) {
        last = f;
    }
    assert_eq!(last.into_u64(), 38);
    mgr.dealloc(0, FrameNumber::from_u64(25));
    assert!(mgr.has_free_frame());
    assert_eq!(mgr.allocate(0), Some(FrameNumber::from_u64(25)));
    assert_eq!(mgr.allocate(0), None);
}

#[test]
fn set_up_with_a_last_range_of_one_frame() {
    let map = vec![
        region(1, 3, MemoryRegionType::Usable),
        region(5, 6, MemoryRegionType::Usable),
    ];
    let (mut mgr, page_table, _) = set_up(&map);
    assert_eq!(mgr.frame_count(), 6);
    assert_eq!(
        page_table.translate_page(kernel_page(0)),
        Some(Mapping { frame: 5, flags: PRESENT | WRITABLE })
    );
    assert!(!mgr.is_free(FrameNumber::from_u64(5)));
    assert_eq!(mgr.allocate(0), Some(FrameNumber::from_u64(1)));
    assert_eq!(mgr.allocate(0), Some(FrameNumber::from_u64(2)));
    assert_eq!(mgr.allocate(0), None);
}

#[test]
fn set_up_that_uses_every_frame_leaves_none() {
    let map = vec![region(7, 8, MemoryRegionType::Usable)];
    let (mut mgr, _, _) = set_up(&map);
    assert!(mgr.is_steady_state());
    assert!(!mgr.has_free_frame());
    assert_eq!(mgr.allocate(0), None);
}

#[test]
fn set_up_with_a_record_of_two_pages() {
    let map = vec![region(1, 40000, MemoryRegionType::Usable)];
    let mut page_table = PageTable::new();
    let mut addr_space = AddrSpaceManager::new();
    let first = addr_space.kernel_alloc(3);
    assert_eq!(first.start.start_address().as_u64(), KERNEL_VIRTUAL_START);
    let mut mgr = FrameManager::new(&map, &mut page_table, &mut addr_space);
    assert_eq!(addr_space.kernel_pages_left(), 0x2000_0000 - 5);
    assert_eq!(page_table.translate_page(kernel_page(2)), None);
    assert_eq!(
        page_table.translate_page(kernel_page(3)),
        Some(Mapping { frame: 39999, flags: PRESENT | WRITABLE })
    );
    assert_eq!(
        page_table.translate_page(kernel_page(4)),
        Some(Mapping { frame: 39998, flags: PRESENT | WRITABLE })
    );
    assert_eq!(page_table.translate_page(kernel_page(5)), None);
    assert!(!mgr.is_free(FrameNumber::from_u64(39999)));
    assert!(!mgr.is_free(FrameNumber::from_u64(39998)));
    assert!(mgr.is_free(FrameNumber::from_u64(39997)));
    let mut count = 0;
    while mgr.allocate(0).is_some() {
        count += 1;
    }
    assert_eq!(count, 39999 - 2);
}

#[test]
fn set_up_skips_regions_that_are_not_usable() {
    let map = vec![
        region(1, 4, MemoryRegionType::InUse),
        region(4, 6, MemoryRegionType::Usable),
        region(6, 100, MemoryRegionType::Reserved),
    ];
    let (mut mgr, _, _) = set_up(&map);
    assert_eq!(mgr.frame_count(), 6);
    assert_eq!(mgr.allocate(0), Some(FrameNumber::from_u64(4)));
    assert_eq!(mgr.allocate(0), None);
}

#[test]
fn bitmap_and_free_list_agree_after_mixed_use() {
    let (mut mgr, _, _) = set_up(&small_map());
    let taken: Vec<FrameNumber> = (0..10).map(|_| mgr.allocate(0).unwrap()).collect();
    mgr.dealloc(0, taken[3]);
    mgr.dealloc(0, taken[7]);
    mgr.dealloc(0, taken[0]);
    let marked: Vec<u64> = (0..mgr.frame_count())
        .filter(|f| mgr.is_free(FrameNumber::from_u64(*f)))
        .collect();
    let mut listed: Vec<u64> = Vec::new();
    while let Some(f) = mgr.allocate(0) {
        listed.push(f.into_u64());
    }
    assert_eq!(&listed[..3], &[taken[0].into_u64(), taken[7].into_u64(), taken[3].into_u64()]);
    listed.sort();
    assert_eq!(listed, marked);
    for f in 0..mgr.frame_count() {
        assert!(!mgr.is_free(FrameNumber::from_u64(f)));
    }
}

#[test]
fn record_of_nine_frames_has_room_for_nine_bits() {
    let map = vec![region(1, 9, MemoryRegionType::Usable)];
    let (mut mgr, _, _) = set_up(&map);
    assert_eq!(mgr.frame_count(), 9);
    for f in 1..8 {
        assert!(mgr.is_free(FrameNumber::from_u64(f)));
    }
    assert!(!mgr.is_free(FrameNumber::from_u64(8)));
    assert!(!mgr.is_free(FrameNumber::from_u64(0)));
}

fn link_words(mgr: &FrameManager) -> Vec<u64> {
    (0..mgr.frame_count())
        .map(|f| mgr.link_of(FrameNumber::from_u64(f)).into_u64())
        .collect()
}

#[test]
fn set_up_threads_the_free_frames_and_writes_no_other_word() {
    let map = vec![
        region(2, 4, MemoryRegionType::Usable),
        region(6, 9, MemoryRegionType::Usable),
    ];
    let (mgr, _, _) = set_up(&map);
    assert_eq!(mgr.first_free().into_u64(), 2);
    assert_eq!(link_words(&mgr), vec![0, 0, 3, 6, 0, 0, 7, 0, 0]);
}

#[test]
fn allocation_writes_no_link_word() {
    let (mut mgr, _, _) = set_up(&small_map());
    let before = link_words(&mgr);
    assert_eq!(mgr.allocate(0), Some(FrameNumber::from_u64(1)));
    assert_eq!(mgr.first_free().into_u64(), 2);
    assert_eq!(link_words(&mgr), before);
    while mgr.allocate(0).is_some() {}
    assert!(mgr.first_free().is_none());
    assert_eq!(mgr.allocate(0), None);
    assert_eq!(link_words(&mgr), before);
}

#[test]
fn release_writes_the_link_word_of_the_released_frame_only() {
    let (mut mgr, _, _) = set_up(&small_map());
    for _ in 0..5 {
        mgr.allocate(0);
    }
    let before = link_words(&mgr);
    assert_eq!(mgr.first_free().into_u64(), 6);
    mgr.dealloc(0, FrameNumber::from_u64(3));
    let after = link_words(&mgr);
    assert_eq!(mgr.first_free().into_u64(), 3);
    for f in 0..before.len() {
        if f == 3 {
            assert_eq!(after[f], 6);
        } else {
            assert_eq!(after[f], before[f], "frame {}", f);
        }
    }
}
