use ngos::util::bit_set::BitSet;

#[test]
fn bitset_simple() {
    let mut arr = [0u8; 128];
    let mut bitset = BitSet::new(200, &mut arr);
    bitset.set(12, true);
    bitset.set(29, true);
    assert!(bitset.get(12));
    assert!(!bitset.get(11));
    assert!(!bitset.get(13));
    assert!(bitset.get(29));
    assert!(!bitset.get(28));
    assert!(!bitset.get(30));
}

#[test]
fn bitset_range() {
    let mut arr = [0u8; 128];
    let mut bitset = BitSet::new(200, &mut arr);

    bitset.set_all(true);
    for i in 0..200 {
        assert_eq!(bitset.get(i), true);
    }

    bitset.set_all(false);
    for i in 0..200 {
        assert_eq!(bitset.get(i), false);
    }

    bitset.set_range(0..34, true);
    bitset.set_range(78..123, true);
    for i in 0..34 {
        assert_eq!(bitset.get(i), true);
    }
    for i in 34..78 {
        assert_eq!(bitset.get(i), false);
    }
    for i in 78..123 {
        assert_eq!(bitset.get(i), true);
    }
    for i in 123..200 {
        assert_eq!(bitset.get(i), false);
    }
}

#[test]
fn bitset_set_then_clear() {
    let mut arr = [0u8; 4];
    let mut bitset = BitSet::new(32, &mut arr);
    bitset.set(7, true);
    bitset.set(8, true);
    assert!(bitset.get(7));
    assert!(bitset.get(8));
    bitset.set(7, false);
    assert!(!bitset.get(7));
    assert!(bitset.get(8));
}

#[test]
fn bitset_bytes_hold_bits_least_significant_first() {
    let mut arr = [0u8; 2];
    let mut bitset = BitSet::new(16, &mut arr);
    bitset.set(0, true);
    bitset.set(3, true);
    bitset.set(9, true);
    bitset.release();
    assert_eq!(arr, [0b0000_1001, 0b0000_0010]);
}

#[test]
fn bitset_starts_out_with_the_bits_of_the_buffer() {
    let mut arr = [0b0000_0101u8, 0xff];
    let bitset = BitSet::new(12, &mut arr);
    assert!(bitset.get(0));
    assert!(!bitset.get(1));
    assert!(bitset.get(2));
    assert!(bitset.get(8));
    assert!(bitset.get(11));
}

#[test]
fn bitset_range_inside_one_byte() {
    let mut arr = [0u8; 2];
    let mut bitset = BitSet::new(16, &mut arr);
    bitset.set_range(3..5, true);
    for i in 0..16 {
        assert_eq!(bitset.get(i), i == 3 || i == 4);
    }
    bitset.release();
    assert_eq!(arr, [0b0001_1000, 0]);
}

#[test]
fn bitset_range_across_byte_boundary_without_whole_byte() {
    let mut arr = [0u8; 2];
    let mut bitset = BitSet::new(16, &mut arr);
    bitset.set_range(6..10, true);
    bitset.release();
    assert_eq!(arr, [0b1100_0000, 0b0000_0011]);
}

#[test]
fn bitset_range_with_whole_bytes_in_the_middle() {
    let mut arr = [0u8; 4];
    let mut bitset = BitSet::new(32, &mut arr);
    bitset.set_range(3..21, true);
    bitset.release();
    assert_eq!(arr, [0b1111_1000, 0xff, 0b0001_1111, 0]);
}

#[test]
fn bitset_range_clears_too() {
    let mut arr = [0xffu8; 4];
    let mut bitset = BitSet::new(32, &mut arr);
    bitset.set_range(8..24, false);
    bitset.set_range(1..2, false);
    bitset.release();
    assert_eq!(arr, [0b1111_1101, 0, 0, 0xff]);
}

#[test]
fn bitset_empty_range_changes_nothing() {
    let mut arr = [0u8; 2];
    let mut bitset = BitSet::new(16, &mut arr);
    bitset.set_range(5..5, true);
    bitset.set_range(16..16, true);
    bitset.release();
    assert_eq!(arr, [0, 0]);
}

#[test]
fn bitset_set_all_leaves_bits_past_the_end_alone() {
    let mut arr = [0u8; 2];
    let mut bitset = BitSet::new(11, &mut arr);
    bitset.set_all(true);
    bitset.release();
    assert_eq!(arr, [0xff, 0b0000_0111]);
}
