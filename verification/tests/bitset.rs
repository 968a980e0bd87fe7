use clogbox::graph::storage::{AtomicBitset, BorrowFlags};
use clogbox::graph::SlotType;

#[test]
fn bits_start_clear_and_toggle() {
    let mut b = AtomicBitset::new(100);
    for i in 0..128 {
        assert!(!b.get(i));
    }
    b.set(3);
    b.set(70);
    assert!(b.get(3));
    assert!(b.get(70));
    assert!(!b.get(4));
    b.clear(3);
    assert!(!b.get(3));
    assert!(b.get(70));
}

#[test]
fn rendering_marks_set_bits() {
    let mut b = AtomicBitset::new(100);
    b.set(0);
    b.set(65);
    let s = b.fmt_bits();
    assert_eq!(s.len(), 129);
    assert_eq!(&s[0..3], "X--");
    assert_eq!(&s[64..68], "|-X-");
}

#[test]
fn capacity_rounds_up_to_whole_words() {
    assert_eq!(AtomicBitset::new(0).fmt_bits(), "");
    let b = AtomicBitset::new(1);
    assert!(!b.get(0));
    assert_eq!(b.fmt_bits().len(), 64);
    assert_eq!(AtomicBitset::new(10).fmt_bits().len(), 64);
    assert_eq!(AtomicBitset::new(40).fmt_bits().len(), 64);
    assert_eq!(AtomicBitset::new(64).fmt_bits().len(), 64);
    assert_eq!(AtomicBitset::new(65).fmt_bits().len(), 129);
}

#[test]
fn every_bit_within_capacity_can_be_set() {
    for capacity in [1usize, 5, 31, 32, 33, 63, 64, 65, 100] {
        let mut b = AtomicBitset::new(capacity);
        let last = capacity - 1;
        assert!(b.in_range(last));
        b.set(last);
        assert!(b.get(last));
        b.clear(last);
        assert!(!b.get(last));
    }
}

#[test]
fn borrow_flags_track_shared_and_exclusive_borrows() {
    let mut f = BorrowFlags::new(64, 100, 0);
    assert!(f.has_buffer(SlotType::Audio, 63));
    assert!(!f.has_buffer(SlotType::Audio, 64));
    assert!(f.has_buffer(SlotType::Control, 127));
    assert!(!f.has_buffer(SlotType::Note, 0));
    let small = BorrowFlags::new(4, 1, 0);
    assert!(small.has_buffer(SlotType::Audio, 3));
    assert!(small.has_buffer(SlotType::Control, 0));
    f.borrow_shared(SlotType::Audio, 3);
    assert!(f.is_shared(SlotType::Audio, 3));
    assert!(!f.is_exclusive(SlotType::Audio, 3));
    assert!(!f.is_shared(SlotType::Control, 3));
    f.borrow_exclusive(SlotType::Control, 3);
    assert!(f.is_exclusive(SlotType::Control, 3));
    f.release_shared(SlotType::Audio, 3);
    assert!(!f.is_shared(SlotType::Audio, 3));
    f.release_exclusive(SlotType::Control, 3);
    assert!(!f.is_exclusive(SlotType::Control, 3));
}
