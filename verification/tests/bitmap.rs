use bwfs::bitmap::Bitmap;
use bwfs::storage;

#[test]
fn new_bitmap_is_clear() {
    let b = Bitmap::new(10);
    assert_eq!(b.size(), 10);
    assert_eq!(b.as_bytes(), &[0u8, 0u8]);
    for i in 0..10 {
        assert!(!b.is_set(i));
    }
}

#[test]
fn new_bitmap_of_no_bits_has_no_bytes() {
    let mut b = Bitmap::new(0);
    assert_eq!(b.as_bytes().len(), 0);
    assert_eq!(b.allocate(), None);
}

#[test]
fn set_and_clear_change_one_bit() {
    let mut b = Bitmap::new(16);
    b.set(3);
    b.set(9);
    assert!(b.is_set(3));
    assert!(b.is_set(9));
    assert!(!b.is_set(4));
    assert_eq!(b.as_bytes(), &[0b0000_1000, 0b0000_0010]);
    b.clear(3);
    assert!(!b.is_set(3));
    assert!(b.is_set(9));
    assert_eq!(b.as_bytes(), &[0, 0b0000_0010]);
}

#[test]
fn out_of_range_get_is_false_and_set_is_a_no_op() {
    let mut b = Bitmap::new(10);
    b.set(10);
    b.set(15);
    b.set(1000);
    b.clear(1000);
    assert!(!b.is_set(10));
    assert!(!b.is_set(15));
    assert!(!b.is_set(1000));
    assert_eq!(b.as_bytes(), &[0u8, 0u8]);
}

#[test]
fn allocate_returns_the_lowest_clear_bit() {
    let mut b = Bitmap::new(4);
    b.set(0);
    b.set(2);
    assert_eq!(b.allocate(), Some(1));
    assert_eq!(b.allocate(), Some(3));
    assert_eq!(b.allocate(), None);
    assert!(b.is_set(1) && b.is_set(3));
}

#[test]
fn deallocate_of_index_zero_is_a_no_op() {
    let mut b = Bitmap::new(4);
    b.set(0);
    b.set(1);
    b.deallocate(0);
    assert!(b.is_set(0));
    b.deallocate(1);
    assert!(!b.is_set(1));
    b.clear(0);
    assert!(!b.is_set(0));
}

#[test]
fn allocations_after_release_return_the_released_set() {
    let mut b = Bitmap::new(12);
    while b.allocate().is_some() {}
    for i in [9usize, 3, 5] {
        b.deallocate(i);
    }
    let mut got = vec![b.allocate().unwrap(), b.allocate().unwrap(), b.allocate().unwrap()];
    assert_eq!(got, vec![3, 5, 9]);
    got.sort();
    assert_eq!(got, vec![3, 5, 9]);
    assert_eq!(b.allocate(), None);
}

#[test]
fn from_bytes_pads_missing_bytes_with_ff() {
    let b = Bitmap::from_bytes(&[0x01], 20);
    assert_eq!(b.as_bytes(), &[0x01, 0xFF, 0xFF]);
    assert!(b.is_set(0));
    assert!(!b.is_set(1));
    assert!(b.is_set(8));
    assert!(b.is_set(19));
    assert!(!b.is_set(20));
}

#[test]
fn from_bytes_drops_surplus_bytes() {
    let b = Bitmap::from_bytes(&[0xF0, 0x0F, 0xAA], 9);
    assert_eq!(b.as_bytes(), &[0xF0, 0x0F]);
    assert_eq!(b.size(), 9);
}

#[test]
fn bytes_round_trip_keeps_the_bitmap() {
    let mut b = Bitmap::new(21);
    b.set(0);
    b.set(7);
    b.set(20);
    let copy = Bitmap::from_bytes(b.as_bytes(), b.size());
    assert_eq!(copy.as_bytes(), b.as_bytes());
    assert_eq!(copy.size(), 21);
    let again = b.clone();
    assert_eq!(again.as_bytes(), b.as_bytes());
}

#[test]
fn bitmap_is_reachable_through_the_storage_module() {
    let b = storage::Bitmap::new(3);
    assert_eq!(b.size(), 3);
}
