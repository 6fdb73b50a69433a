use sfs::bitmap::Bitmap;

#[test]
fn test_create_rejects_non_multiple_of_32() {
    assert!(Bitmap::new(1).is_none());
    assert!(Bitmap::new(31).is_none());
    assert!(Bitmap::new(33).is_none());
    assert!(Bitmap::new(100).is_none());
    assert!(Bitmap::new(u32::MAX).is_none());
    assert!(Bitmap::new(0).is_some());
    assert!(Bitmap::new(32).is_some());
    assert!(Bitmap::new(64).is_some());
}

#[test]
fn test_empty_bitmap_has_no_free_bit() {
    let b = Bitmap::new(0).unwrap();
    assert_eq!(b.bit_count(), 0);
    assert_eq!(b.find_first_free(), None);
}

#[test]
fn test_new_bitmap_is_all_free() {
    let b = Bitmap::new(96).unwrap();
    assert_eq!(b.bit_count(), 96);
    for i in 0..96u32 {
        assert!(!b.is_used(i));
    }
}

#[test]
fn test_find_first_free_determinism() {
    let mut b = Bitmap::new(64).unwrap();
    assert_eq!(b.find_first_free(), Some(0));
    for i in 0..5u32 {
        b.mark_used(i);
    }
    assert_eq!(b.find_first_free(), Some(5));
    b.mark_used(5);
    assert_eq!(b.find_first_free(), Some(6));
    for i in 0..64u32 {
        b.mark_used(i);
    }
    assert_eq!(b.find_first_free(), None);
}

#[test]
fn test_mark_used_is_idempotent() {
    let mut once = Bitmap::new(64).unwrap();
    once.mark_used(7);
    let mut twice = Bitmap::new(64).unwrap();
    twice.mark_used(7);
    twice.mark_used(7);
    assert_eq!(once, twice);
}

#[test]
fn test_mark_free_is_idempotent() {
    let mut once = Bitmap::new(64).unwrap();
    once.mark_used(3);
    once.mark_used(40);
    once.mark_free(40);
    let mut twice = Bitmap::new(64).unwrap();
    twice.mark_used(3);
    twice.mark_used(40);
    twice.mark_free(40);
    twice.mark_free(40);
    assert_eq!(once, twice);
}

#[test]
fn test_mark_free_on_free_bit_is_noop() {
    let mut marked = Bitmap::new(32).unwrap();
    marked.mark_used(2);
    let mut other = Bitmap::new(32).unwrap();
    other.mark_used(2);
    other.mark_free(9);
    assert_eq!(marked, other);
}

#[test]
fn test_mark_and_free_touch_only_their_bit() {
    let mut b = Bitmap::new(64).unwrap();
    b.mark_used(3);
    b.mark_used(33);
    assert!(b.is_used(3));
    assert!(b.is_used(33));
    assert!(!b.is_used(2));
    assert!(!b.is_used(4));
    assert!(!b.is_used(32));
    b.mark_free(3);
    assert!(!b.is_used(3));
    assert!(b.is_used(33));
}

#[test]
fn test_bitmap_bytes_round_trip() {
    let mut b = Bitmap::new(64).unwrap();
    b.mark_used(0);
    b.mark_used(31);
    b.mark_used(32);
    b.mark_used(63);
    let mut bytes: Vec<u8> = Vec::new();
    b.dump(&mut bytes);
    assert_eq!(bytes.len(), 8);
    // word 0 has bits 0 and 31 set, stored little-endian
    assert_eq!(&bytes[0..4], &[0x01, 0x00, 0x00, 0x80]);
    assert_eq!(&bytes[4..8], &[0x01, 0x00, 0x00, 0x80]);
    let loaded = Bitmap::load(&bytes, 0, 2);
    assert_eq!(b, loaded);
}
