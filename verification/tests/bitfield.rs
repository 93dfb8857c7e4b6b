use ponswarp::grid::bitfield::Bitfield;

#[test]
fn test_new_bitfield() {
    let bf = Bitfield::new(10);
    assert_eq!(bf.len(), 10);
    assert_eq!(bf.count_ones(), 0);
    assert!(!bf.has(0));
}

#[test]
fn test_set_and_get() {
    let mut bf = Bitfield::new(16);
    bf.set(0, true);
    bf.set(7, true);
    bf.set(15, true);

    assert!(bf.has(0));
    assert!(bf.has(7));
    assert!(bf.has(15));
    assert!(!bf.has(1));
    assert!(!bf.has(8));
}

#[test]
fn test_full_bitfield() {
    let bf = Bitfield::full(10);
    assert_eq!(bf.count_ones(), 10);
    assert!(bf.is_complete());

    for i in 0..10 {
        assert!(bf.has(i));
    }
    assert!(!bf.has(10));
}

#[test]
fn test_serialization() {
    let mut bf = Bitfield::new(16);
    bf.mark(0);
    bf.mark(8);

    let bytes = bf.as_bytes().to_vec();
    let restored = Bitfield::from_bytes(bytes, 16);

    assert!(restored.has(0));
    assert!(restored.has(8));
    assert!(!restored.has(1));
}

#[test]
fn test_difference() {
    let mut bf1 = Bitfield::new(8);
    let mut bf2 = Bitfield::new(8);

    bf1.mark(0);
    bf1.mark(1);
    bf2.mark(1);
    bf2.mark(2);
    bf2.mark(3);

    let diff = bf1.difference(&bf2);
    assert_eq!(diff, vec![2, 3]);
}

#[test]
fn bitfield_wire_form_is_msb_first() {
    let mut bf = Bitfield::new(10);
    bf.mark(0);
    bf.mark(9);
    assert_eq!(bf.as_bytes(), &[0x80u8, 0x40u8][..]);
    let full = Bitfield::full(10);
    assert_eq!(full.as_bytes(), &[0xFFu8, 0xC0u8][..]);
    let full8 = Bitfield::full(8);
    assert_eq!(full8.as_bytes(), &[0xFFu8][..]);
    assert_eq!(Bitfield::full(0).as_bytes().len(), 0);
}

#[test]
fn bitfield_round_trip_keeps_bytes_and_bits() {
    let mut bf = Bitfield::new(21);
    for i in [1usize, 4, 8, 13, 20] {
        bf.mark(i);
    }
    let restored = Bitfield::from_bytes(bf.as_bytes().to_vec(), bf.len());
    assert_eq!(restored, bf);
    assert_eq!(restored.available_pieces(), vec![1, 4, 8, 13, 20]);
    assert_eq!(restored.count_ones(), 5);
    assert_eq!(restored.count_zeros(), 16);
}

#[test]
fn bitfield_set_out_of_range_is_ignored() {
    let mut bf = Bitfield::new(4);
    bf.set(4, true);
    bf.mark(100);
    assert_eq!(bf.count_ones(), 0);
    bf.mark(3);
    bf.unmark(3);
    assert!(!bf.has(3));
    assert!(bf.as_bytes() == &[0u8][..]);
}

#[test]
fn bitfield_try_from_bytes_rejects_short_input() {
    assert!(Bitfield::try_from_bytes(vec![0xFF], 9).is_none());
    assert!(Bitfield::try_from_bytes(vec![0xFF, 0x80], 9).is_some());
    assert!(Bitfield::try_from_bytes(vec![], 0).is_some());
    let longer = Bitfield::try_from_bytes(vec![0xFF, 0xFF, 0xFF], 9).unwrap();
    assert_eq!(longer.count_ones(), 9);
    assert!(!longer.has(9));
}

#[test]
fn bitfield_set_operations() {
    let mut a = Bitfield::new(12);
    let mut b = Bitfield::new(12);
    a.mark(0);
    a.mark(5);
    a.mark(11);
    b.mark(5);
    b.mark(6);
    b.mark(11);
    assert_eq!(a.intersection(&b), vec![5, 11]);
    assert_eq!(a.difference(&b), vec![6]);
    assert_eq!(a.missing_pieces(), vec![1, 2, 3, 4, 6, 7, 8, 9, 10]);
    a.merge(&b);
    assert_eq!(a.available_pieces(), vec![0, 5, 6, 11]);
    assert!(!a.is_complete());
    assert!(!a.is_empty());
    assert!(Bitfield::new(0).is_empty());
    assert!(Bitfield::new(0).is_complete());
    let copy = a.clone();
    assert_eq!(copy, a);
}
