use lightorrent::bitfield::{
    bitfield_to_initial_have, full_bitfield, get_bit, new_bitfield, popcount, set_bit,
};

#[test]
fn test_bitfield_size() {
    assert_eq!(new_bitfield(0).len(), 0);
    assert_eq!(new_bitfield(1).len(), 1);
    assert_eq!(new_bitfield(7).len(), 1);
    assert_eq!(new_bitfield(8).len(), 1);
    assert_eq!(new_bitfield(9).len(), 2);
    assert_eq!(new_bitfield(16).len(), 2);
    assert_eq!(new_bitfield(17).len(), 3);
}

#[test]
fn test_set_get_bit() {
    let mut bf = new_bitfield(16);
    assert!(!get_bit(&bf, 0));
    assert!(!get_bit(&bf, 7));
    assert!(!get_bit(&bf, 15));

    set_bit(&mut bf, 0);
    set_bit(&mut bf, 7);
    set_bit(&mut bf, 15);

    assert!(get_bit(&bf, 0));
    assert!(get_bit(&bf, 7));
    assert!(get_bit(&bf, 15));
    assert!(!get_bit(&bf, 1));
    assert!(!get_bit(&bf, 8));
    assert!(!get_bit(&bf, 14));

    // MSB-first: bit 0 is 0x80 in byte 0
    assert_eq!(bf[0], 0x81); // bits 0 and 7
    assert_eq!(bf[1], 0x01); // bit 15 (= bit 7 of byte 1)
}

#[test]
fn test_popcount() {
    let mut bf = new_bitfield(32);
    assert_eq!(popcount(&bf, 32), 0);

    set_bit(&mut bf, 0);
    set_bit(&mut bf, 10);
    set_bit(&mut bf, 31);
    assert_eq!(popcount(&bf, 32), 3);

    // Full bitfield
    let mut bf = new_bitfield(8);
    for i in 0..8 {
        set_bit(&mut bf, i);
    }
    assert_eq!(popcount(&bf, 8), 8);
}

#[test]
fn test_bitfield_to_initial_have() {
    let mut bf = new_bitfield(4);
    set_bit(&mut bf, 1);
    set_bit(&mut bf, 3);

    let have = bitfield_to_initial_have(&bf, 4);
    assert_eq!(have, vec![false, true, false, true]);
}

#[test]
fn test_bitfield_roundtrip() {
    for count in [0, 1, 7, 8, 9, 15, 16, 100, 255] {
        let mut bf = new_bitfield(count);
        for i in 0..count {
            set_bit(&mut bf, i);
        }
        assert_eq!(
            popcount(&bf, count),
            count,
            "roundtrip failed for count={count}"
        );
        let have = bitfield_to_initial_have(&bf, count);
        assert!(
            have.iter().all(|&b| b),
            "all should be true for count={count}"
        );
    }
}

#[test]
fn bits_past_the_end_are_ignored_and_clear() {
    let mut bf = new_bitfield(8);
    set_bit(&mut bf, 8);
    set_bit(&mut bf, u32::MAX);
    assert_eq!(bf, vec![0u8]);
    assert!(!get_bit(&bf, 8));
    assert!(!get_bit(&bf, u32::MAX));
    assert_eq!(bitfield_to_initial_have(&bf, 10), vec![false; 10]);
}

#[test]
fn setting_a_bit_twice_counts_once() {
    let mut bf = new_bitfield(20);
    set_bit(&mut bf, 19);
    set_bit(&mut bf, 19);
    assert_eq!(popcount(&bf, 20), 1);
    assert_eq!(bf, vec![0x00, 0x00, 0x10]);
}

#[test]
fn full_field_has_exactly_its_bits() {
    assert_eq!(full_bitfield(0), Vec::<u8>::new());
    assert_eq!(full_bitfield(3), vec![0xe0]);
    assert_eq!(full_bitfield(8), vec![0xff]);
    assert_eq!(full_bitfield(13), vec![0xff, 0xf8]);
    assert_eq!(popcount(&full_bitfield(13), 13), 13);
    assert_eq!(popcount(&full_bitfield(13), 16), 13);
}
