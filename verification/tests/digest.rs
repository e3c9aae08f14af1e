use dataid::digest::{data_id_digest, HEAD_DID};

#[test]
fn empty_sketch_gives_the_header_alone() {
    assert_eq!(data_id_digest(&[]), vec![0x20]);
    assert_eq!(HEAD_DID, 0x20);
}

#[test]
fn first_bit_is_the_highest_of_the_first_byte() {
    assert_eq!(data_id_digest(&[1]), vec![0x20, 0b1000_0000]);
    assert_eq!(data_id_digest(&[0, 1]), vec![0x20, 0b0100_0000]);
    assert_eq!(data_id_digest(&[0, 0, 0, 0, 0, 0, 0, 1]), vec![0x20, 0b0000_0001]);
}

#[test]
fn last_byte_is_filled_up_with_unset_bits() {
    assert_eq!(data_id_digest(&[1, 2, 3]), vec![0x20, 0b1010_0000]);
    assert_eq!(data_id_digest(&[1; 9]), vec![0x20, 0xFF, 0x80]);
    assert_eq!(data_id_digest(&[2; 9]), vec![0x20, 0x00, 0x00]);
}

#[test]
fn only_the_lowest_bit_of_a_value_counts() {
    assert_eq!(
        data_id_digest(&[0xFFFF_FFFE, 0xFFFF_FFFF, 0x8000_0000, 0x8000_0001, 2, 3, 4, 5]),
        vec![0x20, 0b0101_0101]
    );
}

#[test]
fn sketch_of_sixty_four_values_gives_nine_bytes() {
    let sketch: Vec<u32> = (0..64).collect();
    assert_eq!(
        data_id_digest(&sketch),
        vec![0x20, 0x55, 0x55, 0x55, 0x55, 0x55, 0x55, 0x55, 0x55]
    );
    let mut mixed = vec![0u32; 64];
    for at in [0usize, 7, 8, 30, 63] {
        mixed[at] = 0x1234_5679;
    }
    assert_eq!(
        data_id_digest(&mixed),
        vec![0x20, 0x81, 0x80, 0x00, 0x02, 0x00, 0x00, 0x00, 0x01]
    );
}
