use dataid::boundary::{chunk_end, chunk_length};
use dataid::params::ParameterSet;

fn uniform(weight: u64) -> [u64; 256] {
    [weight; 256]
}

fn stepped() -> [u64; 256] {
    let mut gear = [1u64; 256];
    gear[1] = 2;
    gear[2] = 4;
    gear
}

fn zeros_with(len: usize, marks: &[(usize, u8)]) -> Vec<u8> {
    let mut data = vec![0u8; len];
    for &(at, byte) in marks {
        data[at] = byte;
    }
    data
}

#[test]
fn window_up_to_minimum_size_is_one_chunk() {
    let gear = uniform(0);
    assert_eq!(chunk_length(&[], &gear, 40, 20, 640, 1, 1), 0);
    assert_eq!(chunk_length(&[7u8; 5], &gear, 40, 20, 640, 1, 1), 5);
    assert_eq!(chunk_length(&[7u8; 19], &gear, 40, 20, 640, 1, 1), 19);
    assert_eq!(chunk_length(&[7u8; 20], &gear, 40, 20, 640, 1, 1), 20);
}

#[test]
fn window_just_over_minimum_size_is_scanned() {
    // All weights zero: the pattern is zero at the first offset tested.
    let gear = uniform(0);
    assert_eq!(chunk_length(&[7u8; 21], &gear, 40, 20, 640, 1, 1), 20);
}

#[test]
fn zeros_without_match_form_one_chunk() {
    // Every weight is odd, so the lowest bit of the pattern is always set.
    let gear = uniform(1);
    assert_eq!(chunk_length(&[0u8; 50], &gear, 40, 20, 640, 1, 1), 50);
}

#[test]
fn without_match_the_chunk_is_cut_at_maximum_size() {
    let gear = uniform(1);
    assert_eq!(chunk_length(&[0u8; 639], &gear, 40, 20, 640, 1, 1), 639);
    assert_eq!(chunk_length(&[0u8; 640], &gear, 40, 20, 640, 1, 1), 640);
    assert_eq!(chunk_length(&[0u8; 641], &gear, 40, 20, 640, 1, 1), 640);
    assert_eq!(chunk_length(&[0u8; 1000], &gear, 40, 20, 640, 1, 1), 640);
}

#[test]
fn match_under_primary_mask_ends_the_chunk() {
    // Byte 1 has an even weight: the pattern's lowest bit is clear right there.
    let gear = stepped();
    let data = zeros_with(100, &[(30, 1)]);
    assert_eq!(chunk_length(&data, &gear, 40, 20, 640, 1, 1), 30);
    let at_minimum = zeros_with(100, &[(20, 1)]);
    assert_eq!(chunk_length(&at_minimum, &gear, 40, 20, 640, 1, 1), 20);
    let last_of_primary = zeros_with(100, &[(39, 1)]);
    assert_eq!(chunk_length(&last_of_primary, &gear, 40, 20, 640, 1, 1), 39);
}

#[test]
fn matches_before_minimum_size_are_not_seen() {
    let gear = stepped();
    let data = zeros_with(100, &[(3, 1), (10, 1), (19, 1), (25, 1)]);
    assert_eq!(chunk_length(&data, &gear, 40, 20, 640, 1, 1), 25);
}

#[test]
fn first_match_wins() {
    let gear = stepped();
    let data = zeros_with(100, &[(27, 1), (33, 1), (60, 1)]);
    assert_eq!(chunk_length(&data, &gear, 40, 20, 640, 1, 1), 27);
}

#[test]
fn secondary_mask_applies_from_normalized_size_on() {
    // Byte 2 after a zero byte leaves the two lowest bits of the pattern at 10:
    // no match under mask 3, a match under mask 1.
    let gear = stepped();
    let data = zeros_with(100, &[(30, 2), (50, 2)]);
    assert_eq!(chunk_length(&data, &gear, 40, 20, 640, 3, 1), 50);
    let before_norm = zeros_with(100, &[(39, 2)]);
    assert_eq!(chunk_length(&before_norm, &gear, 40, 20, 640, 3, 1), 100);
    let at_norm = zeros_with(100, &[(40, 2)]);
    assert_eq!(chunk_length(&at_norm, &gear, 40, 20, 640, 3, 1), 40);
    // Byte 1 after a zero byte clears both bits: a match under mask 3.
    let primary = zeros_with(100, &[(30, 1)]);
    assert_eq!(chunk_length(&primary, &gear, 40, 20, 640, 3, 1), 30);
}

#[test]
fn pattern_is_carried_from_primary_to_secondary_scan() {
    // With all weights 1 the pattern is 2^k - 1 after k bytes, so its second
    // bit is set from the second byte on. A pattern that started afresh at the
    // normalized size would have that bit clear there.
    let gear = uniform(1);
    assert_eq!(chunk_length(&[0u8; 100], &gear, 40, 20, 640, 1, 2), 100);
}

#[test]
fn pattern_shifts_left_and_adds_the_weight() {
    let mut gear = [0u64; 256];
    for (byte, weight) in gear.iter_mut().enumerate() {
        *weight = byte as u64 + 1;
    }
    // Offset 2: pattern 3. Offset 3: pattern 2 * 3 + 2 = 8, no bit of mask 7.
    let data = [9u8, 9, 2, 1, 0, 0, 0, 0, 0, 0];
    assert_eq!(chunk_length(&data, &gear, 4, 2, 8, 7, 7), 3);
}

#[test]
fn pattern_wraps_around() {
    let top = 1u64 << 63;
    let gear = uniform(top + (1u64 << 62));
    // Offset 2: the top bit is set. Offset 3: the shift drops it and the sum
    // overflows once more, which leaves 2^62.
    assert_eq!(chunk_length(&[0u8; 10], &gear, 8, 2, 16, top, top), 3);
}

#[test]
fn window_shorter_than_normalized_size_is_scanned_to_its_end() {
    let gear = stepped();
    let none = zeros_with(30, &[]);
    assert_eq!(chunk_length(&none, &gear, 40, 20, 640, 1, 1), 30);
    let last = zeros_with(30, &[(29, 1)]);
    assert_eq!(chunk_length(&last, &gear, 40, 20, 640, 1, 1), 29);
}

#[test]
fn equal_sizes_cut_at_that_size() {
    let gear = uniform(1);
    assert_eq!(chunk_length(&[0u8; 100], &gear, 16, 16, 16, 1, 1), 16);
    assert_eq!(chunk_length(&[0u8; 16], &gear, 16, 16, 16, 1, 1), 16);
    assert_eq!(chunk_length(&[0u8; 7], &gear, 16, 16, 16, 1, 1), 7);
}

#[test]
fn bytes_past_the_maximum_size_do_not_matter() {
    let gear = stepped();
    let mut a = zeros_with(2000, &[(700, 1), (1500, 1)]);
    let b = zeros_with(640, &[]);
    assert_eq!(chunk_length(&a, &gear, 40, 20, 640, 1, 1), 640);
    assert_eq!(chunk_length(&b, &gear, 40, 20, 640, 1, 1), 640);
    a[500] = 1;
    assert_eq!(chunk_length(&a, &gear, 40, 20, 640, 1, 1), 500);
    assert_eq!(chunk_length(&a[..640], &gear, 40, 20, 640, 1, 1), 500);
}

#[test]
fn chunk_end_uses_the_parameter_set() {
    let gear = stepped();
    let set = ParameterSet::new(40, 20, 640, 3, 1).unwrap();
    let data = zeros_with(100, &[(30, 2), (50, 2)]);
    assert_eq!(chunk_end(&data, &gear, &set), 50);
    assert_eq!(chunk_end(&data[..10], &gear, &set), 10);
    let fine = ParameterSet::fine();
    // Weight 0x18 keeps bit 3 and bit 5 of the pattern set: no match in the fine phase.
    assert_eq!(chunk_end(&[0u8; 50], &uniform(0x18), &fine), 50);
    assert_eq!(chunk_end(&[0u8; 5000], &uniform(0x18), &fine), 640);
    // In the coarse phase the first pattern, 0x18, has no bit of either mask.
    let coarse = ParameterSet::coarse();
    assert_eq!(chunk_end(&[0u8; 5000], &uniform(0x18), &coarse), 2048);
    assert_eq!(chunk_end(&[0u8; 2048], &uniform(0x18), &coarse), 2048);
    assert_eq!(chunk_end(&[0u8; 2000], &uniform(0x18), &coarse), 2000);
}
