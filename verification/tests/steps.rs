use oma_digest::byte::{
    bit_is_set, complement, rotate_left_one, rotate_right_one, wrapping_difference, wrapping_sum,
};
use oma_digest::{digest, process_block, Mixing, BLOCK_SIZE, KEY_SIZE, STATE_SIZE};

const KEY_COUNTING: [u8; 12] = [0x00, 0x01, 0x02, 0x03, 0x04, 0x05, 0x06, 0x07, 0x08, 0x09, 0x01, 0x02];

fn pattern(n: usize) -> Vec<u8> {
    (0..n).map(|i| ((i * 7 + 3) & 255) as u8).collect()
}

#[test]
fn sizes() {
    assert_eq!(KEY_SIZE, 12);
    assert_eq!(BLOCK_SIZE, 144);
    assert_eq!(STATE_SIZE, 8);
    assert_eq!(BLOCK_SIZE, 18 * STATE_SIZE);
}

#[test]
fn sums_wrap_around() {
    assert_eq!(wrapping_sum(200, 100), 44);
    assert_eq!(wrapping_sum(255, 1), 0);
    assert_eq!(wrapping_sum(1, 2), 3);
    assert_eq!(wrapping_difference(0, 1), 255);
    assert_eq!(wrapping_difference(100, 200), 156);
    assert_eq!(wrapping_difference(9, 4), 5);
}

#[test]
fn complement_inverts_each_bit() {
    assert_eq!(complement(0x00), 0xff);
    assert_eq!(complement(0x0f), 0xf0);
    assert_eq!(complement(0xa5), 0x5a);
}

#[test]
fn rotations_are_circular() {
    assert_eq!(rotate_left_one(0x81), 0x03);
    assert_eq!(rotate_left_one(0x80), 0x01);
    assert_eq!(rotate_left_one(0x01), 0x02);
    assert_eq!(rotate_right_one(0x81), 0xc0);
    assert_eq!(rotate_right_one(0x01), 0x80);
    assert_eq!(rotate_right_one(0x80), 0x40);
    for a in 0..=255u8 {
        assert_eq!(rotate_left_one(a), a.rotate_left(1));
        assert_eq!(rotate_right_one(a), a.rotate_right(1));
        assert_eq!(rotate_right_one(rotate_left_one(a)), a);
    }
}

#[test]
fn bits_count_from_the_least_significant() {
    assert!(bit_is_set(0x01, 0));
    assert!(!bit_is_set(0x01, 7));
    assert!(bit_is_set(0x80, 7));
    assert!(!bit_is_set(0xdf, 5));
    assert!(bit_is_set(0xdf, 4));
}

#[test]
fn combine_rotated_term() {
    assert_eq!(Mixing::RotateTerm.combine(true, 0xc8, 0x93), 239);
    assert_eq!(Mixing::RotateTerm.combine(false, 0xc8, 0x93), 255);
}

#[test]
fn combine_rotated_sum() {
    assert_eq!(Mixing::RotateSum.combine(true, 0xc8, 0x93), 182);
    assert_eq!(Mixing::RotateSum.combine(false, 0xc8, 0x93), 154);
}

#[test]
fn empty_block_still_mixes_the_state() {
    let mut state = [1u8, 2, 3, 4, 5, 6, 7, 8];
    process_block(Mixing::RotateTerm, &mut state, &KEY_COUNTING, &[]);
    assert_eq!(state, [0xd2, 0xf0, 0x2a, 0x7a, 0x92, 0x9a, 0x19, 0xa9]);
    let mut state = [1u8, 2, 3, 4, 5, 6, 7, 8];
    process_block(Mixing::RotateSum, &mut state, &KEY_COUNTING, &[]);
    assert_eq!(state, [0x9f, 0xb8, 0x98, 0xe2, 0x90, 0x71, 0xca, 0x9b]);
}

#[test]
fn bytes_past_a_full_block_are_not_read() {
    let mut long = [1u8, 2, 3, 4, 5, 6, 7, 8];
    process_block(Mixing::RotateTerm, &mut long, &KEY_COUNTING, &pattern(200));
    let mut full = [1u8, 2, 3, 4, 5, 6, 7, 8];
    process_block(Mixing::RotateTerm, &mut full, &KEY_COUNTING, &pattern(144));
    assert_eq!(long, [0x14, 0xec, 0x24, 0x83, 0xf3, 0x0d, 0x3f, 0xe5]);
    assert_eq!(full, long);
    let mut long = [1u8, 2, 3, 4, 5, 6, 7, 8];
    process_block(Mixing::RotateSum, &mut long, &KEY_COUNTING, &pattern(200));
    assert_eq!(long, [0x67, 0x00, 0xb0, 0x75, 0x24, 0xf2, 0x1f, 0xfa]);
}

#[test]
fn digest_is_block_after_block() {
    let data = pattern(300);
    for mixing in [Mixing::RotateTerm, Mixing::RotateSum] {
        let mut state = [0u8; 8];
        process_block(mixing, &mut state, &KEY_COUNTING, &data[..144]);
        process_block(mixing, &mut state, &KEY_COUNTING, &data[144..288]);
        process_block(mixing, &mut state, &KEY_COUNTING, &data[288..]);
        assert_eq!(digest(mixing, &KEY_COUNTING, &data), state);
    }
}

#[test]
fn mixing_values_compare_and_copy() {
    let m = Mixing::RotateSum;
    let n = m;
    assert_eq!(m, n);
    assert_ne!(Mixing::RotateTerm, Mixing::RotateSum);
    assert_eq!(format!("{:?}", m.clone()), "RotateSum");
}
