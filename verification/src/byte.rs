//! Arithmetic on single bytes: sums and differences modulo 256, the one's
//! complement, and circular shifts by one bit.
//!
//! Each operation is stated as plain integer arithmetic, and the executable
//! form is proved to compute it. The lemmas say that every operation can be
//! undone, which is what makes the digest sensitive to each byte it reads.
use vstd::prelude::*;

verus! {

/// The sum of two bytes modulo 256.
pub open spec fn add8(a: u8, b: u8) -> u8 {
    ((a + b) % 256) as u8
}

/// The difference of two bytes modulo 256.
pub open spec fn sub8(a: u8, b: u8) -> u8 {
    ((a - b) % 256) as u8
}

/// The one's complement of a byte: every bit inverted.
pub open spec fn not8(a: u8) -> u8 {
    (255 - a) as u8
}

/// A byte rotated left by one bit: the top bit comes back in at the bottom.
pub open spec fn rotl1(a: u8) -> u8 {
    ((2 * a) % 256 + a / 128) as u8
}

/// A byte rotated right by one bit: the bottom bit comes back in at the top.
pub open spec fn rotr1(a: u8) -> u8 {
    (a / 2 + 128 * (a % 2)) as u8
}

/// Whether bit `n` of `a` is set, bit 0 being the least significant.
pub open spec fn bit_at(a: u8, n: u8) -> bool {
    (a >> n) & 1 == 1
}

/// Adds two bytes, discarding the carry.
pub fn wrapping_sum(a: u8, b: u8) -> (r: u8)
    ensures
        r == add8(a, b),
{
    a.wrapping_add(b)
}

/// Subtracts `b` from `a`, discarding the borrow.
pub fn wrapping_difference(a: u8, b: u8) -> (r: u8)
    ensures
        r == sub8(a, b),
{
    a.wrapping_sub(b)
}

/// Inverts every bit of a byte.
pub fn complement(a: u8) -> (r: u8)
    ensures
        r == not8(a),
{
    assert(!a == (255 - a) as u8) by (bit_vector);
    !a
}

/// Rotates a byte left by one bit.
pub fn rotate_left_one(a: u8) -> (r: u8)
    ensures
        r == rotl1(a),
{
    assert((a << 1) | (a >> 7) == ((2 * a) % 256 + a / 128) as u8) by (bit_vector);
    (a << 1) | (a >> 7)
}

/// Rotates a byte right by one bit.
pub fn rotate_right_one(a: u8) -> (r: u8)
    ensures
        r == rotr1(a),
{
    assert((a >> 1) | (a << 7) == (a / 2 + 128 * (a % 2)) as u8) by (bit_vector);
    (a >> 1) | (a << 7)
}

/// Reads bit `n` of a byte, bit 0 being the least significant.
pub fn bit_is_set(a: u8, n: u8) -> (r: bool)
    requires
        n < 8,
    ensures
        r == bit_at(a, n),
{
    (a >> n) & 1 == 1
}

/// Subtracting undoes adding, and adding undoes subtracting.
pub proof fn lemma_add_sub_inverse(a: u8, b: u8)
    ensures
        sub8(add8(a, b), b) == a,
        sub8(add8(a, b), a) == b,
        add8(sub8(a, b), b) == a,
        sub8(a, sub8(a, b)) == b,
{
}

/// The two rotations undo each other.
pub proof fn lemma_rotations_inverse(a: u8)
    ensures
        rotr1(rotl1(a)) == a,
        rotl1(rotr1(a)) == a,
{
}

} // verus!
