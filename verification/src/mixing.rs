//! The mixing function: how one block of input changes the eight-byte state
//! under a twelve-byte key.
//!
//! A block is mixed in 144 steps, one for each byte position of a full block.
//! Step `l` belongs to round `l / 8`, which works with key byte
//! `(l / 8) % 12`, and rewrites the state byte at position `7 - l % 8`, so a
//! round walks the state from its last byte down to its first.
use vstd::prelude::*;
use crate::byte::{
    add8, bit_at, bit_is_set, complement, not8, rotate_left_one, rotate_right_one, rotl1, rotr1,
    sub8, wrapping_difference, wrapping_sum,
};

verus! {

/// The number of bytes in a key.
pub const KEY_SIZE: usize = 12;

/// The number of bytes in a full block of input.
pub const BLOCK_SIZE: usize = 144;

/// The number of bytes in the state, and so in a tag.
pub const STATE_SIZE: usize = 8;

/// Where a step applies its one-bit rotation.
///
/// Every step forms two bytes: the carried byte, which is the next state
/// byte plus the input byte, and the complemented term, which is the
/// complement of the current state byte plus its position. The key bit
/// decides between adding with a left rotation and subtracting with a right
/// rotation.
///
/// `RotateSum` is the digest proper, and the form that
/// `OMADigest::oma_digest` computes. `RotateTerm` is a second form, which
/// gives other tags; it is computed only where a caller of `digest` asks for
/// it.
#[derive(Clone, Copy, Debug, PartialEq, Eq)]
pub enum Mixing {
    /// The complemented term is added to or subtracted from the carried
    /// byte, then the result is rotated.
    RotateSum,
    /// The complemented term is rotated, then added to or subtracted from the
    /// carried byte.
    RotateTerm,
}

/// The byte that a step writes, from the key bit, the carried byte `yz` and
/// the complemented term `xc`.
pub open spec fn combine(mixing: Mixing, key_bit: bool, yz: u8, xc: u8) -> u8 {
    match mixing {
        Mixing::RotateSum => if key_bit {
            rotl1(add8(yz, xc))
        } else {
            rotr1(sub8(yz, xc))
        },
        Mixing::RotateTerm => if key_bit {
            add8(yz, rotl1(xc))
        } else {
            sub8(yz, rotr1(xc))
        },
    }
}

/// The state position that step `l` rewrites.
pub open spec fn position(l: int) -> int {
    7 - l % 8
}

/// The key bit that step `l` works with: bit `l % 8` of the round's key byte.
pub open spec fn key_bit(key: Seq<u8>, l: int) -> bool {
    bit_at(key[(l / 8) % 12], (l % 8) as u8)
}

/// The byte of the block at position `l`, or zero past the block's end: a
/// short block counts as filled up with zeros.
pub open spec fn padded_byte(block: Seq<u8>, l: int) -> u8 {
    if 0 <= l < block.len() {
        block[l]
    } else {
        0
    }
}

/// The byte that step `l` writes at `position(l)`.
pub open spec fn step_byte(mixing: Mixing, state: Seq<u8>, key: Seq<u8>, block: Seq<u8>, l: int)
    -> u8 {
    let j = position(l);
    let yz = add8(state[(j + 1) % 8], padded_byte(block, l));
    let xc = not8(add8(state[j], j as u8));
    combine(mixing, key_bit(key, l), yz, xc)
}

/// The state after step `l` alone.
pub open spec fn step(mixing: Mixing, state: Seq<u8>, key: Seq<u8>, block: Seq<u8>, l: int) -> Seq<
    u8,
> {
    state.update(position(l), step_byte(mixing, state, key, block, l))
}

/// The state after the first `n` steps of a block, each step working on what
/// the steps before it left.
pub open spec fn mix(mixing: Mixing, state: Seq<u8>, key: Seq<u8>, block: Seq<u8>, n: nat) -> Seq<
    u8,
>
    decreases n,
{
    if n == 0 {
        state
    } else {
        step(mixing, mix(mixing, state, key, block, (n - 1) as nat), key, block, n - 1)
    }
}

/// The state after a whole block: all 144 steps.
pub open spec fn mix_block(mixing: Mixing, state: Seq<u8>, key: Seq<u8>, block: Seq<u8>) -> Seq<
    u8,
> {
    mix(mixing, state, key, block, BLOCK_SIZE as nat)
}

impl Mixing {
    /// Computes the byte that a step writes.
    pub fn combine(self, key_bit: bool, yz: u8, xc: u8) -> (r: u8)
        ensures
            r == combine(self, key_bit, yz, xc),
    {
        match self {
            Mixing::RotateSum => if key_bit {
                rotate_left_one(wrapping_sum(yz, xc))
            } else {
                rotate_right_one(wrapping_difference(yz, xc))
            },
            Mixing::RotateTerm => if key_bit {
                wrapping_sum(yz, rotate_left_one(xc))
            } else {
                wrapping_difference(yz, rotate_right_one(xc))
            },
        }
    }
}

/// Mixes one block into the state.
///
/// Bytes of `block` past the first 144 are not read; positions past the end
/// of a shorter block read as zero.
pub fn process_block(mixing: Mixing, state: &mut [u8; 8], key: &[u8], block: &[u8])
    requires
        key@.len() == KEY_SIZE,
    ensures
        final(state)@ == mix_block(mixing, old(state)@, key@, block@),
{
    let mut l: usize = 0;
    while l < BLOCK_SIZE
        invariant
            l <= BLOCK_SIZE,
            key@.len() == KEY_SIZE,
            state@ == mix(mixing, old(state)@, key@, block@, l as nat),
        decreases BLOCK_SIZE - l,
    {
        let j: usize = 7 - l % 8;
        let bit = bit_is_set(key[(l / 8) % KEY_SIZE], (l % 8) as u8);
        let block_byte: u8 = if l < block.len() {
            block[l]
        } else {
            0
        };
        let yz = wrapping_sum(state[(j + 1) % 8], block_byte);
        let xc = complement(wrapping_sum(state[j], j as u8));
        state[j] = mixing.combine(bit, yz, xc);
        l += 1;
    }
}

} // verus!
