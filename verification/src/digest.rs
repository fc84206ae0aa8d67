//! The digest: the state that is left when every block of the input has been
//! mixed in, starting from the all-zero state.
use vstd::prelude::*;
use vstd::slice::slice_subrange;
use crate::mixing::{mix_block, process_block, Mixing, BLOCK_SIZE, KEY_SIZE};

verus! {

/// The state before any input: eight zero bytes.
pub open spec fn initial_state() -> Seq<u8> {
    Seq::new(8, |i: int| 0u8)
}

/// The number of blocks in an input of `len` bytes. All blocks are full but
/// possibly the last one; an empty input has no block.
pub open spec fn block_count(len: nat) -> nat {
    ((len + 143) / 144) as nat
}

/// Block `k` of the input: the bytes from `144 * k` up to the next multiple
/// of 144, or up to the end of the input where that comes first.
pub open spec fn block_of(input: Seq<u8>, k: int) -> Seq<u8> {
    input.subrange(
        144 * k,
        if 144 * (k + 1) <= input.len() {
            144 * (k + 1)
        } else {
            input.len() as int
        },
    )
}

/// The state after the first `n` blocks of the input.
pub open spec fn absorb(mixing: Mixing, key: Seq<u8>, input: Seq<u8>, n: nat) -> Seq<u8>
    decreases n,
{
    if n == 0 {
        initial_state()
    } else {
        mix_block(
            mixing,
            absorb(mixing, key, input, (n - 1) as nat),
            key,
            block_of(input, n - 1),
        )
    }
}

/// The tag of `input` under `key`: the state after all its blocks.
pub open spec fn digest_spec(mixing: Mixing, key: Seq<u8>, input: Seq<u8>) -> Seq<u8> {
    absorb(mixing, key, input, block_count(input.len()))
}

/// Computes the tag of `input` under `key`, in the given form of the digest.
///
/// The key must have exactly twelve bytes; the input may have any length.
pub fn digest(mixing: Mixing, key: &[u8], input: &[u8]) -> (tag: [u8; 8])
    requires
        key@.len() == KEY_SIZE,
    ensures
        tag@ == digest_spec(mixing, key@, input@),
        input@.len() == 0 ==> tag@ == initial_state(),
{
    let mut state: [u8; 8] = [0u8; 8];
    let mut start: usize = 0;
    let ghost mut n: nat = 0;
    assert(state@ =~= initial_state());
    while start < input.len()
        invariant
            key@.len() == KEY_SIZE,
            start <= input@.len(),
            start == 144 * n || (start == input@.len() && 144 * (n - 1) < start < 144 * n),
            state@ == absorb(mixing, key@, input@, n),
        decreases input@.len() - start,
    {
        let end: usize = if input.len() - start > BLOCK_SIZE {
            start + BLOCK_SIZE
        } else {
            input.len()
        };
        let block = slice_subrange(input, start, end);
        assert(block@ == block_of(input@, n as int));
        process_block(mixing, &mut state, key, block);
        start = end;
        proof {
            n = n + 1;
        }
    }
    state
}

/// Byte strings that can be digested.
pub trait OMADigest {
    /// The bytes that the digest reads.
    spec fn message(&self) -> Seq<u8>;

    /// Computes the tag of these bytes under `key`.
    ///
    /// The key must have exactly twelve bytes: a caller with a key of any
    /// other length has no call to make, and no tag is ever computed from a
    /// key that was cut or filled up. Each step rotates the combined byte
    /// (`Mixing::RotateSum`).
    fn oma_digest(&self, key: &[u8]) -> (tag: [u8; 8])
        requires
            key@.len() == KEY_SIZE,
        ensures
            tag@ == digest_spec(Mixing::RotateSum, key@, self.message()),
            self.message().len() == 0 ==> tag@ == initial_state(),
    ;
}

impl OMADigest for [u8] {
    open spec fn message(&self) -> Seq<u8> {
        self@
    }

    fn oma_digest(&self, key: &[u8]) -> (tag: [u8; 8]) {
        digest(Mixing::RotateSum, key, self)
    }
}

} // verus!
