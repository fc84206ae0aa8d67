//! A keyed digest over byte strings that yields an eight-byte tag.
//!
//! The input is read in blocks of 144 bytes. Each block is mixed into an
//! eight-byte state under a twelve-byte key; the state after the last block
//! is the tag. `digest_spec` says what the tag is. The digest proper rotates
//! the combined byte in each step (`Mixing::RotateSum`): that is what
//! `OMADigest::oma_digest` is proved to compute. `digest` computes either
//! that form or the one that rotates the complemented term
//! (`Mixing::RotateTerm`), as its caller asks.
pub mod byte;
pub mod digest;
pub mod laws;
pub mod mixing;

pub use crate::digest::{digest, OMADigest};
pub use crate::mixing::{process_block, Mixing, BLOCK_SIZE, KEY_SIZE, STATE_SIZE};
