//! What holds of the digest for every key and every input.
//!
//! Each step of the mixing function can be undone, so a difference between
//! two states is never lost again, and a block is read only through its
//! zero-padded bytes. The laws on whole inputs follow from these two facts.
use vstd::prelude::*;
use crate::byte::{
    add8, lemma_add_sub_inverse, lemma_rotations_inverse, not8, rotl1, rotr1, sub8,
};
use crate::digest::{absorb, block_count, block_of, digest_spec, initial_state};
use crate::mixing::{
    combine, key_bit, mix, mix_block, padded_byte, position, step, step_byte, Mixing,
};

verus! {

/// For a fixed key bit and carried byte, different complemented terms give
/// different bytes; for a fixed key bit and complemented term, different
/// carried bytes give different bytes.
pub proof fn lemma_combine_injective(mixing: Mixing, bit: bool, yz1: u8, xc1: u8, yz2: u8, xc2: u8)
    requires
        combine(mixing, bit, yz1, xc1) == combine(mixing, bit, yz2, xc2),
    ensures
        yz1 == yz2 ==> xc1 == xc2,
        xc1 == xc2 ==> yz1 == yz2,
{
    match mixing {
        Mixing::RotateTerm => {
            if bit {
                lemma_add_sub_inverse(yz1, rotl1(xc1));
                lemma_add_sub_inverse(yz2, rotl1(xc2));
            } else {
                lemma_add_sub_inverse(yz1, rotr1(xc1));
                lemma_add_sub_inverse(yz2, rotr1(xc2));
            }
            lemma_rotations_inverse(xc1);
            lemma_rotations_inverse(xc2);
        },
        Mixing::RotateSum => {
            if bit {
                lemma_rotations_inverse(add8(yz1, xc1));
                lemma_rotations_inverse(add8(yz2, xc2));
            } else {
                lemma_rotations_inverse(sub8(yz1, xc1));
                lemma_rotations_inverse(sub8(yz2, xc2));
            }
            lemma_add_sub_inverse(yz1, xc1);
            lemma_add_sub_inverse(yz2, xc2);
        },
    }
}

/// A step keeps the state eight bytes long.
pub proof fn lemma_mix_length(mixing: Mixing, state: Seq<u8>, key: Seq<u8>, block: Seq<u8>, n: nat)
    requires
        state.len() == 8,
    ensures
        mix(mixing, state, key, block, n).len() == 8,
    decreases n,
{
    if n > 0 {
        lemma_mix_length(mixing, state, key, block, (n - 1) as nat);
    }
}

/// A step can be undone: two states that one step, reading the same byte,
/// takes to the same state are the same state.
pub proof fn lemma_step_injective(
    mixing: Mixing,
    s1: Seq<u8>,
    s2: Seq<u8>,
    key: Seq<u8>,
    b1: Seq<u8>,
    b2: Seq<u8>,
    l: int,
)
    requires
        s1.len() == 8,
        s2.len() == 8,
        0 <= l,
        padded_byte(b1, l) == padded_byte(b2, l),
        step(mixing, s1, key, b1, l) == step(mixing, s2, key, b2, l),
    ensures
        s1 == s2,
{
    let j = position(l);
    let j1 = (j + 1) % 8;
    let t1 = step(mixing, s1, key, b1, l);
    let t2 = step(mixing, s2, key, b2, l);
    assert forall|k: int| 0 <= k < 8 && k != j implies s1[k] == s2[k] by {
        assert(t1[k] == s1[k]);
        assert(t2[k] == s2[k]);
    }
    assert(s1[j1] == s2[j1]);
    assert(t1[j] == step_byte(mixing, s1, key, b1, l));
    assert(t2[j] == step_byte(mixing, s2, key, b2, l));
    let yz = add8(s1[j1], padded_byte(b1, l));
    let xc1 = not8(add8(s1[j], j as u8));
    let xc2 = not8(add8(s2[j], j as u8));
    lemma_combine_injective(mixing, key_bit(key, l), yz, xc1, yz, xc2);
    assert(s1[j] == s2[j]);
    assert(s1 =~= s2);
}

/// A block is read only through its zero-padded bytes: two blocks that agree
/// on the first `n` of them take a state to the same state in `n` steps.
pub proof fn lemma_mix_reads_padded(
    mixing: Mixing,
    state: Seq<u8>,
    key: Seq<u8>,
    b1: Seq<u8>,
    b2: Seq<u8>,
    n: nat,
)
    requires
        forall|l: int| 0 <= l < n ==> padded_byte(b1, l) == padded_byte(b2, l),
    ensures
        mix(mixing, state, key, b1, n) == mix(mixing, state, key, b2, n),
    decreases n,
{
    if n > 0 {
        lemma_mix_reads_padded(mixing, state, key, b1, b2, (n - 1) as nat);
        assert(padded_byte(b1, n - 1) == padded_byte(b2, n - 1));
    }
}

/// A difference between two states is never lost: if the states differ after
/// `p` steps and the blocks agree on every zero-padded byte from `p` on, the
/// states differ after any later step too.
pub proof fn lemma_mix_keeps_difference(
    mixing: Mixing,
    s1: Seq<u8>,
    s2: Seq<u8>,
    key: Seq<u8>,
    b1: Seq<u8>,
    b2: Seq<u8>,
    p: nat,
    n: nat,
)
    requires
        s1.len() == 8,
        s2.len() == 8,
        p <= n,
        mix(mixing, s1, key, b1, p) != mix(mixing, s2, key, b2, p),
        forall|l: int| p <= l < n ==> padded_byte(b1, l) == padded_byte(b2, l),
    ensures
        mix(mixing, s1, key, b1, n) != mix(mixing, s2, key, b2, n),
    decreases n,
{
    if n > p {
        let m = (n - 1) as nat;
        lemma_mix_keeps_difference(mixing, s1, s2, key, b1, b2, p, m);
        lemma_mix_length(mixing, s1, key, b1, m);
        lemma_mix_length(mixing, s2, key, b2, m);
        assert(padded_byte(b1, m as int) == padded_byte(b2, m as int));
        if mix(mixing, s1, key, b1, n) == mix(mixing, s2, key, b2, n) {
            lemma_step_injective(
                mixing,
                mix(mixing, s1, key, b1, m),
                mix(mixing, s2, key, b2, m),
                key,
                b1,
                b2,
                m as int,
            );
        }
    }
}

/// A step that reads two different bytes from one state leaves two different
/// states.
pub proof fn lemma_step_tells_bytes_apart(
    mixing: Mixing,
    state: Seq<u8>,
    key: Seq<u8>,
    b1: Seq<u8>,
    b2: Seq<u8>,
    l: int,
)
    requires
        state.len() == 8,
        0 <= l,
        padded_byte(b1, l) != padded_byte(b2, l),
    ensures
        step(mixing, state, key, b1, l) != step(mixing, state, key, b2, l),
{
    let j = position(l);
    let j1 = (j + 1) % 8;
    let xc = not8(add8(state[j], j as u8));
    let yz1 = add8(state[j1], padded_byte(b1, l));
    let yz2 = add8(state[j1], padded_byte(b2, l));
    lemma_add_sub_inverse(state[j1], padded_byte(b1, l));
    lemma_add_sub_inverse(state[j1], padded_byte(b2, l));
    assert(yz1 != yz2);
    if combine(mixing, key_bit(key, l), yz1, xc) == combine(mixing, key_bit(key, l), yz2, xc) {
        lemma_combine_injective(mixing, key_bit(key, l), yz1, xc, yz2, xc);
    }
    assert(step(mixing, state, key, b1, l)[j] == step_byte(mixing, state, key, b1, l));
    assert(step(mixing, state, key, b2, l)[j] == step_byte(mixing, state, key, b2, l));
}

/// The state stays eight bytes long over any number of blocks.
pub proof fn lemma_absorb_length(mixing: Mixing, key: Seq<u8>, input: Seq<u8>, n: nat)
    ensures
        absorb(mixing, key, input, n).len() == 8,
    decreases n,
{
    if n > 0 {
        lemma_absorb_length(mixing, key, input, (n - 1) as nat);
        lemma_mix_length(
            mixing,
            absorb(mixing, key, input, (n - 1) as nat),
            key,
            block_of(input, n - 1),
            144,
        );
    }
}

/// Byte `l` of block `k`, zero-padded, is byte `144 * k + l` of the input,
/// zero-padded.
pub proof fn lemma_block_byte(input: Seq<u8>, k: int, l: int)
    requires
        0 <= k,
        144 * k <= input.len(),
        0 <= l < 144,
    ensures
        padded_byte(block_of(input, k), l) == padded_byte(input, 144 * k + l),
{
}

/// The state after `n` blocks depends on the input only through its first
/// `144 * n` zero-padded bytes.
pub proof fn lemma_absorb_reads_padded(mixing: Mixing, key: Seq<u8>, a: Seq<u8>, b: Seq<u8>, n: nat)
    requires
        n <= block_count(a.len()),
        n <= block_count(b.len()),
        forall|i: int| 0 <= i < 144 * n ==> padded_byte(a, i) == padded_byte(b, i),
    ensures
        absorb(mixing, key, a, n) == absorb(mixing, key, b, n),
    decreases n,
{
    if n > 0 {
        let k = n - 1;
        lemma_absorb_reads_padded(mixing, key, a, b, k as nat);
        assert forall|l: int| 0 <= l < 144 implies padded_byte(block_of(a, k), l) == padded_byte(
            block_of(b, k),
            l,
        ) by {
            lemma_block_byte(a, k, l);
            lemma_block_byte(b, k, l);
            assert(padded_byte(a, 144 * k + l) == padded_byte(b, 144 * k + l));
        }
        lemma_mix_reads_padded(
            mixing,
            absorb(mixing, key, a, k as nat),
            key,
            block_of(a, k),
            block_of(b, k),
            144,
        );
    }
}

/// A difference between the states after `p` blocks is still there after
/// `n` blocks, if the two inputs agree on every zero-padded byte of the
/// blocks from `p` on.
pub proof fn lemma_absorb_keeps_difference(
    mixing: Mixing,
    key: Seq<u8>,
    a: Seq<u8>,
    b: Seq<u8>,
    p: nat,
    n: nat,
)
    requires
        p <= n,
        n <= block_count(a.len()),
        n <= block_count(b.len()),
        absorb(mixing, key, a, p) != absorb(mixing, key, b, p),
        forall|i: int| 144 * p <= i < 144 * n ==> padded_byte(a, i) == padded_byte(b, i),
    ensures
        absorb(mixing, key, a, n) != absorb(mixing, key, b, n),
    decreases n,
{
    if n > p {
        let k = n - 1;
        lemma_absorb_keeps_difference(mixing, key, a, b, p, k as nat);
        lemma_absorb_length(mixing, key, a, k as nat);
        lemma_absorb_length(mixing, key, b, k as nat);
        assert forall|l: int| 0 <= l < 144 implies padded_byte(block_of(a, k), l) == padded_byte(
            block_of(b, k),
            l,
        ) by {
            lemma_block_byte(a, k, l);
            lemma_block_byte(b, k, l);
            assert(padded_byte(a, 144 * k + l) == padded_byte(b, 144 * k + l));
        }
        lemma_mix_keeps_difference(
            mixing,
            absorb(mixing, key, a, k as nat),
            absorb(mixing, key, b, k as nat),
            key,
            block_of(a, k),
            block_of(b, k),
            0,
            144,
        );
    }
}

/// Two inputs with the same number of blocks whose zero-padded bytes differ
/// at exactly one position of those blocks have different tags.
pub proof fn lemma_one_padded_byte_changes_tag(
    mixing: Mixing,
    key: Seq<u8>,
    a: Seq<u8>,
    b: Seq<u8>,
    i: int,
)
    requires
        block_count(a.len()) == block_count(b.len()),
        0 <= i < 144 * block_count(a.len()),
        padded_byte(a, i) != padded_byte(b, i),
        forall|k: int|
            0 <= k < 144 * block_count(a.len()) && k != i ==> padded_byte(a, k) == padded_byte(
                b,
                k,
            ),
    ensures
        digest_spec(mixing, key, a) != digest_spec(mixing, key, b),
{
    let n = block_count(a.len());
    let k = i / 144;
    let l = i % 144;
    lemma_absorb_reads_padded(mixing, key, a, b, k as nat);
    lemma_absorb_length(mixing, key, a, k as nat);
    let s = absorb(mixing, key, a, k as nat);
    let ba = block_of(a, k);
    let bb = block_of(b, k);
    assert forall|m: int| 0 <= m < 144 implies (padded_byte(ba, m) == padded_byte(bb, m)) == (m
        != l) by {
        lemma_block_byte(a, k, m);
        lemma_block_byte(b, k, m);
        if m != l {
            assert(padded_byte(a, 144 * k + m) == padded_byte(b, 144 * k + m));
        }
    }
    lemma_mix_reads_padded(mixing, s, key, ba, bb, l as nat);
    lemma_mix_length(mixing, s, key, ba, l as nat);
    lemma_step_tells_bytes_apart(mixing, mix(mixing, s, key, ba, l as nat), key, ba, bb, l);
    assert(mix(mixing, s, key, ba, (l + 1) as nat) != mix(mixing, s, key, bb, (l + 1) as nat));
    lemma_mix_keeps_difference(mixing, s, s, key, ba, bb, (l + 1) as nat, 144);
    assert(absorb(mixing, key, a, (k + 1) as nat) != absorb(mixing, key, b, (k + 1) as nat));
    lemma_absorb_keeps_difference(mixing, key, a, b, (k + 1) as nat, n);
}

/// A tag has eight bytes.
pub proof fn lemma_digest_length(mixing: Mixing, key: Seq<u8>, input: Seq<u8>)
    ensures
        digest_spec(mixing, key, input).len() == 8,
{
    lemma_absorb_length(mixing, key, input, block_count(input.len()));
}

/// The tag is a function of the bytes of the key and of the input: two keys
/// with the same bytes and two inputs with the same bytes give the same tag,
/// however often it is computed.
pub proof fn lemma_digest_deterministic(
    mixing: Mixing,
    key1: Seq<u8>,
    input1: Seq<u8>,
    key2: Seq<u8>,
    input2: Seq<u8>,
)
    requires
        key1.len() == key2.len(),
        forall|i: int| 0 <= i < key1.len() ==> key1[i] == key2[i],
        input1.len() == input2.len(),
        forall|i: int| 0 <= i < input1.len() ==> input1[i] == input2[i],
    ensures
        digest_spec(mixing, key1, input1) == digest_spec(mixing, key2, input2),
{
    assert(key1 =~= key2);
    assert(input1 =~= input2);
}

/// The tag of the empty input is eight zero bytes, under every key.
pub proof fn lemma_empty_input(mixing: Mixing, key: Seq<u8>, input: Seq<u8>)
    requires
        input.len() == 0,
    ensures
        digest_spec(mixing, key, input) == initial_state(),
        forall|i: int| 0 <= i < 8 ==> digest_spec(mixing, key, input)[i] == 0,
{
}

/// Zero-padding cannot be told from zeros that are there: a zero byte added
/// to an input whose last block is short leaves the tag as it was.
pub proof fn lemma_zero_padding(mixing: Mixing, key: Seq<u8>, input: Seq<u8>)
    requires
        input.len() % 144 != 0,
    ensures
        digest_spec(mixing, key, input.push(0)) == digest_spec(mixing, key, input),
{
    let longer = input.push(0);
    let n = block_count(input.len());
    assert(block_count(longer.len()) == n);
    assert forall|i: int| 0 <= i < 144 * n implies padded_byte(longer, i) == padded_byte(
        input,
        i,
    ) by {}
    lemma_absorb_reads_padded(mixing, key, longer, input, n);
}

/// Every byte of the input counts: two inputs of one length that differ in
/// exactly one byte have different tags.
pub proof fn lemma_byte_change_changes_tag(
    mixing: Mixing,
    key: Seq<u8>,
    a: Seq<u8>,
    b: Seq<u8>,
    i: int,
)
    requires
        a.len() == b.len(),
        0 <= i < a.len(),
        a[i] != b[i],
        forall|k: int| 0 <= k < a.len() && k != i ==> a[k] == b[k],
    ensures
        digest_spec(mixing, key, a) != digest_spec(mixing, key, b),
{
    assert forall|k: int| 0 <= k < 144 * block_count(a.len()) && k != i implies padded_byte(a, k)
        == padded_byte(b, k) by {}
    lemma_one_padded_byte_changes_tag(mixing, key, a, b, i);
}

/// A short last block is told apart from the same block with one more byte
/// exactly when that byte is not zero.
pub proof fn lemma_short_block_told_apart(mixing: Mixing, key: Seq<u8>, input: Seq<u8>, x: u8)
    requires
        input.len() % 144 != 0,
    ensures
        (digest_spec(mixing, key, input.push(x)) == digest_spec(mixing, key, input)) <==> x == 0,
{
    if x == 0 {
        lemma_zero_padding(mixing, key, input);
    } else {
        let longer = input.push(x);
        let i = input.len() as int;
        assert(block_count(longer.len()) == block_count(input.len()));
        assert(padded_byte(longer, i) == x);
        assert(padded_byte(input, i) == 0);
        assert forall|k: int|
            0 <= k < 144 * block_count(longer.len()) && k != i implies padded_byte(longer, k)
            == padded_byte(input, k) by {}
        lemma_one_padded_byte_changes_tag(mixing, key, longer, input, i);
    }
}

/// The state is carried from block to block: the tag of an input made of
/// full blocks, with up to one block more behind it, is that block mixed into
/// the tag of the input.
pub proof fn lemma_one_more_block(mixing: Mixing, key: Seq<u8>, input: Seq<u8>, more: Seq<u8>)
    requires
        input.len() % 144 == 0,
        0 < more.len() <= 144,
    ensures
        digest_spec(mixing, key, input + more) == mix_block(
            mixing,
            digest_spec(mixing, key, input),
            key,
            more,
        ),
{
    let longer = input + more;
    let n = block_count(input.len());
    assert(144 * n == input.len());
    assert(block_count(longer.len()) == n + 1);
    assert forall|i: int| 0 <= i < 144 * n implies padded_byte(longer, i) == padded_byte(
        input,
        i,
    ) by {}
    lemma_absorb_reads_padded(mixing, key, longer, input, n);
    assert(block_of(longer, n as int) =~= more);
}

/// An input made of full blocks and the same input with one more byte have
/// the same tag exactly when the block of that one byte takes the tag of the
/// shorter input back to itself. Where it does not, the two are told apart.
pub proof fn lemma_block_boundary_told_apart(mixing: Mixing, key: Seq<u8>, input: Seq<u8>, x: u8)
    requires
        input.len() % 144 == 0,
    ensures
        digest_spec(mixing, key, input.push(x)) != digest_spec(mixing, key, input) <==> mix_block(
            mixing,
            digest_spec(mixing, key, input),
            key,
            seq![x],
        ) != digest_spec(mixing, key, input),
{
    assert(input.push(x) =~= input + seq![x]);
    lemma_one_more_block(mixing, key, input, seq![x]);
}

} // verus!
