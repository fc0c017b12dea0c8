//! What is hashed, in terms of labels and gates.

use crate::bytes::{
    from_be, from_le, lemma_from_to_le, lemma_pow256_16, lemma_spelled_be, lemma_spelled_le,
    lemma_to_le_len, pow256, to_be, to_le,
};
use crate::hashers::aes_ni::{aes128, aes_static, static_key, xor_bytes};
use crate::hashers::sha256::{
    sha256_digest, AesLabelCommitHasher, LabelCommitHasher, Sha256LabelCommitHasher,
};
use crate::hashers::{
    blake3_digest, tweak, word_bytes, AesNiHasher, Blake3Hasher, HashWithGate,
};
use vstd::prelude::*;

verus! {

/// Whether sixteen bytes are the tweak of a gate: the first eight, read lowest
/// first and with a constant added, are its identifier, and the others are the low
/// word of a multiple of that.
pub open spec fn is_tweak(t: Seq<u8>, gate_id: u64) -> bool {
    &&& t.len() == 16
    &&& (from_le(t.take(8)) as u64) ^ 0x1234_5678_9ABC_DEF0u64 == gate_id
    &&& from_le(t.skip(8)) == (gate_id * 0xDEAD_BEEF_CAFE_BABEu64) % 0x1_0000_0000_0000_0000int
}

/// The first half of a tweak gives back the identifier that it was made from, and
/// the second half is the low word of a multiple of that.
pub proof fn lemma_tweak_words(gate_id: u64)
    ensures
        tweak(gate_id).len() == 16,
        (from_le(tweak(gate_id).take(8)) as u64) ^ 0x1234_5678_9ABC_DEF0u64 == gate_id,
        from_le(tweak(gate_id).skip(8)) == (gate_id * 0xDEAD_BEEF_CAFE_BABEu64)
            % 0x1_0000_0000_0000_0000int,
        is_tweak(tweak(gate_id), gate_id),
{
    let t0 = gate_id ^ 0x1234_5678_9ABC_DEF0u64;
    let t1 = (gate_id * 0xDEAD_BEEF_CAFE_BABEu64) as nat % 0x1_0000_0000_0000_0000nat;
    lemma_to_le_len(t0 as nat, 8);
    lemma_to_le_len(t1, 8);
    lemma_pow256_16();
    lemma_from_to_le(t0 as nat, 8);
    lemma_from_to_le(t1, 8);
    assert(tweak(gate_id).take(8) =~= to_le(t0 as nat, 8));
    assert(tweak(gate_id).skip(8) =~= to_le(t1, 8));
    assert((gate_id ^ 0x1234_5678_9ABC_DEF0u64) ^ 0x1234_5678_9ABC_DEF0u64 == gate_id)
        by (bit_vector);
}

/// Tweaks differ from gate to gate.
pub proof fn lemma_tweaks_differ(a: u64, b: u64)
    requires
        tweak(a) == tweak(b),
    ensures
        a == b,
{
    lemma_tweak_words(a);
    lemma_tweak_words(b);
}

/// There is only one tweak of a gate.
pub proof fn lemma_tweak_unique(t: Seq<u8>, gate_id: u64)
    requires
        is_tweak(t, gate_id),
    ensures
        t == tweak(gate_id),
{
    let (a, b) = (t.take(8), t.skip(8));
    let x = from_le(a) as u64;
    lemma_spelled_le(a, from_le(a), 8);
    lemma_spelled_le(b, from_le(b), 8);
    lemma_tweak_words(gate_id);
    let u = tweak(gate_id);
    let y = from_le(u.take(8)) as u64;
    lemma_spelled_le(u.take(8), from_le(u.take(8)), 8);
    lemma_spelled_le(u.skip(8), from_le(u.skip(8)), 8);
    assert(x == y) by (bit_vector)
        requires
            x ^ 0x1234_5678_9ABC_DEF0u64 == y ^ 0x1234_5678_9ABC_DEF0u64,
    ;
    lemma_word_bound(a);
    lemma_word_bound(u.take(8));
    assert(t =~= a + b);
    assert(u =~= u.take(8) + u.skip(8));
}

proof fn lemma_word_bound(b: Seq<u8>)
    requires
        b.len() == 8,
    ensures
        from_le(b) <= u64::MAX,
{
    crate::bytes::lemma_to_from_le(b);
    lemma_pow256_16();
}

/// A gate's BLAKE3 hash of a label is the number that the first sixteen bytes of
/// the digest spell, for the bytes that spell the label, highest first, and then
/// the whole identifier, lowest first.
pub proof fn lemma_blake3_hashes(label: u128, gate_id: usize, data: Seq<u8>)
    requires
        data.len() == 16 + usize::BITS as int / 8,
        from_be(data.take(16)) == label,
        from_le(data.skip(16)) == gate_id,
    ensures
        <Blake3Hasher as HashWithGate<1>>::gate_hash(label, gate_id) == from_be(
            blake3_digest(data).take(16),
        ) as u128,
        <Blake3Hasher as HashWithGate<2>>::gate_hash(label, gate_id) == from_be(
            blake3_digest(data).take(16),
        ) as u128,
{
    let n = (usize::BITS / 8) as nat;
    lemma_spelled_be(data.take(16), label as nat, 16);
    lemma_spelled_le(data.skip(16), gate_id as nat, n);
    assert(data =~= data.take(16) + data.skip(16));
}

/// A gate's AES hash of a label is the encryption under the fixed key of the block
/// that, with the tweak added to each byte, spells the label, highest byte first.
pub proof fn lemma_aes_hashes(
    label: u128,
    gate_id: usize,
    t: Seq<u8>,
    block: Seq<u8>,
    key: Seq<u8>,
)
    requires
        is_tweak(t, gate_id as u64),
        block.len() == 16,
        from_be(Seq::new(16, |i: int| block[i] ^ t[i])) == label,
        key.len() == 16,
        forall|i: int| 0 <= i < 16 ==> #[trigger] key[i] == 0x42u8,
    ensures
        <AesNiHasher as HashWithGate<1>>::gate_hash(label, gate_id) == from_be(
            aes128(key, block),
        ) as u128,
        <AesNiHasher as HashWithGate<2>>::gate_hash(label, gate_id) == from_be(
            aes128(key, block),
        ) as u128,
{
    let l = Seq::new(16, |i: int| block[i] ^ t[i]);
    lemma_tweak_unique(t, gate_id as u64);
    lemma_spelled_be(l, label as nat, 16);
    let sum = xor_bytes(to_be(label as nat, 16), t);
    assert forall|i: int| 0 <= i < 16 implies sum[i] == block[i] by {
        let (x, y) = (block[i], t[i]);
        assert((x ^ y) ^ y == x) by (bit_vector);
    }
    assert(sum =~= block);
    assert(key =~= static_key());
}

/// What commits to a label is the hash of the bytes that spell it, highest first:
/// its SHA-256 digest, or its encryption under the fixed key.
pub proof fn lemma_commitments(label: u128, data: Seq<u8>, key: Seq<u8>)
    requires
        data.len() == 16,
        from_be(data) == label,
        key.len() == 16,
        forall|i: int| 0 <= i < 16 ==> #[trigger] key[i] == 0x42u8,
    ensures
        Sha256LabelCommitHasher::commitment(label) == sha256_digest(data),
        AesLabelCommitHasher::commitment(label) == aes128(key, data),
{
    lemma_spelled_be(data, label as nat, 16);
    assert(key =~= static_key());
}

/// Blocks are added byte by byte, and encrypted under the fixed key.
pub proof fn lemma_blocks(a: Seq<u8>, b: Seq<u8>, key: Seq<u8>, i: int)
    requires
        0 <= i < 16,
        key.len() == 16,
        forall|i: int| 0 <= i < 16 ==> #[trigger] key[i] == 0x42u8,
    ensures
        xor_bytes(a, b).len() == 16,
        xor_bytes(a, b)[i] ^ b[i] == a[i],
        aes_static(a) == aes128(key, a),
{
    let (x, y) = (a[i], b[i]);
    assert((x ^ y) ^ y == x) by (bit_vector);
    assert(key =~= static_key());
}

/// The bytes of a machine word are as many as it has, and spell it, lowest first.
pub proof fn lemma_word_bytes(w: usize)
    ensures
        word_bytes(w).len() == usize::BITS as int / 8,
        from_le(word_bytes(w)) == w,
{
    let n = (usize::BITS / 8) as nat;
    lemma_pow256_16();
    assert(pow256(4) == 0x1_0000_0000) by {
        reveal_with_fuel(pow256, 5);
    }
    assert(w < pow256(n)) by {
        if usize::BITS == 64 {
            assert(n == 8);
        } else {
            assert(n == 4);
        }
    }
    lemma_to_le_len(w as nat, n);
    lemma_from_to_le(w as nat, n);
}

} // verus!
