//! Hashes of labels: those of garbled gates, and those that commit to labels.

use crate::bytes::{from_be, lemma_to_le_head, to_be, to_le, u64_to_le_bytes};
use crate::hashers::aes_ni::{
    aes128_encrypt2_blocks_static_xor, aes128_encrypt_block_static_xor, aes_static, xor_bytes,
};
use crate::hashers::laws::{is_tweak, lemma_tweak_words};
use crate::label::S;
use vstd::prelude::*;

pub mod aes_ni;
pub mod laws;
pub mod sha256;

verus! {

/// The hashes that gates can be garbled with.
#[derive(Clone, Copy, Debug, PartialEq, Eq, Structural)]
pub enum HasherKind {
    Blake3,
    AesNi,
}

/// A hash of one label or of two, together with a gate's identifier.
pub trait GateHasher: HashWithGate<1> + HashWithGate<2> {

}

impl<H: HashWithGate<1> + HashWithGate<2>> GateHasher for H {

}

/// A hash of `N` labels, each for itself, together with a gate's identifier.
pub trait HashWithGate<const N: usize> {
    /// The hash of one label.
    spec fn gate_hash(label: u128, gate_id: usize) -> u128;

    fn hash_with_gate(labels: &[S; N], gate_id: usize) -> (r: [S; N])
        ensures
            forall|i: int|
                0 <= i < N ==> (#[trigger] r@[i]).0 == Self::gate_hash(labels@[i].0, gate_id),
    ;
}

/// Hashes labels with BLAKE3.
#[derive(Clone, Debug, Default)]
pub struct Blake3Hasher;

/// Hashes labels with AES under a fixed key.
#[derive(Clone, Debug, Default)]
pub struct AesNiHasher;

/// The output of `blake3::Hasher` on some bytes.
pub uninterp spec fn blake3_digest(data: Seq<u8>) -> Seq<u8>;

/// `blake3::Hasher`, fed with all of the bytes: its output is a function of
/// the bytes.
#[verifier::external_body]
fn blake3_hash(data: &Vec<u8>) -> (r: [u8; 32])
    ensures
        r@ == blake3_digest(data@),
{
    let mut hasher = blake3::Hasher::new();
    hasher.update(data);
    *hasher.finalize().as_bytes()
}

/// The bytes of a machine word, lowest first.
pub open spec fn word_bytes(w: usize) -> Seq<u8> {
    to_le(w as nat, (usize::BITS / 8) as nat)
}

/// The first sixteen bytes of the BLAKE3 digest of a label and a gate's
/// identifier.
pub open spec fn blake3_gate_hash(label: u128, gate_id: usize) -> u128 {
    from_be(blake3_digest(to_be(label as nat, 16) + word_bytes(gate_id)).take(16)) as u128
}

/// The bytes of a machine word, lowest first.
fn word_to_le_bytes(w: usize) -> (r: Vec<u8>)
    ensures
        r@ == word_bytes(w),
{
    let n: usize = if usize::BITS == 64 {
        8
    } else {
        4
    };
    let all = u64_to_le_bytes(w as u64);
    let mut r: Vec<u8> = Vec::new();
    let mut i: usize = 0;
    while i < n
        invariant
            i <= n <= 8,
            r@ == all@.take(i as int),
        decreases n - i,
    {
        r.push(all[i]);
        i = i + 1;
        assert(r@ =~= all@.take(i as int));
    }
    proof {
        lemma_to_le_head(w as nat, n as nat, 8);
    }
    r
}

fn blake3_gate(label: S, gate_id: usize) -> (r: S)
    ensures
        r.0 == blake3_gate_hash(label.0, gate_id),
{
    let mut data: Vec<u8> = Vec::new();
    let head = label.to_bytes();
    let tail = word_to_le_bytes(gate_id);
    let len: usize = tail.len();
    let mut i: usize = 0;
    while i < 16
        invariant
            i <= 16,
            data@ == head@.take(i as int),
        decreases 16 - i,
    {
        data.push(head[i]);
        i = i + 1;
        assert(data@ =~= head@.take(i as int));
    }
    let mut j: usize = 0;
    assert(data@ =~= head@ + tail@.take(0));
    while j < len
        invariant
            j <= len,
            len == tail@.len(),
            data@ == head@ + tail@.take(j as int),
        decreases len - j,
    {
        data.push(tail[j]);
        j = j + 1;
        assert(data@ =~= head@ + tail@.take(j as int));
    }
    assert(tail@.take(len as int) =~= tail@);
    let digest = blake3_hash(&data);
    let mut b: [u8; 16] = [0u8; 16];
    let mut k: usize = 0;
    while k < 16
        invariant
            k <= 16,
            b@.len() == 16,
            digest@.len() == 32,
            forall|m: int| 0 <= m < k ==> #[trigger] b@[m] == digest@[m],
        decreases 16 - k,
    {
        b[k] = digest[k];
        k = k + 1;
    }
    assert(b@ =~= digest@.take(16));
    S::from_bytes(b)
}

impl HashWithGate<1> for Blake3Hasher {
    open spec fn gate_hash(label: u128, gate_id: usize) -> u128 {
        blake3_gate_hash(label, gate_id)
    }

    fn hash_with_gate(labels: &[S; 1], gate_id: usize) -> (r: [S; 1]) {
        [blake3_gate(labels[0], gate_id)]
    }
}

impl HashWithGate<2> for Blake3Hasher {
    open spec fn gate_hash(label: u128, gate_id: usize) -> u128 {
        blake3_gate_hash(label, gate_id)
    }

    fn hash_with_gate(labels: &[S; 2], gate_id: usize) -> (r: [S; 2]) {
        let selected = blake3_gate(labels[0], gate_id);
        let other = blake3_gate(labels[1], gate_id);
        [selected, other]
    }
}

/// Sixteen bytes that differ from gate to gate.
pub open spec fn tweak(gate_id: u64) -> Seq<u8> {
    to_le((gate_id ^ 0x1234_5678_9ABC_DEF0u64) as nat, 8) + to_le(
        (gate_id * 0xDEAD_BEEF_CAFE_BABEu64) as nat % 0x1_0000_0000_0000_0000nat,
        8,
    )
}

/// Two words as sixteen bytes, the first word first, each lowest byte first.
pub fn u64_to_mask(t0: u64, t1: u64) -> (r: [u8; 16])
    ensures
        r@ == to_le(t0 as nat, 8) + to_le(t1 as nat, 8),
{
    let a = u64_to_le_bytes(t0);
    let b = u64_to_le_bytes(t1);
    let mut m: [u8; 16] = [0u8; 16];
    let mut i: usize = 0;
    while i < 8
        invariant
            i <= 8,
            m@.len() == 16,
            a@.len() == 8,
            b@.len() == 8,
            forall|j: int| 0 <= j < i ==> #[trigger] m@[j] == a@[j],
            forall|j: int| 8 <= j < 8 + i ==> #[trigger] m@[j] == b@[j - 8],
        decreases 8 - i,
    {
        m[i] = a[i];
        m[8 + i] = b[i];
        i = i + 1;
    }
    assert(m@ =~= a@ + b@);
    m
}

/// The tweak of a gate.
pub fn to_tweak(gate_id: usize) -> (r: [u8; 16])
    ensures
        r@ == tweak(gate_id as u64),
        is_tweak(r@, gate_id as u64),
{
    proof {
        lemma_tweak_words(gate_id as u64);
    }
    let gate_id_u64: u64 = gate_id as u64;
    let t0: u64 = gate_id_u64 ^ 0x1234_5678_9ABC_DEF0u64;
    let t1: u64 = gate_id_u64.wrapping_mul(0xDEAD_BEEF_CAFE_BABEu64);
    u64_to_mask(t0, t1)
}

/// The AES encryption, under the fixed key, of a label with a gate's tweak
/// added.
pub open spec fn aes_gate_hash(label: u128, gate_id: usize) -> u128 {
    from_be(aes_static(xor_bytes(to_be(label as nat, 16), tweak(gate_id as u64)))) as u128
}

impl HashWithGate<1> for AesNiHasher {
    open spec fn gate_hash(label: u128, gate_id: usize) -> u128 {
        aes_gate_hash(label, gate_id)
    }

    fn hash_with_gate(labels: &[S; 1], gate_id: usize) -> (r: [S; 1]) {
        let c = aes128_encrypt_block_static_xor(labels[0].to_bytes(), to_tweak(gate_id));
        [S::from_bytes(c)]
    }
}

impl HashWithGate<2> for AesNiHasher {
    open spec fn gate_hash(label: u128, gate_id: usize) -> u128 {
        aes_gate_hash(label, gate_id)
    }

    fn hash_with_gate(labels: &[S; 2], gate_id: usize) -> (r: [S; 2]) {
        let (c0, c1) = aes128_encrypt2_blocks_static_xor(
            labels[0].to_bytes(),
            labels[1].to_bytes(),
            to_tweak(gate_id),
        );
        [S::from_bytes(c0), S::from_bytes(c1)]
    }
}

} // verus!
