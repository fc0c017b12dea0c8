//! Soldering: ties the input labels of several instances to those of the
//! first.

use crate::bytes::{from_be, lemma_spelled_be, to_be};
use crate::hashers::sha256::{sha256_digest, sha256_label};
use crate::label::lemma_xor_twice;
use vstd::prelude::*;

verus! {

/// The two labels of a wire.
pub type Wire = (u128, u128);

/// The wires of one instance.
pub type InstancesWires = Vec<Wire>;

/// A SHA-256 digest.
pub type Sha256Commit = [u8; 32];

/// The input labels of instances, the first being the base, and a nonce.
#[derive(Debug, PartialEq)]
pub struct WiresInput {
    pub instances_wires: Vec<Vec<(u128, u128)>>,
    pub nonce: u128,
}

/// What ties instances to the base: for each wire the differences of labels,
/// and commitments to all labels.
#[derive(Debug, PartialEq)]
pub struct SolderedLabelsData {
    pub deltas: Vec<Vec<(u128, u128)>>,
    pub base_commitment: Vec<([u8; 32], [u8; 32])>,
    pub base_nonce_commitment: Vec<([u8; 32], [u8; 32])>,
    pub nonce: u128,
    pub commitments: Vec<Vec<([u8; 32], [u8; 32])>>,
}

/// The digest of a label.
pub open spec fn label_digest(label: u128) -> Seq<u8> {
    sha256_digest(to_be(label as nat, 16))
}

/// The digests of a wire's labels, each with a word added.
pub open spec fn wire_digests(w: (u128, u128), word: u128) -> (Seq<u8>, Seq<u8>) {
    (label_digest(w.0 ^ word), label_digest(w.1 ^ word))
}

/// Whether a list of commitments is that of the first `n` wires, with a word
/// added to each label.
pub open spec fn commits_to(
    c: Seq<([u8; 32], [u8; 32])>,
    wires: Seq<(u128, u128)>,
    word: u128,
    n: nat,
) -> bool {
    c.len() == n && forall|i: int|
        0 <= i < n ==> ((#[trigger] c[i]).0@, c[i].1@) == wire_digests(wires[i], word)
}

/// Whether a list of differences is that of the first `n` wires of two
/// instances.
pub open spec fn differs_by(
    d: Seq<(u128, u128)>,
    base: Seq<(u128, u128)>,
    wires: Seq<(u128, u128)>,
    n: nat,
) -> bool {
    d.len() == n && forall|i: int|
        0 <= i < n ==> #[trigger] d[i] == (base[i].0 ^ wires[i].0, base[i].1 ^ wires[i].1)
}

fn hash_label(label: u128) -> (r: [u8; 32])
    ensures
        r@ == label_digest(label),
{
    sha256_label(label)
}

/// Commits to the first `n` wires of an instance, with a word added to each
/// label.
fn commit_wires(wires: &Vec<(u128, u128)>, word: u128, n: usize) -> (r: Vec<([u8; 32], [u8; 32])>)
    requires
        n <= wires@.len(),
    ensures
        commits_to(r@, wires@, word, n as nat),
{
    let mut r: Vec<([u8; 32], [u8; 32])> = Vec::new();
    let mut i: usize = 0;
    while i < n
        invariant
            i <= n <= wires@.len(),
            commits_to(r@, wires@, word, i as nat),
        decreases n - i,
    {
        let w = wires[i];
        r.push((hash_label(w.0 ^ word), hash_label(w.1 ^ word)));
        i = i + 1;
    }
    r
}

/// The differences between the first `n` wires of the base and those of an
/// instance.
fn wire_deltas(
    base: &Vec<(u128, u128)>,
    wires: &Vec<(u128, u128)>,
    n: usize,
) -> (r: Vec<(u128, u128)>)
    requires
        n <= base@.len(),
        n <= wires@.len(),
    ensures
        differs_by(r@, base@, wires@, n as nat),
{
    let mut r: Vec<(u128, u128)> = Vec::new();
    let mut i: usize = 0;
    while i < n
        invariant
            i <= n,
            n <= base@.len(),
            n <= wires@.len(),
            differs_by(r@, base@, wires@, i as nat),
        decreases n - i,
    {
        let b = base[i];
        let w = wires[i];
        r.push((b.0 ^ w.0, b.1 ^ w.1));
        i = i + 1;
    }
    r
}

/// There is a base, and no instance has fewer wires.
pub open spec fn solderable(input: WiresInput) -> bool {
    input.instances_wires@.len() >= 1 && forall|k: int|
        0 <= k < input.instances_wires@.len() ==> (#[trigger] input.instances_wires@[k])@.len()
            >= input.instances_wires@[0]@.len()
}

proof fn lemma_xor_zero(x: u128)
    ensures
        x ^ 0 == x,
{
    assert(x ^ 0 == x) by (bit_vector);
}

/// Whether the data are those of the input.
pub open spec fn solders(data: SolderedLabelsData, input: WiresInput) -> bool {
    let wires = input.instances_wires@;
    let base = wires[0]@;
    let n = base.len();
    &&& data.nonce == input.nonce
    &&& data.base_commitment@.len() == n
    &&& forall|i: int|
        0 <= i < n ==> ((#[trigger] data.base_commitment@[i]).0@, data.base_commitment@[i].1@) == (
            label_digest(base[i].0),
            label_digest(base[i].1),
        )
    &&& commits_to(data.base_nonce_commitment@, base, input.nonce, n)
    &&& data.commitments@.len() == wires.len() - 1
    &&& data.deltas@.len() == wires.len() - 1
    &&& forall|k: int|
        0 <= k < data.commitments@.len() ==> (#[trigger] data.commitments@[k])@.len() == n
    &&& forall|k: int, i: int|
        0 <= k < data.commitments@.len() && 0 <= i < n ==> (
            (#[trigger] data.commitments@[k]@[i]).0@,
            data.commitments@[k]@[i].1@,
        ) == (label_digest(wires[k + 1]@[i].0), label_digest(wires[k + 1]@[i].1))
    &&& forall|k: int|
        0 <= k < data.deltas@.len() ==> differs_by(
            (#[trigger] data.deltas@[k])@,
            base,
            wires[k + 1]@,
            n,
        )
}

/// Solders instances to the base.
pub fn solder(input: &WiresInput) -> (data: SolderedLabelsData)
    requires
        solderable(*input),
    ensures
        solders(data, *input),
{
    let base = &input.instances_wires[0];
    let n = base.len();
    let base_commitment = commit_wires(base, 0, n);
    let base_nonce_commitment = commit_wires(base, input.nonce, n);
    let mut commitments: Vec<Vec<([u8; 32], [u8; 32])>> = Vec::new();
    let mut deltas: Vec<Vec<(u128, u128)>> = Vec::new();
    let mut k: usize = 1;
    while k < input.instances_wires.len()
        invariant
            1 <= k <= input.instances_wires@.len(),
            solderable(*input),
            base@ == input.instances_wires@[0]@,
            n == base@.len(),
            commitments@.len() == k - 1,
            deltas@.len() == k - 1,
            forall|j: int|
                0 <= j < k - 1 ==> commits_to(
                    (#[trigger] commitments@[j])@,
                    input.instances_wires@[j + 1]@,
                    0,
                    n as nat,
                ),
            forall|j: int|
                0 <= j < k - 1 ==> differs_by(
                    (#[trigger] deltas@[j])@,
                    base@,
                    input.instances_wires@[j + 1]@,
                    n as nat,
                ),
        decreases input.instances_wires@.len() - k,
    {
        let wires = &input.instances_wires[k];
        assert(input.instances_wires@[k as int]@.len() >= n);
        commitments.push(commit_wires(wires, 0, n));
        deltas.push(wire_deltas(base, wires, n));
        k = k + 1;
    }
    let data = SolderedLabelsData {
        deltas,
        base_commitment,
        base_nonce_commitment,
        nonce: input.nonce,
        commitments,
    };
    proof {
        let w = input.instances_wires@;
        assert forall|i: int| 0 <= i < n implies (
            (#[trigger] data.base_commitment@[i]).0@,
            data.base_commitment@[i].1@,
        ) == (label_digest(w[0]@[i].0), label_digest(w[0]@[i].1)) by {
            lemma_xor_zero(w[0]@[i].0);
            lemma_xor_zero(w[0]@[i].1);
        }
        assert forall|j: int, i: int| 0 <= j < data.commitments@.len() && 0 <= i < n implies (
            (#[trigger] data.commitments@[j]@[i]).0@,
            data.commitments@[j]@[i].1@,
        ) == (label_digest(w[j + 1]@[i].0), label_digest(w[j + 1]@[i].1)) by {
            assert(commits_to(commitments@[j]@, w[j + 1]@, 0, n as nat));
            lemma_xor_zero(w[j + 1]@[i].0);
            lemma_xor_zero(w[j + 1]@[i].1);
        }
        assert forall|j: int| 0 <= j < data.commitments@.len() implies (#[trigger]
            data.commitments@[j])@.len() == n by {
            assert(commits_to(commitments@[j]@, w[j + 1]@, 0, n as nat));
        }
    }
    data
}

/// The base's label and the difference give the instance's label, for every
/// wire of every instance and both values.
pub proof fn lemma_deltas_lead_to_instances(
    data: SolderedLabelsData,
    input: WiresInput,
    k: int,
    i: int,
)
    requires
        solders(data, input),
        0 <= k < data.deltas@.len(),
        0 <= i < input.instances_wires@[0]@.len(),
    ensures
        data.deltas@[k]@.len() == input.instances_wires@[0]@.len(),
        input.instances_wires@[0]@[i].0 ^ data.deltas@[k]@[i].0
            == input.instances_wires@[k + 1]@[i].0,
        input.instances_wires@[0]@[i].1 ^ data.deltas@[k]@[i].1
            == input.instances_wires@[k + 1]@[i].1,
{
    let base = input.instances_wires@[0]@[i];
    let w = input.instances_wires@[k + 1]@[i];
    assert(differs_by(
        data.deltas@[k]@,
        input.instances_wires@[0]@,
        input.instances_wires@[k + 1]@,
        input.instances_wires@[0]@.len(),
    ));
    assert(data.deltas@[k]@[i] == (base.0 ^ w.0, base.1 ^ w.1));
    lemma_xor_twice(base.0, w.0);
    lemma_xor_twice(base.1, w.1);
}

/// Inputs can be soldered where there is a base and no instance has fewer wires
/// than it, and nowhere else.
pub proof fn lemma_solderable(input: WiresInput)
    ensures
        input.instances_wires@.len() == 0 ==> !solderable(input),
        solderable(input) ==> forall|k: int|
            0 <= k < input.instances_wires@.len() ==> (#[trigger] input.instances_wires@[k])@.len()
                >= input.instances_wires@[0]@.len(),
        input.instances_wires@.len() > 0 && (forall|k: int|
            0 <= k < input.instances_wires@.len() ==> (#[trigger] input.instances_wires@[k])@.len()
                >= input.instances_wires@[0]@.len()) ==> solderable(input),
{
}

/// The base's commitments under the nonce are digests of bytes that spell a word
/// which gives the label back when the nonce is added to it, both for the label of
/// `false` and for that of `true`.
pub proof fn lemma_nonce_commitments(
    data: SolderedLabelsData,
    input: WiresInput,
    i: int,
    word: (u128, u128),
    bytes: (Seq<u8>, Seq<u8>),
)
    requires
        solders(data, input),
        0 <= i < input.instances_wires@[0]@.len(),
        word.0 ^ input.nonce == input.instances_wires@[0]@[i].0,
        word.1 ^ input.nonce == input.instances_wires@[0]@[i].1,
        bytes.0.len() == 16,
        bytes.1.len() == 16,
        from_be(bytes.0) == word.0,
        from_be(bytes.1) == word.1,
    ensures
        data.nonce == input.nonce,
        data.base_nonce_commitment@.len() == input.instances_wires@[0]@.len(),
        data.base_nonce_commitment@[i].0@ == sha256_digest(bytes.0),
        data.base_nonce_commitment@[i].1@ == sha256_digest(bytes.1),
{
    let base = input.instances_wires@[0]@[i];
    let (a, b, n) = (base.0, base.1, input.nonce);
    let (x, y) = word;
    assert(a ^ n == x) by (bit_vector)
        requires
            x ^ n == a,
    ;
    assert(b ^ n == y) by (bit_vector)
        requires
            y ^ n == b,
    ;
    lemma_spelled_be(bytes.0, x as nat, 16);
    lemma_spelled_be(bytes.1, y as nat, 16);
    let c = data.base_nonce_commitment@[i];
    assert((c.0@, c.1@) == wire_digests(base, n));
}

/// The commitments without nonce, to the base and to the other instances, are
/// digests of bytes that spell the labels.
pub proof fn lemma_plain_commitments(
    data: SolderedLabelsData,
    input: WiresInput,
    k: int,
    i: int,
    bytes: (Seq<u8>, Seq<u8>),
)
    requires
        solders(data, input),
        0 <= k < input.instances_wires@.len(),
        0 <= i < input.instances_wires@[0]@.len(),
        bytes.0.len() == 16,
        bytes.1.len() == 16,
        from_be(bytes.0) == input.instances_wires@[k]@[i].0,
        from_be(bytes.1) == input.instances_wires@[k]@[i].1,
    ensures
        data.base_commitment@.len() == input.instances_wires@[0]@.len(),
        data.commitments@.len() == input.instances_wires@.len() - 1,
        data.deltas@.len() == input.instances_wires@.len() - 1,
        k > 0 ==> data.commitments@[k - 1]@.len() == input.instances_wires@[0]@.len(),
        k == 0 ==> data.base_commitment@[i].0@ == sha256_digest(bytes.0)
            && data.base_commitment@[i].1@ == sha256_digest(bytes.1),
        k > 0 ==> data.commitments@[k - 1]@[i].0@ == sha256_digest(bytes.0)
            && data.commitments@[k - 1]@[i].1@ == sha256_digest(bytes.1),
{
    let w = input.instances_wires@[k]@[i];
    lemma_spelled_be(bytes.0, w.0 as nat, 16);
    lemma_spelled_be(bytes.1, w.1 as nat, 16);
    if k == 0 {
        let c = data.base_commitment@[i];
        assert((c.0@, c.1@) == (label_digest(w.0), label_digest(w.1)));
    } else {
        let c = data.commitments@[k - 1]@[i];
        assert((c.0@, c.1@) == (label_digest(w.0), label_digest(w.1)));
    }
}

} // verus!
