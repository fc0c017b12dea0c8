//! Hashes that commit to labels.

use crate::bytes::to_be;
use crate::bytes::u128_to_be_bytes;
use crate::hashers::aes_ni::{aes128_encrypt_block_static, aes_static};
use crate::label::S;
use vstd::prelude::*;

verus! {

/// The output of SHA-256 on some bytes.
pub uninterp spec fn sha256_digest(data: Seq<u8>) -> Seq<u8>;

/// `sha2::Sha256` as a digest of all of the bytes: its output is a function of
/// the bytes.
#[verifier::external_body]
fn sha256(data: &[u8]) -> (r: [u8; 32])
    ensures
        r@ == sha256_digest(data@),
{
    <sha2::Sha256 as sha2::Digest>::digest(data).into()
}

/// The SHA-256 digest of a label's bytes, highest first.
pub fn sha256_label(label: u128) -> (r: [u8; 32])
    ensures
        r@ == sha256_digest(to_be(label as nat, 16)),
{
    let b = u128_to_be_bytes(label);
    sha256(b.as_slice())
}

/// A hash that commits to a label.
pub trait LabelCommitHasher {
    /// What the hash gives.
    type Output: Copy + View<V = Seq<u8>>;

    /// The bytes of a label's commitment.
    spec fn commitment(label: u128) -> Seq<u8>;

    fn hash_label(label: S) -> (r: Self::Output)
        ensures
            r@ == Self::commitment(label.0),
    ;
}

/// Commitments by SHA-256.
#[derive(Clone, Copy, Debug, Default, PartialEq, Eq, Structural)]
pub struct Sha256LabelCommitHasher;

impl LabelCommitHasher for Sha256LabelCommitHasher {
    type Output = [u8; 32];

    open spec fn commitment(label: u128) -> Seq<u8> {
        sha256_digest(to_be(label as nat, 16))
    }

    fn hash_label(label: S) -> (r: [u8; 32]) {
        sha256_label(label.to_u128())
    }
}

/// Commitments by AES under the fixed key.
#[derive(Clone, Copy, Debug, Default, PartialEq, Eq, Structural)]
pub struct AesLabelCommitHasher;

impl LabelCommitHasher for AesLabelCommitHasher {
    type Output = [u8; 16];

    open spec fn commitment(label: u128) -> Seq<u8> {
        aes_static(to_be(label as nat, 16))
    }

    fn hash_label(label: S) -> (r: [u8; 16]) {
        aes128_encrypt_block_static(label.to_bytes())
    }
}

/// Commits to a label with the given hash.
pub fn commit_label_with<H: LabelCommitHasher>(label: S) -> (r: H::Output)
    ensures
        r@ == H::commitment(label.0),
{
    H::hash_label(label)
}

/// The hash that is used where none is named.
pub type DefaultLabelCommitHasher = AesLabelCommitHasher;

/// What the default hash gives.
pub type Commit = [u8; 16];

} // verus!
