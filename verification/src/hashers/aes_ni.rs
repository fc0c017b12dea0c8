//! AES-128 under a fixed key.

use vstd::prelude::*;

verus! {

/// The output of AES-128 on a key and a block.
pub uninterp spec fn aes128(key: Seq<u8>, block: Seq<u8>) -> Seq<u8>;

/// The sixteen bytes of the fixed key.
pub open spec fn static_key() -> Seq<u8> {
    Seq::new(16, |i: int| 0x42u8)
}

/// AES-128 under the fixed key.
pub open spec fn aes_static(block: Seq<u8>) -> Seq<u8> {
    aes128(static_key(), block)
}

/// Byte by byte sum of blocks.
pub open spec fn xor_bytes(a: Seq<u8>, b: Seq<u8>) -> Seq<u8> {
    Seq::new(16, |i: int| a[i] ^ b[i])
}

/// `aes::Aes128`, keyed and applied to one block: its output is a function of
/// the key and the block.
#[verifier::external_body]
fn aes128_encrypt(key: [u8; 16], block: [u8; 16]) -> (r: [u8; 16])
    ensures
        r@ == aes128(key@, block@),
{
    let cipher = <aes::Aes128 as aes::cipher::KeyInit>::new(&key.into());
    let mut b = aes::Block::from(block);
    aes::cipher::BlockEncrypt::encrypt_block(&cipher, &mut b);
    b.into()
}

/// Encrypts a block under the fixed key.
pub fn aes128_encrypt_block_static(block: [u8; 16]) -> (r: [u8; 16])
    ensures
        r@ == aes_static(block@),
{
    let key: [u8; 16] = [0x42u8; 16];
    assert(key@ =~= static_key());
    aes128_encrypt(key, block)
}

fn xor_blocks(a: [u8; 16], b: [u8; 16]) -> (r: [u8; 16])
    ensures
        r@ == xor_bytes(a@, b@),
{
    let mut r: [u8; 16] = [0u8; 16];
    let mut i: usize = 0;
    while i < 16
        invariant
            i <= 16,
            r@.len() == 16,
            forall|j: int| 0 <= j < i ==> #[trigger] r@[j] == a@[j] ^ b@[j],
        decreases 16 - i,
    {
        r[i] = a[i] ^ b[i];
        i = i + 1;
    }
    assert(r@ =~= xor_bytes(a@, b@));
    r
}

/// Encrypts the sum of a block and a tweak under the fixed key.
pub fn aes128_encrypt_block_static_xor(block: [u8; 16], tweak: [u8; 16]) -> (r: [u8; 16])
    ensures
        r@ == aes_static(xor_bytes(block@, tweak@)),
{
    aes128_encrypt_block_static(xor_blocks(block, tweak))
}

/// Encrypts two blocks, each with the tweak added, under the fixed key.
pub fn aes128_encrypt2_blocks_static_xor(
    block0: [u8; 16],
    block1: [u8; 16],
    tweak: [u8; 16],
) -> (r: ([u8; 16], [u8; 16]))
    ensures
        r.0@ == aes_static(xor_bytes(block0@, tweak@)),
        r.1@ == aes_static(xor_bytes(block1@, tweak@)),
{
    (
        aes128_encrypt_block_static_xor(block0, tweak),
        aes128_encrypt_block_static_xor(block1, tweak),
    )
}

} // verus!
