use aes::cipher::{BlockEncrypt, KeyInit};
use garbled_snark_verifier::bytes::{
    decimal_string, u128_from_be_bytes, u128_to_be_bytes, u64_to_le_bytes, write_commit_hex,
};
use garbled_snark_verifier::hashers::aes_ni::{
    aes128_encrypt2_blocks_static_xor, aes128_encrypt_block_static, aes128_encrypt_block_static_xor,
};
use garbled_snark_verifier::hashers::sha256::{
    commit_label_with, sha256_label, AesLabelCommitHasher, LabelCommitHasher,
    Sha256LabelCommitHasher,
};
use garbled_snark_verifier::hashers::{
    to_tweak, u64_to_mask, AesNiHasher, Blake3Hasher, GateHasher, HashWithGate, HasherKind,
};
use garbled_snark_verifier::label::{GarbledWire, S};
use sha2::Digest;

const LABEL: u128 = 0x0011_2233_4455_6677_8899_aabb_ccdd_eeff;

fn aes_reference(block: [u8; 16]) -> [u8; 16] {
    let cipher = aes::Aes128::new(&[0x42u8; 16].into());
    let mut b = aes::Block::from(block);
    cipher.encrypt_block(&mut b);
    b.into()
}

fn xor(a: [u8; 16], b: [u8; 16]) -> [u8; 16] {
    let mut r = [0u8; 16];
    for i in 0..16 {
        r[i] = a[i] ^ b[i];
    }
    r
}

#[test]
fn test_label_bytes() {
    let s = S::from_u128(LABEL);
    let b = s.to_bytes();
    assert_eq!(
        b,
        [
            0x00, 0x11, 0x22, 0x33, 0x44, 0x55, 0x66, 0x77, 0x88, 0x99, 0xaa, 0xbb, 0xcc, 0xdd,
            0xee, 0xff
        ]
    );
    assert_eq!(S::from_bytes(b), s);
    assert_eq!(s.to_u128(), LABEL);
    assert_eq!(u128_to_be_bytes(LABEL), LABEL.to_be_bytes());
    assert_eq!(u128_from_be_bytes(&LABEL.to_be_bytes()), LABEL);
    assert_eq!(u64_to_le_bytes(0x0102_0304_0506_0708), [8, 7, 6, 5, 4, 3, 2, 1]);
}

#[test]
fn test_label_sum_is_its_own_inverse() {
    let a = S::from_u128(LABEL);
    let b = S::from_u128(0xdead_beef);
    assert_eq!(a.bitxor(b).bitxor(b), a);
    assert_eq!(a.bitxor(a), S::from_u128(0));
}

#[test]
fn test_wire_selects_label() {
    let w = GarbledWire { label0: S::from_u128(1), label1: S::from_u128(2) };
    assert_eq!(w.select(false), S::from_u128(1));
    assert_eq!(w.select(true), S::from_u128(2));
}

#[test]
fn test_sha256_label_known_digest() {
    // the digest of sixteen zero bytes
    let mut hex = String::new();
    write_commit_hex(&mut hex, &sha256_label(0));
    assert_eq!(hex, "374708fff7719dd5979ec875d56cd2286f6d3cf7ec317a3b25632aab28ec37bb");
    let reference: [u8; 32] = sha2::Sha256::digest(LABEL.to_be_bytes()).into();
    assert_eq!(sha256_label(LABEL), reference);
    assert_eq!(Sha256LabelCommitHasher::hash_label(S::from_u128(LABEL)), reference);
    assert_eq!(commit_label_with::<Sha256LabelCommitHasher>(S::from_u128(LABEL)), reference);
}

#[test]
fn test_aes_commitment_matches_cipher() {
    let reference = aes_reference(LABEL.to_be_bytes());
    assert_ne!(reference, LABEL.to_be_bytes());
    assert_eq!(aes128_encrypt_block_static(LABEL.to_be_bytes()), reference);
    assert_eq!(AesLabelCommitHasher::hash_label(S::from_u128(LABEL)), reference);
}

#[test]
fn test_aes_with_tweak() {
    let a = LABEL.to_be_bytes();
    let b = 77u128.to_be_bytes();
    let t = to_tweak(5);
    assert_eq!(aes128_encrypt_block_static_xor(a, t), aes_reference(xor(a, t)));
    assert_eq!(
        aes128_encrypt2_blocks_static_xor(a, b, t),
        (aes_reference(xor(a, t)), aes_reference(xor(b, t)))
    );
}

#[test]
fn test_tweak_values() {
    assert_eq!(
        u64_to_mask(0x0102_0304_0506_0708, 0x1112_1314_1516_1718),
        [8, 7, 6, 5, 4, 3, 2, 1, 0x18, 0x17, 0x16, 0x15, 0x14, 0x13, 0x12, 0x11]
    );
    assert_eq!(to_tweak(0), u64_to_mask(0x1234_5678_9ABC_DEF0, 0));
    assert_eq!(to_tweak(1), u64_to_mask(0x1234_5678_9ABC_DEF1, 0xDEAD_BEEF_CAFE_BABE));
    // the second word wraps around
    let id = usize::MAX;
    let w = (id as u64).wrapping_mul(0xDEAD_BEEF_CAFE_BABE);
    assert_eq!(to_tweak(id), u64_to_mask((id as u64) ^ 0x1234_5678_9ABC_DEF0, w));
}

fn gate_hash_agrees<H: GateHasher>() {
    let a = S::from_u128(LABEL);
    let b = S::from_u128(3);
    let both = <H as HashWithGate<2>>::hash_with_gate(&[a, b], 9);
    let one = <H as HashWithGate<1>>::hash_with_gate(&[a], 9);
    let other = <H as HashWithGate<1>>::hash_with_gate(&[b], 9);
    assert_eq!(both, [one[0], other[0]]);
    let elsewhere = <H as HashWithGate<1>>::hash_with_gate(&[a], 10);
    assert_ne!(one, elsewhere);
}

#[test]
fn test_hash_of_two_is_that_of_each() {
    gate_hash_agrees::<Blake3Hasher>();
    gate_hash_agrees::<AesNiHasher>();
}

#[test]
fn test_blake3_gate_hash_matches_reference() {
    let gate_id = 0x0102_0304usize;
    let mut data = LABEL.to_be_bytes().to_vec();
    data.extend_from_slice(&(gate_id as u64).to_le_bytes());
    let digest = blake3::hash(&data);
    let mut head = [0u8; 16];
    head.copy_from_slice(&digest.as_bytes()[..16]);
    let r = <Blake3Hasher as HashWithGate<1>>::hash_with_gate(&[S::from_u128(LABEL)], gate_id);
    assert_eq!(r[0], S::from_bytes(head));
}

#[test]
fn test_aes_gate_hash_matches_reference() {
    let gate_id = 12345usize;
    let expected = aes_reference(xor(LABEL.to_be_bytes(), to_tweak(gate_id)));
    let r = <AesNiHasher as HashWithGate<1>>::hash_with_gate(&[S::from_u128(LABEL)], gate_id);
    assert_eq!(r[0], S::from_bytes(expected));
}

#[test]
fn test_hasher_kinds_differ() {
    assert_ne!(HasherKind::Blake3, HasherKind::AesNi);
}

#[test]
fn test_digits() {
    assert_eq!(decimal_string(0), "0");
    assert_eq!(decimal_string(10), "10");
    assert_eq!(decimal_string(9876543210), "9876543210");
    let mut s = String::from("x");
    write_commit_hex(&mut s, &[0x00, 0x0f, 0xa5]);
    assert_eq!(s, "x000fa5");
}
