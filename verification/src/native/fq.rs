//! Elements of the BN254 base field by four 64-bit limbs.

use ark_ff::{Field, PrimeField};
use crate::math::field::{
    decode, encode, euler_exponent, fadd, fmul, fneg, fpow, fsub, is_inverse, lemma_constants,
    lemma_decode_encode, lemma_encode_decode, modulus, one_half, radix, radix_inv, radix_sq,
    sqrt_exponent,
};
use vstd::prelude::*;

verus! {

/// A number below `2^256` by four limbs, lowest first. A field element is one
/// below the modulus.
#[derive(Clone, Copy, Debug, PartialEq, Eq, Structural)]
pub struct FqValue {
    pub w0: u64,
    pub w1: u64,
    pub w2: u64,
    pub w3: u64,
}

impl View for FqValue {
    type V = nat;

    #[verifier::opaque]
    open spec fn view(&self) -> nat {
        (self.w0 + self.w1 * 0x1_0000_0000_0000_0000int
            + self.w2 * 0x1_0000_0000_0000_0000_0000_0000_0000_0000int
            + self.w3 * 0x1_0000_0000_0000_0000_0000_0000_0000_0000_0000_0000_0000_0000int) as nat
    }
}

impl FqValue {
    /// Whether this is a field element.
    pub open spec fn valid(&self) -> bool {
        self@ < modulus()
    }
}

proof fn lemma_split(x: u64, m: int, y: u64, n: int)
    requires
        x + 0x1_0000_0000_0000_0000int * m == y + 0x1_0000_0000_0000_0000int * n,
    ensures
        x == y,
        m == n,
{
}

/// Different limbs stand for different numbers.
pub proof fn lemma_limbs_unique(a: FqValue, b: FqValue)
    requires
        a@ == b@,
    ensures
        a == b,
{
    reveal(<FqValue as View>::view);
    let base = 0x1_0000_0000_0000_0000int;
    let a3 = a.w3 as int;
    let b3 = b.w3 as int;
    let a2 = a.w2 + base * a3;
    let b2 = b.w2 + base * b3;
    let a1 = a.w1 + base * a2;
    let b1 = b.w1 + base * b2;
    assert(a@ == a.w0 + base * a1);
    assert(b@ == b.w0 + base * b1);
    lemma_split(a.w0, a1, b.w0, b1);
    lemma_split(a.w1, a2, b.w1, b2);
    lemma_split(a.w2, a3, b.w2, b3);
}

/// `ark_bn254::Fq` addition: the sum modulo the field's modulus.
#[verifier::external_body]
pub(crate) fn fq_add(a: FqValue, b: FqValue) -> (r: FqValue)
    requires
        a.valid(),
        b.valid(),
    ensures
        r@ == fadd(a@, b@),
        r.valid(),
{
    let x = ark_bn254::Fq::new(ark_ff::BigInt([a.w0, a.w1, a.w2, a.w3]));
    let y = ark_bn254::Fq::new(ark_ff::BigInt([b.w0, b.w1, b.w2, b.w3]));
    let [w0, w1, w2, w3] = (x + y).into_bigint().0;
    FqValue { w0, w1, w2, w3 }
}

/// `ark_bn254::Fq` subtraction: the difference modulo the field's modulus.
#[verifier::external_body]
pub(crate) fn fq_sub(a: FqValue, b: FqValue) -> (r: FqValue)
    requires
        a.valid(),
        b.valid(),
    ensures
        r@ == fsub(a@, b@),
        r.valid(),
{
    let x = ark_bn254::Fq::new(ark_ff::BigInt([a.w0, a.w1, a.w2, a.w3]));
    let y = ark_bn254::Fq::new(ark_ff::BigInt([b.w0, b.w1, b.w2, b.w3]));
    let [w0, w1, w2, w3] = (x - y).into_bigint().0;
    FqValue { w0, w1, w2, w3 }
}

/// `ark_bn254::Fq` multiplication: the product modulo the field's modulus.
#[verifier::external_body]
pub(crate) fn fq_mul(a: FqValue, b: FqValue) -> (r: FqValue)
    requires
        a.valid(),
        b.valid(),
    ensures
        r@ == fmul(a@, b@),
        r.valid(),
{
    let x = ark_bn254::Fq::new(ark_ff::BigInt([a.w0, a.w1, a.w2, a.w3]));
    let y = ark_bn254::Fq::new(ark_ff::BigInt([b.w0, b.w1, b.w2, b.w3]));
    let [w0, w1, w2, w3] = (x * y).into_bigint().0;
    FqValue { w0, w1, w2, w3 }
}

/// `ark_ff::Field::inverse` on `ark_bn254::Fq`: an inverse of every element but
/// zero, and `None` for zero.
#[verifier::external_body]
pub(crate) fn fq_inverse(a: FqValue) -> (r: Option<FqValue>)
    requires
        a.valid(),
    ensures
        r matches Some(w) ==> is_inverse(a@, w@),
        r is None <==> a@ == 0,
{
    let x = ark_bn254::Fq::new(ark_ff::BigInt([a.w0, a.w1, a.w2, a.w3]));
    let [w0, w1, w2, w3] = x.inverse()?.into_bigint().0;
    Some(FqValue { w0, w1, w2, w3 })
}

/// `ark_ff::Field::sqrt` on `ark_bn254::Fq`, whose modulus is three modulo
/// four: the power with exponent `(p + 1) / 4` where that is a root, and `None`
/// where there is no root.
#[verifier::external_body]
pub(crate) fn fq_sqrt(a: FqValue) -> (r: Option<FqValue>)
    requires
        a.valid(),
    ensures
        r matches Some(s) ==> s.valid() && s@ == fpow(a@, sqrt_exponent()) && fmul(s@, s@) == a@,
        r is None ==> forall|y: nat| y < modulus() ==> #[trigger] fmul(y, y) != a@,
{
    let x = ark_bn254::Fq::new(ark_ff::BigInt([a.w0, a.w1, a.w2, a.w3]));
    let [w0, w1, w2, w3] = x.sqrt()?.into_bigint().0;
    Some(FqValue { w0, w1, w2, w3 })
}

/// Whether two numbers are equal.
pub fn fq_eq(a: FqValue, b: FqValue) -> (r: bool)
    ensures
        r == (a@ == b@),
{
    proof {
        if a@ == b@ {
            lemma_limbs_unique(a, b);
        }
    }
    a == b
}

pub fn fq_zero() -> (r: FqValue)
    ensures
        r@ == 0,
        r.valid(),
{
    proof {
        lemma_constants();
        reveal(<FqValue as View>::view);
    }
    FqValue { w0: 0, w1: 0, w2: 0, w3: 0 }
}

pub fn fq_one() -> (r: FqValue)
    ensures
        r@ == 1,
        r.valid(),
{
    proof {
        lemma_constants();
        reveal(<FqValue as View>::view);
    }
    FqValue { w0: 1, w1: 0, w2: 0, w3: 0 }
}

/// A small number.
pub fn fq_small(n: u64) -> (r: FqValue)
    ensures
        r@ == n,
        r.valid(),
{
    proof {
        reveal(modulus);
        reveal(<FqValue as View>::view);
    }
    FqValue { w0: n, w1: 0, w2: 0, w3: 0 }
}

/// The Montgomery radix, reduced.
pub fn fq_radix() -> (r: FqValue)
    ensures
        r@ == radix(),
        r.valid(),
{
    proof {
        lemma_constants();
        reveal(radix);
        reveal(<FqValue as View>::view);
    }
    FqValue {
        w0: 0xc3df73e9278302b9,
        w1: 0x687e956e978e3572,
        w2: 0x47afba497e7ea7a2,
        w3: 0xf9bb18d1ece5fd6,
    }
}

/// The inverse of the Montgomery radix.
pub fn fq_radix_inv() -> (r: FqValue)
    ensures
        r@ == radix_inv(),
        r.valid(),
{
    proof {
        lemma_constants();
        reveal(radix_inv);
        reveal(<FqValue as View>::view);
    }
    FqValue {
        w0: 0x1b07ce37bb4f107,
        w1: 0xe5fc4a5fd08e583c,
        w2: 0x149ed61b588e424e,
        w3: 0x286f6a6cc402386a,
    }
}

/// The square of the Montgomery radix.
pub fn fq_radix_sq() -> (r: FqValue)
    ensures
        r@ == radix_sq(),
        r.valid(),
{
    proof {
        lemma_constants();
        reveal(radix_sq);
        reveal(<FqValue as View>::view);
    }
    FqValue {
        w0: 0x92f4d88722c07f7d,
        w1: 0x44d6883a33cb6cc8,
        w2: 0x8fffb64b58bc2d85,
        w3: 0x373cede4abe9d54,
    }
}

/// The inverse of two.
pub fn fq_half() -> (r: FqValue)
    ensures
        r@ == one_half(),
        r.valid(),
{
    proof {
        lemma_constants();
        reveal(one_half);
        reveal(<FqValue as View>::view);
    }
    FqValue {
        w0: 0x9e10460b6c3e7ea4,
        w1: 0xcbc0b548b438e546,
        w2: 0xdc2822db40c0ac2e,
        w3: 0x183227397098d014,
    }
}

/// The exponent of square roots, `(p + 1) / 4`.
pub fn fq_sqrt_exponent() -> (r: FqValue)
    ensures
        r@ == sqrt_exponent(),
        r.valid(),
{
    proof {
        lemma_constants();
        reveal(sqrt_exponent);
        reveal(<FqValue as View>::view);
    }
    FqValue {
        w0: 0x4f082305b61f3f52,
        w1: 0x65e05aa45a1c72a3,
        w2: 0x6e14116da0605617,
        w3: 0xc19139cb84c680a,
    }
}

/// The exponent of Euler's criterion, `(p - 1) / 2`.
pub fn fq_euler_exponent() -> (r: FqValue)
    ensures
        r@ == euler_exponent(),
        r.valid(),
{
    proof {
        lemma_constants();
        reveal(euler_exponent);
        reveal(<FqValue as View>::view);
    }
    FqValue {
        w0: 0x9e10460b6c3e7ea3,
        w1: 0xcbc0b548b438e546,
        w2: 0xdc2822db40c0ac2e,
        w3: 0x183227397098d014,
    }
}

pub fn fq_neg(a: FqValue) -> (r: FqValue)
    requires
        a.valid(),
    ensures
        r@ == fneg(a@),
        r.valid(),
{
    fq_sub(fq_zero(), a)
}

/// The Montgomery representation of an element.
pub fn fq_as_montgomery(a: FqValue) -> (r: FqValue)
    requires
        a.valid(),
    ensures
        r@ == encode(a@),
        r.valid(),
        decode(r@) == a@,
{
    proof {
        reveal(encode);
        lemma_decode_encode(a@);
    }
    fq_mul(a, fq_radix())
}

/// The element that a Montgomery representation stands for.
pub fn fq_from_montgomery(a: FqValue) -> (r: FqValue)
    requires
        a.valid(),
    ensures
        r@ == decode(a@),
        r.valid(),
        encode(r@) == a@,
{
    proof {
        reveal(decode);
        lemma_encode_decode(a@);
    }
    fq_mul(a, fq_radix_inv())
}

} // verus!
