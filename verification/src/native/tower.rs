//! Elements of the extension fields outside circuits.

use ark_ff::{Field, PrimeField};
use crate::math::roots::sqrt2;
use crate::math::field::{decode, encode};
use crate::math::tower::{
    add2, dbl2, ext12, ext2, ext6, frob12, frob2, inv12, mul12, mul2, neg2, neg6, one12, one2,
    reduced2, scale2, sqr12, sqr2, sub2, zero12, zero2, Ext12, Ext2, Ext6,
};
use crate::native::fq::{
    fq_add, fq_as_montgomery, fq_eq, fq_mul, fq_neg, fq_one, fq_sub, fq_zero, FqValue,
};
use vstd::prelude::*;

verus! {

/// An element `c0 + c1 u`.
#[derive(Clone, Copy, Debug, PartialEq, Eq, Structural)]
pub struct Fq2Value {
    pub c0: FqValue,
    pub c1: FqValue,
}

/// An element `c0 + c1 v + c2 v^2`.
#[derive(Clone, Copy, Debug, PartialEq, Eq, Structural)]
pub struct Fq6Value {
    pub c0: Fq2Value,
    pub c1: Fq2Value,
    pub c2: Fq2Value,
}

/// An element `c0 + c1 w`.
#[derive(Clone, Copy, Debug, PartialEq, Eq, Structural)]
pub struct Fq12Value {
    pub c0: Fq6Value,
    pub c1: Fq6Value,
}

impl View for Fq2Value {
    type V = Ext2;

    open spec fn view(&self) -> Ext2 {
        ext2(self.c0@, self.c1@)
    }
}

impl View for Fq6Value {
    type V = Ext6;

    open spec fn view(&self) -> Ext6 {
        ext6(self.c0@, self.c1@, self.c2@)
    }
}

impl View for Fq12Value {
    type V = Ext12;

    open spec fn view(&self) -> Ext12 {
        ext12(self.c0@, self.c1@)
    }
}

impl Fq2Value {
    pub open spec fn valid(&self) -> bool {
        self.c0.valid() && self.c1.valid()
    }
}

impl Fq6Value {
    pub open spec fn valid(&self) -> bool {
        self.c0.valid() && self.c1.valid() && self.c2.valid()
    }
}

impl Fq12Value {
    pub open spec fn valid(&self) -> bool {
        self.c0.valid() && self.c1.valid()
    }
}

/// The element that a pair of Montgomery representations stands for.
pub open spec fn decode2(a: Ext2) -> Ext2 {
    ext2(decode(a.c0), decode(a.c1))
}

pub open spec fn decode6(a: Ext6) -> Ext6 {
    ext6(decode2(a.c0), decode2(a.c1), decode2(a.c2))
}

pub open spec fn decode12(a: Ext12) -> Ext12 {
    ext12(decode6(a.c0), decode6(a.c1))
}

pub fn fq2_zero() -> (r: Fq2Value)
    ensures
        r@ == zero2(),
        r.valid(),
{
    Fq2Value { c0: fq_zero(), c1: fq_zero() }
}

pub fn fq2_one() -> (r: Fq2Value)
    ensures
        r@ == one2(),
        r.valid(),
{
    Fq2Value { c0: fq_one(), c1: fq_zero() }
}

pub fn fq2_add(a: Fq2Value, b: Fq2Value) -> (r: Fq2Value)
    requires
        a.valid(),
        b.valid(),
    ensures
        r@ == add2(a@, b@),
        r.valid(),
{
    reveal(add2);
    Fq2Value { c0: fq_add(a.c0, b.c0), c1: fq_add(a.c1, b.c1) }
}

pub fn fq2_sub(a: Fq2Value, b: Fq2Value) -> (r: Fq2Value)
    requires
        a.valid(),
        b.valid(),
    ensures
        r@ == sub2(a@, b@),
        r.valid(),
{
    reveal(sub2);
    Fq2Value { c0: fq_sub(a.c0, b.c0), c1: fq_sub(a.c1, b.c1) }
}

pub fn fq2_neg(a: Fq2Value) -> (r: Fq2Value)
    requires
        a.valid(),
    ensures
        r@ == neg2(a@),
        r.valid(),
{
    reveal(neg2);
    Fq2Value { c0: fq_neg(a.c0), c1: fq_neg(a.c1) }
}

pub fn fq2_double(a: Fq2Value) -> (r: Fq2Value)
    requires
        a.valid(),
    ensures
        r@ == dbl2(a@),
        r.valid(),
{
    fq2_add(a, a)
}

pub fn fq2_mul(a: Fq2Value, b: Fq2Value) -> (r: Fq2Value)
    requires
        a.valid(),
        b.valid(),
    ensures
        r@ == mul2(a@, b@),
        r.valid(),
{
    reveal(mul2);
    Fq2Value {
        c0: fq_sub(fq_mul(a.c0, b.c0), fq_mul(a.c1, b.c1)),
        c1: fq_add(fq_mul(a.c0, b.c1), fq_mul(a.c1, b.c0)),
    }
}

pub fn fq2_square(a: Fq2Value) -> (r: Fq2Value)
    requires
        a.valid(),
    ensures
        r@ == sqr2(a@),
        r.valid(),
{
    fq2_mul(a, a)
}

/// The product with a base field element.
pub fn fq2_scale(a: Fq2Value, k: FqValue) -> (r: Fq2Value)
    requires
        a.valid(),
        k.valid(),
    ensures
        r@ == scale2(a@, k@),
        r.valid(),
{
    reveal(scale2);
    Fq2Value { c0: fq_mul(a.c0, k), c1: fq_mul(a.c1, k) }
}

/// The Frobenius map.
pub fn fq2_frobenius(a: Fq2Value) -> (r: Fq2Value)
    requires
        a.valid(),
    ensures
        r@ == frob2(a@, 1),
        r.valid(),
{
    reveal(frob2);
    Fq2Value { c0: a.c0, c1: fq_neg(a.c1) }
}

pub fn fq2_eq(a: Fq2Value, b: Fq2Value) -> (r: bool)
    ensures
        r == (a@ == b@),
{
    fq_eq(a.c0, b.c0) && fq_eq(a.c1, b.c1)
}

/// The Montgomery representation of an element.
pub fn fq2_as_montgomery(a: Fq2Value) -> (r: Fq2Value)
    requires
        a.valid(),
    ensures
        r.valid(),
        r@ == ext2(encode(a@.c0), encode(a@.c1)),
        decode2(r@) == a@,
{
    Fq2Value { c0: fq_as_montgomery(a.c0), c1: fq_as_montgomery(a.c1) }
}

/// `ark_ff::Field::sqrt` on `ark_bn254::Fq2`, the complex method: the root of
/// an element with `c1 != 0` is the candidate of that method, the root of an
/// element with `c1 == 0` is a base field root or `u` times one, and there is
/// `None` only where there is no root.
#[verifier::external_body]
pub(crate) fn fq2_sqrt(a: Fq2Value) -> (r: Option<Fq2Value>)
    requires
        a.valid(),
    ensures
        r matches Some(s) ==> s.valid() && sqr2(s@) == a@ && s@ == sqrt2(a@),
        r is None ==> forall|y: Ext2| reduced2(y) ==> #[trigger] sqr2(y) != a@,
{
    let into = |v: FqValue| ark_bn254::Fq::new(ark_ff::BigInt([v.w0, v.w1, v.w2, v.w3]));
    let back = |c: ark_bn254::Fq| {
        let [w0, w1, w2, w3] = c.into_bigint().0;
        FqValue { w0, w1, w2, w3 }
    };
    let s = ark_bn254::Fq2::new(into(a.c0), into(a.c1)).sqrt()?;
    Some(Fq2Value { c0: back(s.c0), c1: back(s.c1) })
}

pub fn fq6_neg(a: Fq6Value) -> (r: Fq6Value)
    requires
        a.valid(),
    ensures
        r@ == neg6(a@),
        r.valid(),
{
    reveal(neg6);
    Fq6Value { c0: fq2_neg(a.c0), c1: fq2_neg(a.c1), c2: fq2_neg(a.c2) }
}

pub fn fq6_as_montgomery(a: Fq6Value) -> (r: Fq6Value)
    requires
        a.valid(),
    ensures
        r.valid(),
        decode6(r@) == a@,
{
    Fq6Value {
        c0: fq2_as_montgomery(a.c0),
        c1: fq2_as_montgomery(a.c1),
        c2: fq2_as_montgomery(a.c2),
    }
}

pub fn fq12_as_montgomery(a: Fq12Value) -> (r: Fq12Value)
    requires
        a.valid(),
    ensures
        r.valid(),
        decode12(r@) == a@,
{
    Fq12Value { c0: fq6_as_montgomery(a.c0), c1: fq6_as_montgomery(a.c1) }
}

pub fn fq6_zero() -> (r: Fq6Value)
    ensures
        r@ == crate::math::tower::zero6(),
        r.valid(),
{
    Fq6Value { c0: fq2_zero(), c1: fq2_zero(), c2: fq2_zero() }
}

pub fn fq12_one() -> (r: Fq12Value)
    ensures
        r@ == one12(),
        r.valid(),
{
    Fq12Value { c0: Fq6Value { c0: fq2_one(), c1: fq2_zero(), c2: fq2_zero() }, c1: fq6_zero() }
}

/// The element with the given twelve coefficients.
pub open spec fn from_coeffs(s: Seq<FqValue>) -> Fq12Value {
    Fq12Value {
        c0: Fq6Value {
            c0: Fq2Value { c0: s[0], c1: s[1] },
            c1: Fq2Value { c0: s[2], c1: s[3] },
            c2: Fq2Value { c0: s[4], c1: s[5] },
        },
        c1: Fq6Value {
            c0: Fq2Value { c0: s[6], c1: s[7] },
            c1: Fq2Value { c0: s[8], c1: s[9] },
            c2: Fq2Value { c0: s[10], c1: s[11] },
        },
    }
}

/// Twelve coefficients of a valid element.
pub open spec fn valid_coeffs(s: Seq<FqValue>) -> bool {
    s.len() == 12 && forall|i: int| 0 <= i < 12 ==> (#[trigger] s[i]).valid()
}

pub fn fq12_coeffs(a: Fq12Value) -> (r: Vec<FqValue>)
    requires
        a.valid(),
    ensures
        valid_coeffs(r@),
        from_coeffs(r@) == a,
{
    let r = vec![
        a.c0.c0.c0,
        a.c0.c0.c1,
        a.c0.c1.c0,
        a.c0.c1.c1,
        a.c0.c2.c0,
        a.c0.c2.c1,
        a.c1.c0.c0,
        a.c1.c0.c1,
        a.c1.c1.c0,
        a.c1.c1.c1,
        a.c1.c2.c0,
        a.c1.c2.c1,
    ];
    r
}

pub fn fq12_from_coeffs(s: Vec<FqValue>) -> (r: Fq12Value)
    requires
        valid_coeffs(s@),
    ensures
        r == from_coeffs(s@),
        r.valid(),
{
    Fq12Value {
        c0: Fq6Value {
            c0: Fq2Value { c0: s[0], c1: s[1] },
            c1: Fq2Value { c0: s[2], c1: s[3] },
            c2: Fq2Value { c0: s[4], c1: s[5] },
        },
        c1: Fq6Value {
            c0: Fq2Value { c0: s[6], c1: s[7] },
            c1: Fq2Value { c0: s[8], c1: s[9] },
            c2: Fq2Value { c0: s[10], c1: s[11] },
        },
    }
}

/// `ark_bn254::Fq12` multiplication, on the twelve coefficients in the order of
/// `ark_ff::Field::to_base_prime_field_elements`: the product in the tower.
#[verifier::external_body]
fn ark_fq12_mul(a: &Vec<FqValue>, b: &Vec<FqValue>) -> (r: Vec<FqValue>)
    requires
        valid_coeffs(a@),
        valid_coeffs(b@),
    ensures
        valid_coeffs(r@),
        from_coeffs(r@)@ == mul12(from_coeffs(a@)@, from_coeffs(b@)@),
{
    let into = |s: &Vec<FqValue>| -> ark_bn254::Fq12 {
        let it = s.iter().map(|v| ark_bn254::Fq::new(ark_ff::BigInt([v.w0, v.w1, v.w2, v.w3])));
        Field::from_base_prime_field_elems(it).unwrap()
    };
    let r = into(a) * into(b);
    r.to_base_prime_field_elements().map(|c| {
        let [w0, w1, w2, w3] = c.into_bigint().0;
        FqValue { w0, w1, w2, w3 }
    }).collect()
}

/// `ark_ff::Field::inverse` on `ark_bn254::Fq12`: the inverse, computed as the
/// conjugate over the norm, of every element but zero, and `None` for zero.
#[verifier::external_body]
fn ark_fq12_inverse(a: &Vec<FqValue>) -> (r: Option<Vec<FqValue>>)
    requires
        valid_coeffs(a@),
    ensures
        r matches Some(w) ==> valid_coeffs(w@) && from_coeffs(w@)@ == inv12(from_coeffs(a@)@)
            && mul12(from_coeffs(a@)@, from_coeffs(w@)@) == one12(),
        r is None <==> from_coeffs(a@)@ == zero12(),
{
    let it = a.iter().map(|v| ark_bn254::Fq::new(ark_ff::BigInt([v.w0, v.w1, v.w2, v.w3])));
    let x: ark_bn254::Fq12 = Field::from_base_prime_field_elems(it).unwrap();
    let r = x.inverse()?;
    Some(r.to_base_prime_field_elements().map(|c| {
        let [w0, w1, w2, w3] = c.into_bigint().0;
        FqValue { w0, w1, w2, w3 }
    }).collect())
}

/// `ark_ff::Field::frobenius_map` on `ark_bn254::Fq12`: the given power of the
/// Frobenius map.
#[verifier::external_body]
fn ark_fq12_frobenius(a: &Vec<FqValue>, power: usize) -> (r: Vec<FqValue>)
    requires
        valid_coeffs(a@),
        1 <= power <= 3,
    ensures
        valid_coeffs(r@),
        from_coeffs(r@)@ == frob12(from_coeffs(a@)@, power as nat),
{
    let it = a.iter().map(|v| ark_bn254::Fq::new(ark_ff::BigInt([v.w0, v.w1, v.w2, v.w3])));
    let x: ark_bn254::Fq12 = Field::from_base_prime_field_elems(it).unwrap();
    let r = x.frobenius_map(power);
    r.to_base_prime_field_elements().map(|c| {
        let [w0, w1, w2, w3] = c.into_bigint().0;
        FqValue { w0, w1, w2, w3 }
    }).collect()
}

pub fn fq12_mul(a: Fq12Value, b: Fq12Value) -> (r: Fq12Value)
    requires
        a.valid(),
        b.valid(),
    ensures
        r@ == mul12(a@, b@),
        r.valid(),
{
    fq12_from_coeffs(ark_fq12_mul(&fq12_coeffs(a), &fq12_coeffs(b)))
}

pub fn fq12_square(a: Fq12Value) -> (r: Fq12Value)
    requires
        a.valid(),
    ensures
        r@ == sqr12(a@),
        r.valid(),
{
    fq12_mul(a, a)
}

/// The inverse of every element but zero.
pub fn fq12_inverse(a: Fq12Value) -> (r: Option<Fq12Value>)
    requires
        a.valid(),
    ensures
        r matches Some(w) ==> w.valid() && w@ == inv12(a@) && mul12(a@, w@) == one12(),
        r is None <==> a@ == zero12(),
{
    match ark_fq12_inverse(&fq12_coeffs(a)) {
        Some(w) => Some(fq12_from_coeffs(w)),
        None => None,
    }
}

pub fn fq12_frobenius(a: Fq12Value, power: usize) -> (r: Fq12Value)
    requires
        a.valid(),
        1 <= power <= 3,
    ensures
        r@ == frob12(a@, power as nat),
        r.valid(),
{
    fq12_from_coeffs(ark_fq12_frobenius(&fq12_coeffs(a), power))
}

} // verus!
