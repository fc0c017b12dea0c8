//! Points outside circuits.

use ark_bn254::{Fq, Fq2, G1Projective, G2Projective};
use ark_ec::CurveGroup;
use ark_ff::{BigInt, PrimeField};
use crate::math::curve::{
    into_group1, jac1, jac2, neg_aff2, to_affine1, to_affine2, Aff1, Aff2, Jac1, Jac2,
};
use crate::math::field::{decode, modulus};
use crate::math::tower::neg2;
use crate::native::fq::{fq_as_montgomery, fq_one, fq_zero, FqValue};
use crate::native::tower::{decode2, fq2_neg, Fq2Value};
use vstd::prelude::*;

verus! {

/// The order of the curve's group, the modulus of the scalar field.
#[verifier::opaque]
pub open spec fn scalar_modulus() -> nat {
    21888242871839275222246405745257275088548364400416034343698204186575808495617nat
}

/// A scalar has no more digits than a base field element.
pub proof fn lemma_scalar_bits()
    ensures
        scalar_modulus() < vstd::arithmetic::power2::pow2(254),
{
    reveal(scalar_modulus);
    reveal(modulus);
    crate::bits::lemma_modulus_bits();
}

/// A scalar by its number.
#[derive(Clone, Copy, Debug, PartialEq, Eq, Structural)]
pub struct FrValue(pub FqValue);

/// An affine point of the curve.
#[derive(Clone, Copy, Debug, PartialEq, Eq, Structural)]
pub struct G1AffineValue {
    pub x: FqValue,
    pub y: FqValue,
    pub infinity: bool,
}

/// An affine point of the twist.
#[derive(Clone, Copy, Debug, PartialEq, Eq, Structural)]
pub struct G2AffineValue {
    pub x: Fq2Value,
    pub y: Fq2Value,
    pub infinity: bool,
}

/// A point of the curve by three coordinates.
#[derive(Clone, Copy, Debug, PartialEq, Eq, Structural)]
pub struct G1ProjectiveValue {
    pub x: FqValue,
    pub y: FqValue,
    pub z: FqValue,
}

/// A point of the twist by three coordinates.
#[derive(Clone, Copy, Debug, PartialEq, Eq, Structural)]
pub struct G2ProjectiveValue {
    pub x: Fq2Value,
    pub y: Fq2Value,
    pub z: Fq2Value,
}

impl View for FrValue {
    type V = nat;

    open spec fn view(&self) -> nat {
        self.0@
    }
}

impl View for G1AffineValue {
    type V = Aff1;

    open spec fn view(&self) -> Aff1 {
        Aff1 { x: self.x@, y: self.y@, infinity: self.infinity }
    }
}

impl View for G2AffineValue {
    type V = Aff2;

    open spec fn view(&self) -> Aff2 {
        Aff2 { x: self.x@, y: self.y@, infinity: self.infinity }
    }
}

impl View for G1ProjectiveValue {
    type V = Jac1;

    open spec fn view(&self) -> Jac1 {
        jac1(self.x@, self.y@, self.z@)
    }
}

impl View for G2ProjectiveValue {
    type V = Jac2;

    open spec fn view(&self) -> Jac2 {
        jac2(self.x@, self.y@, self.z@)
    }
}

impl FrValue {
    pub open spec fn valid(&self) -> bool {
        self@ < scalar_modulus()
    }
}

impl G1AffineValue {
    pub open spec fn valid(&self) -> bool {
        self.x.valid() && self.y.valid()
    }
}

impl G2AffineValue {
    pub open spec fn valid(&self) -> bool {
        self.x.valid() && self.y.valid()
    }
}

impl G1ProjectiveValue {
    pub open spec fn valid(&self) -> bool {
        self.x.valid() && self.y.valid() && self.z.valid()
    }
}

impl G2ProjectiveValue {
    pub open spec fn valid(&self) -> bool {
        self.x.valid() && self.y.valid() && self.z.valid()
    }
}

/// The coordinates that Montgomery representations stand for.
pub open spec fn decode_jac1(p: Jac1) -> Jac1 {
    jac1(decode(p.x), decode(p.y), decode(p.z))
}

pub open spec fn decode_jac2(p: Jac2) -> Jac2 {
    jac2(decode2(p.x), decode2(p.y), decode2(p.z))
}

/// All coordinates zero.
pub fn g1_zero() -> (r: G1ProjectiveValue)
    ensures
        r@ == jac1(0, 0, 0),
        r.valid(),
{
    G1ProjectiveValue { x: fq_zero(), y: fq_zero(), z: fq_zero() }
}

/// The coordinates in Montgomery form.
pub fn g1_as_montgomery(p: G1ProjectiveValue) -> (r: G1ProjectiveValue)
    requires
        p.valid(),
    ensures
        r.valid(),
        decode_jac1(r@) == p@,
{
    G1ProjectiveValue {
        x: fq_as_montgomery(p.x),
        y: fq_as_montgomery(p.y),
        z: fq_as_montgomery(p.z),
    }
}

/// The three coordinates of an affine point.
pub fn g1_into_group(p: G1AffineValue) -> (r: G1ProjectiveValue)
    requires
        p.valid(),
    ensures
        r.valid(),
        r@ == into_group1(p@),
        p.infinity ==> r@ == jac1(1, 1, 0),
        !p.infinity ==> r@ == jac1(p.x@, p.y@, 1),
{
    if p.infinity {
        G1ProjectiveValue { x: fq_one(), y: fq_one(), z: fq_zero() }
    } else {
        G1ProjectiveValue { x: p.x, y: p.y, z: fq_one() }
    }
}

/// The negative of an affine point.
pub fn g2_neg(q: G2AffineValue) -> (r: G2AffineValue)
    requires
        q.valid(),
    ensures
        r.valid(),
        r@ == neg_aff2(q@),
        r.x == q.x,
        r.infinity == q.infinity,
        r@.y == neg2(q@.y),
{
    G2AffineValue { x: q.x, y: fq2_neg(q.y), infinity: q.infinity }
}

/// `ark_ec::CurveGroup::into_affine` on `ark_bn254::G1Projective`: the point
/// `(x / z^2, y / z^3)`, and the point at infinity where `z` is zero.
#[verifier::external_body]
pub(crate) fn g1_into_affine(p: G1ProjectiveValue) -> (r: G1AffineValue)
    requires
        p.valid(),
    ensures
        r.valid(),
        r@ == to_affine1(p@),
{
    let into = |v: FqValue| Fq::new(BigInt([v.w0, v.w1, v.w2, v.w3]));
    let back = |c: Fq| {
        let [w0, w1, w2, w3] = c.into_bigint().0;
        FqValue { w0, w1, w2, w3 }
    };
    let q = G1Projective { x: into(p.x), y: into(p.y), z: into(p.z) };
    let a = q.into_affine();
    G1AffineValue { x: back(a.x), y: back(a.y), infinity: a.infinity }
}

/// `ark_ec::CurveGroup::into_affine` on `ark_bn254::G2Projective`: the point
/// `(x / z^2, y / z^3)`, and the point at infinity where `z` is zero.
#[verifier::external_body]
pub(crate) fn g2_into_affine(p: G2ProjectiveValue) -> (r: G2AffineValue)
    requires
        p.valid(),
    ensures
        r.valid(),
        r@ == to_affine2(p@),
{
    let fq = |v: FqValue| Fq::new(BigInt([v.w0, v.w1, v.w2, v.w3]));
    let into = |v: Fq2Value| Fq2::new(fq(v.c0), fq(v.c1));
    let limb = |c: Fq| {
        let [w0, w1, w2, w3] = c.into_bigint().0;
        FqValue { w0, w1, w2, w3 }
    };
    let back = |c: Fq2| Fq2Value { c0: limb(c.c0), c1: limb(c.c1) };
    let q = G2Projective { x: into(p.x), y: into(p.y), z: into(p.z) };
    let a = q.into_affine();
    G2AffineValue { x: back(a.x), y: back(a.y), infinity: a.infinity }
}

} // verus!
