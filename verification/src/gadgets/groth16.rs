//! The Groth16 verifier over BN254 as a gadget.
//!
//! It decides the verification equation
//! `e(A, B) * e(C, -delta) * e(msm, -gamma) == e(alpha, beta)` where
//! `msm = gamma_abc[0] + sum_i(public[i] * gamma_abc[i + 1])`.

use ark_ec::pairing::{MillerLoopOutput, Pairing};
use ark_ff::{BigInt, Field, PrimeField};
use crate::bits::{digits, lemma_digits_value};
use crate::circuit::{
    consecutive, has_wire, in_range, lemma_consecutive_distinct, lemma_start, step, values, wf,
    wire_value, zeros, CircuitContext, ExecuteMode, WireId,
};
use crate::gadgets::bn254::final_exponentiation::final_exponentiation_montgomery;
use crate::gadgets::bn254::fq::Fq;
use crate::gadgets::bn254::g1::{point_values, scalar_values};
use crate::gadgets::bn254::pairing::{multi_miller_loop_groth16_evaluate_montgomery_fast, own_lines};
use crate::gadgets::bn254::wires::{group_wires, Fq12, Fq2, Fr, G1Projective, G2Projective};
use crate::gadgets::input::{
    feed, feed_fq, feed_fq2, feed_g1, feed_g2, feed_number, fq2_digits, fq_digits, g1_digits,
    g2_digits, lemma_carries_concat, lemma_carries_fq, lemma_carries_fq2, lemma_carries_g1,
    lemma_carries_g2, lemma_feed_concat, lemma_feed_len, lemma_feed_other, lemma_feed_values,
    lemma_in_range_concat,
};
use crate::math::addition::{
    affine_points, combination1, is_point1, lemma_add1, lemma_combination_on_curve,
    lemma_into_group1, lemma_msm1, lemma_sum_on_curve, reduced_aff1, sum1,
};
use crate::math::curve::{
    add1, affine1, affine_lines, decompress1, decompress2, final_exp, into_group1, jac1, jac2,
    lemma_pairing_lines_len, lemma_to_affine1_normal, lemma_to_affine2_normal, miller, msm1,
    neg_aff2, on_curve1, on_curve2, reduced_jac1, to_affine1, to_affine2, Aff1, Aff2, Jac1, Jac2,
};
use crate::math::cyclotomic::lemma_maps_of_one;
use crate::math::exponent::{
    invertible12, lemma_final_exp_invertible, lemma_final_exp_one, lemma_final_exp_reduced,
    lemma_final_exp_zero, lemma_invertible, lemma_mul12_zero,
};
use crate::math::field::{
    fmul, fneg, fpow, lemma_constants, lemma_finv_zero, lemma_fmul_commutes, lemma_fmul_zero,
    lemma_fneg_neg, modulus, sqrt_exponent,
};
use crate::math::inverse::{lemma_inv12_or_zero, lemma_unit12};
use crate::math::negation::lemma_pairing_negated;
use crate::math::origin::{avoid_origin, is_origin, lemma_pairing_at_origin};
use crate::math::product::{
    lemma_miller_of_reduced, lemma_miller_single_reduced, lemma_pairings, miller_of, miller_single,
    pairing, pairings,
};
use crate::math::residues::lemma_root;
use crate::math::ring::{lemma_mul12_associates, lemma_mul12_commutes, lemma_mul12_medial};
use crate::math::roots::{lemma_root2, sqrt2};
use crate::math::tower::{
    inv12, mul12, neg2, one12, one2, reduced2, sqr2, zero12, zero2, Ext12, Ext2, Ext6,
};
use crate::native::constants::coeff_b2_value;
use crate::native::fq::{fq_as_montgomery, fq_eq, fq_mul, fq_one, fq_small, fq_sqrt, FqValue};
use crate::native::points::{
    g1_as_montgomery, g1_into_affine, g1_into_group, g2_into_affine, g2_neg, lemma_scalar_bits,
    FrValue, G1AffineValue, G1ProjectiveValue, G2AffineValue, G2ProjectiveValue,
};
use crate::native::tower::{
    fq12_as_montgomery, fq12_from_coeffs, fq12_inverse, fq2_as_montgomery, fq2_eq, fq2_one,
    fq2_sqrt, fq2_square, from_coeffs, valid_coeffs, Fq12Value, Fq2Value,
};
use vstd::prelude::*;

verus! {

broadcast use group_wires;

/// A verifying key.
#[derive(Debug)]
pub struct VerifyingKey {
    pub alpha_g1: G1AffineValue,
    pub beta_g2: G2AffineValue,
    pub gamma_g2: G2AffineValue,
    pub delta_g2: G2AffineValue,
    pub gamma_abc_g1: Vec<G1AffineValue>,
}

impl VerifyingKey {
    /// All coordinates are field elements, and there is a constant term.
    pub open spec fn valid(&self) -> bool {
        &&& self.alpha_g1.valid()
        &&& self.beta_g2.valid()
        &&& self.gamma_g2.valid()
        &&& self.delta_g2.valid()
        &&& self.gamma_abc_g1@.len() >= 1
        &&& forall|i: int|
            0 <= i < self.gamma_abc_g1@.len() ==> (#[trigger] self.gamma_abc_g1@[i]).valid()
    }

    /// The points that scalars multiply, and the constant term first.
    pub open spec fn bases(&self) -> Seq<Jac1> {
        Seq::new(self.gamma_abc_g1@.len(), |i: int| into_group1(self.gamma_abc_g1@[i]@))
    }

    /// The affine forms of these points.
    pub open spec fn points(&self) -> Seq<Aff1> {
        affine_points(self.bases())
    }

    /// The same key.
    pub open spec fn same(&self, other: &VerifyingKey) -> bool {
        &&& self.alpha_g1 == other.alpha_g1
        &&& self.beta_g2 == other.beta_g2
        &&& self.gamma_g2 == other.gamma_g2
        &&& self.delta_g2 == other.delta_g2
        &&& self.gamma_abc_g1@ == other.gamma_abc_g1@
    }
}

impl Clone for VerifyingKey {
    fn clone(&self) -> (r: Self)
        ensures
            r.same(self),
            r.alpha_g1 == self.alpha_g1,
            r.beta_g2 == self.beta_g2,
            r.gamma_g2 == self.gamma_g2,
            r.delta_g2 == self.delta_g2,
            r.gamma_abc_g1@ == self.gamma_abc_g1@,
    {
        let mut abc: Vec<G1AffineValue> = Vec::new();
        let mut i: usize = 0;
        while i < self.gamma_abc_g1.len()
            invariant
                i <= self.gamma_abc_g1.len(),
                abc@ == self.gamma_abc_g1@.take(i as int),
            decreases self.gamma_abc_g1.len() - i,
        {
            abc.push(self.gamma_abc_g1[i]);
            i = i + 1;
            assert(abc@ =~= self.gamma_abc_g1@.take(i as int));
        }
        assert(abc@ =~= self.gamma_abc_g1@);
        VerifyingKey {
            alpha_g1: self.alpha_g1,
            beta_g2: self.beta_g2,
            gamma_g2: self.gamma_g2,
            delta_g2: self.delta_g2,
            gamma_abc_g1: abc,
        }
    }
}

/// The affine form `(x / z^2, y / z^3, 1)`.
pub fn projective_to_affine_montgomery<C: CircuitContext>(
    circuit: &mut C,
    p: &G1Projective,
) -> (r: G1Projective)
    requires
        wf(old(circuit).wires()),
        p.ok(old(circuit).wires()),
    ensures
        step(old(circuit).wires(), final(circuit).wires()),
        r.ok(final(circuit).wires()),
        r.val(final(circuit).wires()) == affine1(p.val(old(circuit).wires())),
{
    proof {
        lemma_start(circuit.wires());
        reveal(G1Projective::ok);
        reveal(G1Projective::val);
        reveal(affine1);
    }
    let z_inverse = Fq::inverse_montgomery(circuit, &p.z);
    let z_inverse_square = Fq::square_montgomery(circuit, &z_inverse);
    proof {
        let s = circuit.wires();
        lemma_fmul_commutes(z_inverse.val(s), z_inverse_square.val(s));
    }
    let z_inverse_cube = Fq::mul_montgomery(circuit, &z_inverse, &z_inverse_square);
    let x = Fq::mul_montgomery(circuit, &p.x, &z_inverse_square);
    let y = Fq::mul_montgomery(circuit, &p.y, &z_inverse_cube);
    let z = Fq::new_constant(circuit, fq_as_montgomery(fq_one()));
    G1Projective { x, y, z }
}

/// The point `gamma_abc[0] + sum_i(public[i] * gamma_abc[i + 1])`, as many terms
/// as there are both public inputs and points.
pub open spec fn public_point(public: Seq<nat>, vk: VerifyingKey) -> Jac1 {
    let bases = vk.bases().skip(1);
    let n = if public.len() <= bases.len() {
        public.len()
    } else {
        bases.len()
    };
    add1(msm1(public, bases, n), vk.bases()[0])
}

/// The public point is the sum of the curve's points, and one of them where the
/// points of the key are.
pub proof fn lemma_public_point(public: Seq<nat>, vk: VerifyingKey)
    requires
        vk.valid(),
    ensures
        to_affine1(public_point(public, vk)) == sum1(
            combination1(
                public,
                vk.points().skip(1),
                if public.len() < vk.points().len() {
                    public.len()
                } else {
                    (vk.points().len() - 1) as nat
                },
            ),
            vk.points()[0],
        ),
        (forall|i: int| 0 <= i < vk.points().len() ==> is_point1(#[trigger] vk.points()[i]))
            ==> is_point1(to_affine1(public_point(public, vk))),
{
    let bases = vk.bases().skip(1);
    let points = vk.points().skip(1);
    let n = if public.len() <= bases.len() {
        public.len()
    } else {
        bases.len()
    };
    assert forall|i: int| 0 <= i < vk.points().len() implies reduced_jac1(
        #[trigger] vk.bases()[i],
    ) && reduced_aff1(vk.points()[i]) by {
        assert(vk.gamma_abc_g1@[i].valid());
        lemma_into_group1(vk.gamma_abc_g1@[i]@);
    }
    assert(affine_points(bases) =~= points);
    lemma_msm1(public, bases, n);
    lemma_add1(msm1(public, bases, n), vk.bases()[0]);
    if forall|i: int| 0 <= i < vk.points().len() ==> is_point1(#[trigger] vk.points()[i]) {
        assert forall|i: int| 0 <= i < n implies reduced_aff1(#[trigger] points[i]) && is_point1(
            points[i],
        ) by {
            assert(points[i] == vk.points()[i + 1]);
            assert(reduced_jac1(vk.bases()[i + 1]));
        }
        lemma_combination_on_curve(public, points, n);
        assert(reduced_jac1(vk.bases()[0]));
        lemma_sum_on_curve(combination1(public, points, n), vk.points()[0]);
    }
}

/// The left side of the verification equation.
pub open spec fn pairing_product(
    public: Seq<nat>,
    a: Jac1,
    b: Jac2,
    c: Jac1,
    vk: VerifyingKey,
) -> Ext12 {
    final_exp(miller(equation_lines(b, vk), equation_points(public, a, c, vk), 3))
}

/// The lists of lines of the three pairings.
pub open spec fn equation_lines(b: Jac2, vk: VerifyingKey) -> Seq<Seq<Ext6>> {
    seq![
        affine_lines(neg_aff2(vk.gamma_g2@)),
        affine_lines(neg_aff2(vk.delta_g2@)),
        own_lines(b),
    ]
}

/// The points that the three lists of lines are evaluated at.
pub open spec fn equation_points(public: Seq<nat>, a: Jac1, c: Jac1, vk: VerifyingKey) -> Seq<
    Jac1,
> {
    seq![affine1(public_point(public, vk)), c, a]
}

/// The left side of the verification equation is the product of the pairings of
/// `msm` and `-gamma`, of `C` and `-delta`, and of `A` and `B`.
pub proof fn lemma_verification_equation(
    public: Seq<nat>,
    a: Jac1,
    b: Jac2,
    c: Jac1,
    vk: VerifyingKey,
)
    ensures
        pairing_product(public, a, b, c, vk) == mul12(
            mul12(
                pairing(
                    affine_lines(neg_aff2(vk.gamma_g2@)),
                    affine1(public_point(public, vk)),
                ),
                pairing(affine_lines(neg_aff2(vk.delta_g2@)), c),
            ),
            pairing(own_lines(b), a),
        ),
{
    let lines = equation_lines(b, vk);
    let ps = equation_points(public, a, c, vk);
    lemma_pairings(lines, ps, 3);
    reveal_with_fuel(pairings, 3);
}

/// Where the public point is at infinity, its pairing drops out of the left side,
/// unless a line of `-gamma` passes through the origin.
pub proof fn lemma_public_point_at_infinity(
    public: Seq<nat>,
    a: Jac1,
    b: Jac2,
    c: Jac1,
    vk: VerifyingKey,
)
    requires
        to_affine1(public_point(public, vk)).infinity,
        avoid_origin(affine_lines(neg_aff2(vk.gamma_g2@))),
    ensures
        pairing_product(public, a, b, c, vk) == mul12(
            pairing(affine_lines(neg_aff2(vk.delta_g2@)), c),
            pairing(own_lines(b), a),
        ),
{
    let q = neg_aff2(vk.gamma_g2@);
    let p = affine1(public_point(public, vk));
    let delta_lines = affine_lines(neg_aff2(vk.delta_g2@));
    reveal(affine1);
    lemma_finv_zero();
    lemma_fmul_zero(0);
    lemma_fmul_zero(public_point(public, vk).x);
    lemma_fmul_zero(public_point(public, vk).y);
    assert(is_origin(p));
    lemma_pairing_lines_len(jac2(q.x, q.y, one2()), q.x, q.y);
    lemma_pairing_at_origin(affine_lines(q), p);
    lemma_verification_equation(public, a, b, c, vk);
    lemma_miller_single_reduced(delta_lines, c);
    lemma_final_exp_reduced(miller_single(delta_lines, c));
    lemma_unit12(pairing(delta_lines, c));
}

/// A proof verifies where the product of all four pairings is one: the three of
/// the left side and that of `alpha` and `-beta`.
pub proof fn lemma_four_pairings(
    public: Seq<nat>,
    a: Jac1,
    b: Jac2,
    c: Jac1,
    vk: VerifyingKey,
)
    ensures
        Some(pairing_product(public, a, b, c, vk)) == alpha_beta(vk) <==> mul12(
            pairing_product(public, a, b, c, vk),
            final_exp(miller_of(into_group1(vk.alpha_g1@), neg_aff2(vk.beta_g2@))),
        ) == one12(),
{
    let f = miller_of(into_group1(vk.alpha_g1@), neg_aff2(vk.beta_g2@));
    let e = final_exp(f);
    let p = pairing_product(public, a, b, c, vk);
    lemma_miller_of_reduced(into_group1(vk.alpha_g1@), neg_aff2(vk.beta_g2@));
    lemma_inv12_or_zero(f);
    lemma_constants();
    if invertible12(f) {
        lemma_final_exp_invertible(f);
        lemma_mul12_zero(inv12(f));
        lemma_mul12_zero(inv12(e));
        lemma_final_exp_reduced(
            miller(equation_lines(b, vk), equation_points(public, a, c, vk), 3),
        );
        lemma_mul12_commutes(e, inv12(e));
        lemma_mul12_commutes(e, p);
        if mul12(p, e) == one12() {
            lemma_invertible(e, p);
        }
    } else {
        lemma_final_exp_zero(f);
        lemma_mul12_zero(p);
    }
}

/// `ark_ec::pairing::Pairing::multi_miller_loop` over `ark_bn254::Bn254`, on one
/// pair of points: the Miller loop over the affine form of the first and the
/// lines of the second, and one where either point is at infinity.
#[verifier::external_body]
fn ark_multi_miller_loop(p: G1ProjectiveValue, q: G2AffineValue) -> (r: Vec<FqValue>)
    requires
        p.valid(),
        q.valid(),
    ensures
        valid_coeffs(r@),
        from_coeffs(r@)@ == miller_of(p@, q@),
{
    let fq = |v: FqValue| ark_bn254::Fq::new(BigInt([v.w0, v.w1, v.w2, v.w3]));
    let fq2 = |v: Fq2Value| ark_bn254::Fq2::new(fq(v.c0), fq(v.c1));
    let a = ark_bn254::G1Projective { x: fq(p.x), y: fq(p.y), z: fq(p.z) };
    let b = ark_bn254::G2Affine { x: fq2(q.x), y: fq2(q.y), infinity: q.infinity };
    let f = ark_bn254::Bn254::multi_miller_loop([a], [b]).0;
    f.to_base_prime_field_elements().map(|c| {
        let [w0, w1, w2, w3] = c.into_bigint().0;
        FqValue { w0, w1, w2, w3 }
    }).collect()
}

/// `ark_ec::pairing::Pairing::final_exponentiation` over `ark_bn254::Bn254`: the
/// easy part and the hard part of the exponentiation, and nothing for zero.
#[verifier::external_body]
fn ark_final_exponentiation(f: &Vec<FqValue>) -> (r: Option<Vec<FqValue>>)
    requires
        valid_coeffs(f@),
    ensures
        r is None <==> from_coeffs(f@)@ == zero12(),
        r matches Some(v) ==> valid_coeffs(v@) && from_coeffs(v@)@ == final_exp(from_coeffs(f@)@),
{
    let it = f.iter().map(|v| ark_bn254::Fq::new(BigInt([v.w0, v.w1, v.w2, v.w3])));
    let x = MillerLoopOutput(Field::from_base_prime_field_elems(it).unwrap());
    let r = ark_bn254::Bn254::final_exponentiation(x)?.0;
    Some(r.to_base_prime_field_elements().map(|c| {
        let [w0, w1, w2, w3] = c.into_bigint().0;
        FqValue { w0, w1, w2, w3 }
    }).collect())
}

/// The pairing of two points, one where either is at infinity.
pub open spec fn pairing_of(p: Jac1, q: Aff2) -> Ext12 {
    final_exp(miller_of(p, q))
}

/// The pairing with the negative of a point is the inverse of the pairing with
/// the point, where that is not zero.
pub proof fn lemma_pairing_of_negative(p: Jac1, q: Aff2)
    requires
        reduced2(q.x),
        reduced2(q.y),
        pairing_of(p, q) != zero12(),
    ensures
        mul12(pairing_of(p, neg_aff2(q)), pairing_of(p, q)) == one12(),
{
    if p.z == 0 || q.infinity {
        lemma_final_exp_one();
        lemma_maps_of_one();
        lemma_unit12(one12());
    } else {
        lemma_pairing_negated(q, affine1(p));
    }
}

/// The right side of the verification equation is the pairing of `alpha` and
/// `beta`, where that is not zero.
pub proof fn lemma_alpha_beta(vk: VerifyingKey)
    requires
        vk.valid(),
        pairing_of(into_group1(vk.alpha_g1@), vk.beta_g2@) != zero12(),
    ensures
        alpha_beta(vk) == Some(pairing_of(into_group1(vk.alpha_g1@), vk.beta_g2@)),
{
    let (alpha, beta) = (into_group1(vk.alpha_g1@), vk.beta_g2@);
    let (k, n) = (pairing_of(alpha, beta), pairing_of(alpha, neg_aff2(beta)));
    let f = miller_of(alpha, neg_aff2(beta));
    lemma_pairing_of_negative(alpha, beta);
    lemma_final_exp_reduced(miller_of(alpha, beta));
    lemma_final_exp_reduced(f);
    lemma_invertible(n, k);
    lemma_mul12_zero(k);
    lemma_constants();
    if f == zero12() {
        lemma_miller_of_reduced(alpha, neg_aff2(beta));
        lemma_inv12_or_zero(f);
        lemma_mul12_zero(inv12(f));
        lemma_final_exp_zero(f);
    }
}

/// A proof verifies where `e(A, B) = e(alpha, beta) e(L, gamma) e(C, delta)` for
/// the public point `L`, as long as none of the three pairings with a point of the
/// key is zero.
pub proof fn lemma_groth16_equation(public: Seq<nat>, a: Jac1, b: Jac2, c: Jac1, vk: VerifyingKey)
    requires
        vk.valid(),
        pairing_of(into_group1(vk.alpha_g1@), vk.beta_g2@) != zero12(),
        pairing(affine_lines(vk.gamma_g2@), affine1(public_point(public, vk))) != zero12(),
        pairing(affine_lines(vk.delta_g2@), c) != zero12(),
    ensures
        Some(pairing_product(public, a, b, c, vk)) == alpha_beta(vk) <==> pairing(
            own_lines(b),
            a,
        ) == mul12(
            mul12(
                pairing_of(into_group1(vk.alpha_g1@), vk.beta_g2@),
                pairing(affine_lines(vk.gamma_g2@), affine1(public_point(public, vk))),
            ),
            pairing(affine_lines(vk.delta_g2@), c),
        ),
{
    let (alpha, beta) = (into_group1(vk.alpha_g1@), vk.beta_g2@);
    let l = affine1(public_point(public, vk));
    let (gamma, delta) = (vk.gamma_g2@, vk.delta_g2@);
    let k = pairing_of(alpha, beta);
    let (eg, ng) = (pairing(affine_lines(gamma), l), pairing(affine_lines(neg_aff2(gamma)), l));
    let (ed, nd) = (pairing(affine_lines(delta), c), pairing(affine_lines(neg_aff2(delta)), c));
    let (z, pp) = (pairing(own_lines(b), a), pairing_product(public, a, b, c, vk));
    lemma_pairing_negated(gamma, l);
    lemma_pairing_negated(delta, c);
    lemma_verification_equation(public, a, b, c, vk);
    lemma_final_exp_reduced(miller_of(alpha, beta));
    lemma_final_exp_reduced(miller_single(own_lines(b), a));
    lemma_alpha_beta(vk);
    lemma_constants();
    // e(L, -gamma) e(C, -delta) is the inverse of e(L, gamma) e(C, delta)
    let (m, g) = (mul12(ng, nd), mul12(eg, ed));
    lemma_mul12_medial(ng, nd, eg, ed);
    lemma_maps_of_one();
    lemma_unit12(one12());
    lemma_unit12(z);
    lemma_unit12(k);
    lemma_mul12_commutes(m, g);
    lemma_mul12_associates(g, m, z);
    lemma_mul12_associates(m, g, k);
    lemma_mul12_commutes(g, k);
    lemma_mul12_commutes(one12(), z);
    lemma_mul12_commutes(one12(), k);
    lemma_mul12_associates(k, eg, ed);
}

/// The right side of the verification equation, `e(alpha, -beta)^-1`, where it
/// is defined.
pub open spec fn alpha_beta(vk: VerifyingKey) -> Option<Ext12> {
    let f = miller_of(into_group1(vk.alpha_g1@), neg_aff2(vk.beta_g2@));
    let e = final_exp(f);
    if f == zero12() || e == zero12() {
        None
    } else {
        Some(inv12(e))
    }
}

/// The right side of the verification equation.
pub fn alpha_beta_pairing(vk: &VerifyingKey) -> (r: Option<Fq12Value>)
    requires
        vk.valid(),
    ensures
        r is Some <==> alpha_beta(*vk) is Some,
        r matches Some(v) ==> v.valid() && alpha_beta(*vk) == Some(v@),
{
    let f = ark_multi_miller_loop(g1_into_group(vk.alpha_g1), g2_neg(vk.beta_g2));
    match ark_final_exponentiation(&f) {
        Some(e) => fq12_inverse(fq12_from_coeffs(e)),
        None => None,
    }
}

/// The wires of a proof and its public inputs, and the key.
#[derive(Debug)]
pub struct Groth16VerifyInputWires {
    pub public: Vec<Fr>,
    pub a: G1Projective,
    pub b: G2Projective,
    pub c: G1Projective,
    pub vk: VerifyingKey,
}

impl Groth16VerifyInputWires {
    /// The wires carry scalars and coordinates.
    pub open spec fn ok(&self, s: Seq<bool>) -> bool {
        &&& forall|i: int| 0 <= i < self.public@.len() ==> (#[trigger] self.public@[i]).ok(s)
        &&& self.a.ok(s)
        &&& self.b.ok(s)
        &&& self.c.ok(s)
        &&& self.vk.valid()
    }

    /// The left side of the verification equation for what the wires carry.
    pub open spec fn product(&self, s: Seq<bool>) -> Ext12 {
        pairing_product(
            scalar_values(s, self.public@),
            self.a.val(s),
            self.b.val(s),
            self.c.val(s),
            self.vk,
        )
    }
}

/// The points that public inputs multiply.
fn msm_bases(vk: &VerifyingKey, n: usize) -> (r: Vec<G1ProjectiveValue>)
    requires
        vk.valid(),
    ensures
        forall|i: int| 0 <= i < r@.len() ==> (#[trigger] r@[i]).valid(),
        r@.len() == (if n < vk.gamma_abc_g1@.len() {
            n as int
        } else {
            vk.gamma_abc_g1@.len() - 1
        }),
        point_values(r@) == vk.bases().skip(1).take(r@.len() as int),
        forall|i: int|
            0 <= i < r@.len() ==> (#[trigger] r@[i])@ == into_group1(vk.gamma_abc_g1@[i + 1]@),
{
    let mut r: Vec<G1ProjectiveValue> = Vec::new();
    let mut i: usize = 1;
    while i < vk.gamma_abc_g1.len() && i - 1 < n
        invariant
            1 <= i <= vk.gamma_abc_g1@.len(),
            i - 1 <= n,
            vk.valid(),
            r@.len() == i - 1,
            forall|j: int| 0 <= j < r@.len() ==> (#[trigger] r@[j]).valid(),
            forall|j: int| 0 <= j < r@.len() ==> (#[trigger] r@[j])@ == vk.bases()[j + 1],
            forall|j: int|
                0 <= j < r@.len() ==> (#[trigger] r@[j])@ == into_group1(vk.gamma_abc_g1@[j + 1]@),
        decreases vk.gamma_abc_g1@.len() - i,
    {
        assert(vk.gamma_abc_g1@[i as int].valid());
        r.push(g1_into_group(vk.gamma_abc_g1[i]));
        i = i + 1;
    }
    assert(point_values(r@) =~= vk.bases().skip(1).take(r@.len() as int));
    r
}

proof fn lemma_msm_prefix(scalars: Seq<nat>, p: Seq<Jac1>, q: Seq<Jac1>, n: nat)
    requires
        forall|i: int| 0 <= i < n ==> p[i] == q[i],
    ensures
        msm1(scalars, p, n) == msm1(scalars, q, n),
    decreases n,
{
    if n > 0 {
        lemma_msm_prefix(scalars, p, q, (n - 1) as nat);
    }
}

/// Decides the verification equation for a proof by its parts, given the
/// equation's right side.
fn verify_parts<C: CircuitContext>(
    circuit: &mut C,
    public: &Vec<Fr>,
    a: &G1Projective,
    b: &G2Projective,
    c: &G1Projective,
    vk: &VerifyingKey,
    alpha_beta: Fq12Value,
) -> (r: WireId)
    requires
        wf(old(circuit).wires()),
        forall|i: int| 0 <= i < public@.len() ==> (#[trigger] public@[i]).ok(old(circuit).wires()),
        a.ok(old(circuit).wires()),
        b.ok(old(circuit).wires()),
        c.ok(old(circuit).wires()),
        vk.valid(),
        alpha_beta.valid(),
    ensures
        step(old(circuit).wires(), final(circuit).wires()),
        has_wire(final(circuit).wires(), r),
        wire_value(final(circuit).wires(), r) == (pairing_product(
            scalar_values(old(circuit).wires(), public@),
            a.val(old(circuit).wires()),
            b.val(old(circuit).wires()),
            c.val(old(circuit).wires()),
            *vk,
        ) == alpha_beta@),
{
    let ghost s0 = circuit.wires();
    proof {
        lemma_start(s0);
    }
    let bases = msm_bases(vk, public.len());
    let msm_temp = G1Projective::msm_with_constant_bases_montgomery(circuit, public, &bases);
    assert(vk.gamma_abc_g1@[0].valid());
    let gamma0_m = g1_as_montgomery(g1_into_group(vk.gamma_abc_g1[0]));
    let gamma0 = G1Projective::new_constant(circuit, gamma0_m);
    let msm = G1Projective::add_montgomery(circuit, &msm_temp, &gamma0);
    proof {
        let scalars = scalar_values(s0, public@);
        let p = point_values(bases@);
        let q = vk.bases().skip(1);
        assert forall|i: int| 0 <= i < bases@.len() implies p[i] == q[i] by {
            assert(q.take(bases@.len() as int)[i] == q[i]);
        }
        lemma_msm_prefix(scalars, p, q, bases@.len());
        assert(msm.val(circuit.wires()) == public_point(scalars, *vk));
    }
    let msm_affine = projective_to_affine_montgomery(circuit, &msm);
    let f = multi_miller_loop_groth16_evaluate_montgomery_fast(
        circuit,
        &msm_affine,
        c,
        a,
        g2_neg(vk.gamma_g2),
        g2_neg(vk.delta_g2),
        b,
    );
    let f = final_exponentiation_montgomery(circuit, &f);
    Fq12::equal_constant(circuit, &f, fq12_as_montgomery(alpha_beta))
}

/// Decides the verification equation, given its right side.
pub fn groth16_verify_with_pairing<C: CircuitContext>(
    circuit: &mut C,
    input: &Groth16VerifyInputWires,
    alpha_beta: Fq12Value,
) -> (r: WireId)
    requires
        wf(old(circuit).wires()),
        input.ok(old(circuit).wires()),
        alpha_beta.valid(),
    ensures
        step(old(circuit).wires(), final(circuit).wires()),
        has_wire(final(circuit).wires(), r),
        wire_value(final(circuit).wires(), r) == (input.product(old(circuit).wires()) == alpha_beta@),
{
    verify_parts(circuit, &input.public, &input.a, &input.b, &input.c, &input.vk, alpha_beta)
}

/// Decides whether a proof verifies, for a key for which the pairing of
/// `alpha` and `beta` is defined.
pub fn groth16_verify<C: CircuitContext>(
    circuit: &mut C,
    input: &Groth16VerifyInputWires,
) -> (r: WireId)
    requires
        wf(old(circuit).wires()),
        input.ok(old(circuit).wires()),
        alpha_beta(input.vk) is Some,
    ensures
        step(old(circuit).wires(), final(circuit).wires()),
        has_wire(final(circuit).wires(), r),
        wire_value(final(circuit).wires(), r) == (Some(input.product(old(circuit).wires()))
            == alpha_beta(input.vk)),
{
    let v = alpha_beta_pairing(&input.vk).unwrap();
    groth16_verify_with_pairing(circuit, input, v)
}

/// Decides whether a proof verifies, and adds nothing to the circuit where the
/// pairing of `alpha` and `beta` is not defined.
pub fn groth16_verify_checked<C: CircuitContext>(
    circuit: &mut C,
    input: &Groth16VerifyInputWires,
) -> (r: Option<WireId>)
    requires
        wf(old(circuit).wires()),
        input.ok(old(circuit).wires()),
    ensures
        step(old(circuit).wires(), final(circuit).wires()),
        r is Some <==> alpha_beta(input.vk) is Some,
        r is None ==> *final(circuit) == *old(circuit),
        r matches Some(w) ==> has_wire(final(circuit).wires(), w) && wire_value(
            final(circuit).wires(),
            w,
        ) == (Some(input.product(old(circuit).wires())) == alpha_beta(input.vk)),
{
    match alpha_beta_pairing(&input.vk) {
        Some(v) => Some(groth16_verify_with_pairing(circuit, input, v)),
        None => {
            proof {
                lemma_start(circuit.wires());
            }
            None
        },
    }
}

/// The wires of a compressed point of the curve: its abscissa in Montgomery
/// form, and which of the two roots its ordinate is.
#[derive(Debug)]
pub struct CompressedG1Wires {
    pub x_m: Fq,
    pub y_flag: WireId,
}

/// The wires of a compressed point of the twist.
#[derive(Debug)]
pub struct CompressedG2Wires {
    pub p: Fq2,
    pub y_flag: WireId,
}

impl CompressedG1Wires {
    pub open spec fn ok(&self, s: Seq<bool>) -> bool {
        self.x_m.ok(s) && has_wire(s, self.y_flag)
    }

    /// The point that the wires carry.
    pub open spec fn point(&self, s: Seq<bool>) -> Jac1 {
        decompress1(self.x_m.val(s), wire_value(s, self.y_flag))
    }
}

impl CompressedG2Wires {
    pub open spec fn ok(&self, s: Seq<bool>) -> bool {
        self.p.ok(s) && has_wire(s, self.y_flag)
    }

    /// The point that the wires carry.
    pub open spec fn point(&self, s: Seq<bool>) -> Jac2 {
        decompress2(self.p.val(s), wire_value(s, self.y_flag))
    }
}

/// The point of a compressed point. The abscissa stays on its wires.
pub fn decompress_g1_from_compressed<C: CircuitContext>(
    circuit: &mut C,
    compressed: &CompressedG1Wires,
) -> (r: G1Projective)
    requires
        wf(old(circuit).wires()),
        compressed.ok(old(circuit).wires()),
    ensures
        step(old(circuit).wires(), final(circuit).wires()),
        r.ok(final(circuit).wires()),
        r.val(final(circuit).wires()) == compressed.point(old(circuit).wires()),
        r.x.wire_ids() == compressed.x_m.wire_ids(),
{
    proof {
        lemma_start(circuit.wires());
        reveal(G1Projective::ok);
        reveal(G1Projective::val);
        reveal(decompress1);
    }
    let x_m = &compressed.x_m;
    let x2 = Fq::square_montgomery(circuit, x_m);
    let x3 = Fq::mul_montgomery(circuit, &x2, x_m);
    let b_m = fq_as_montgomery(fq_small(3));
    let rhs = Fq::add_constant(circuit, &x3, b_m);
    let sy = Fq::sqrt_montgomery(circuit, &rhs);
    let sy_neg = Fq::neg(circuit, &sy);
    let y = Fq::select(circuit, &sy, &sy_neg, compressed.y_flag);
    let z = Fq::new_constant(circuit, fq_as_montgomery(fq_one()));
    G1Projective { x: x_m.clone(), y, z }
}

/// The point of a compressed point of the twist. The abscissa stays on its
/// wires.
pub fn decompress_g2_from_compressed<C: CircuitContext>(
    circuit: &mut C,
    compressed: &CompressedG2Wires,
) -> (r: G2Projective)
    requires
        wf(old(circuit).wires()),
        compressed.ok(old(circuit).wires()),
    ensures
        step(old(circuit).wires(), final(circuit).wires()),
        r.ok(final(circuit).wires()),
        r.val(final(circuit).wires()) == compressed.point(old(circuit).wires()),
        r.x.wire_ids() == compressed.p.wire_ids(),
{
    proof {
        lemma_start(circuit.wires());
        reveal(G2Projective::ok);
        reveal(G2Projective::val);
        reveal(decompress2);
    }
    let x = &compressed.p;
    let x2 = Fq2::square_montgomery(circuit, x);
    let x3 = Fq2::mul_montgomery(circuit, &x2, x);
    let y2 = Fq2::add_constant(circuit, &x3, fq2_as_montgomery(coeff_b2_value()));
    let root = Fq2::sqrt_general_montgomery(circuit, &y2);
    let neg_root = Fq2::neg(circuit, &root);
    let y = Fq2::select(circuit, &root, &neg_root, compressed.y_flag);
    let z = Fq2::new_constant(circuit, fq2_as_montgomery(fq2_one()));
    G2Projective { x: x.clone(), y, z }
}

/// The wires of a compressed proof and its public inputs, and the key.
#[derive(Debug)]
pub struct Groth16VerifyCompressedInputWires {
    pub public: Vec<Fr>,
    pub a: CompressedG1Wires,
    pub b: CompressedG2Wires,
    pub c: CompressedG1Wires,
    pub vk: VerifyingKey,
}

impl Groth16VerifyCompressedInputWires {
    pub open spec fn ok(&self, s: Seq<bool>) -> bool {
        &&& forall|i: int| 0 <= i < self.public@.len() ==> (#[trigger] self.public@[i]).ok(s)
        &&& self.a.ok(s)
        &&& self.b.ok(s)
        &&& self.c.ok(s)
        &&& self.vk.valid()
    }

    /// The left side of the verification equation for the points that the
    /// wires carry.
    pub open spec fn product(&self, s: Seq<bool>) -> Ext12 {
        pairing_product(
            scalar_values(s, self.public@),
            self.a.point(s),
            self.b.point(s),
            self.c.point(s),
            self.vk,
        )
    }
}

/// Decides the verification equation for a compressed proof, given its right
/// side.
pub fn groth16_verify_compressed_with_pairing<C: CircuitContext>(
    circuit: &mut C,
    input: &Groth16VerifyCompressedInputWires,
    alpha_beta: Fq12Value,
) -> (r: WireId)
    requires
        wf(old(circuit).wires()),
        input.ok(old(circuit).wires()),
        alpha_beta.valid(),
    ensures
        step(old(circuit).wires(), final(circuit).wires()),
        has_wire(final(circuit).wires(), r),
        wire_value(final(circuit).wires(), r) == (input.product(old(circuit).wires()) == alpha_beta@),
{
    let ghost s0 = circuit.wires();
    proof {
        lemma_start(s0);
    }
    let a = decompress_g1_from_compressed(circuit, &input.a);
    let b = decompress_g2_from_compressed(circuit, &input.b);
    let c = decompress_g1_from_compressed(circuit, &input.c);
    assert(scalar_values(circuit.wires(), input.public@) =~= scalar_values(s0, input.public@));
    verify_parts(circuit, &input.public, &a, &b, &c, &input.vk, alpha_beta)
}

/// Decides whether a compressed proof verifies, for a key for which the pairing
/// of `alpha` and `beta` is defined.
pub fn groth16_verify_compressed<C: CircuitContext>(
    circuit: &mut C,
    input: &Groth16VerifyCompressedInputWires,
) -> (r: WireId)
    requires
        wf(old(circuit).wires()),
        input.ok(old(circuit).wires()),
        alpha_beta(input.vk) is Some,
    ensures
        step(old(circuit).wires(), final(circuit).wires()),
        has_wire(final(circuit).wires(), r),
        wire_value(final(circuit).wires(), r) == (Some(input.product(old(circuit).wires()))
            == alpha_beta(input.vk)),
{
    let v = alpha_beta_pairing(&input.vk).unwrap();
    groth16_verify_compressed_with_pairing(circuit, input, v)
}

/// Decides whether a compressed proof verifies, and adds nothing to the circuit
/// where the pairing of `alpha` and `beta` is not defined.
pub fn groth16_verify_compressed_checked<C: CircuitContext>(
    circuit: &mut C,
    input: &Groth16VerifyCompressedInputWires,
) -> (r: Option<WireId>)
    requires
        wf(old(circuit).wires()),
        input.ok(old(circuit).wires()),
    ensures
        step(old(circuit).wires(), final(circuit).wires()),
        r is Some <==> alpha_beta(input.vk) is Some,
        r is None ==> *final(circuit) == *old(circuit),
        r matches Some(w) ==> has_wire(final(circuit).wires(), w) && wire_value(
            final(circuit).wires(),
            w,
        ) == (Some(input.product(old(circuit).wires())) == alpha_beta(input.vk)),
{
    match alpha_beta_pairing(&input.vk) {
        Some(v) => Some(groth16_verify_compressed_with_pairing(circuit, input, v)),
        None => {
            proof {
                lemma_start(circuit.wires());
            }
            None
        },
    }
}

/// A proof and its public inputs, and the key.
#[derive(Debug)]
pub struct Groth16VerifyInput {
    pub public: Vec<FrValue>,
    pub a: G1ProjectiveValue,
    pub b: G2ProjectiveValue,
    pub c: G1ProjectiveValue,
    pub vk: VerifyingKey,
}

/// A proof to be compressed when it is fed to a circuit.
#[derive(Debug)]
pub struct Groth16VerifyCompressedInput(pub Groth16VerifyInput);

impl Groth16VerifyInput {
    /// The numbers are scalars and field elements.
    pub open spec fn valid(&self) -> bool {
        &&& forall|i: int| 0 <= i < self.public@.len() ==> (#[trigger] self.public@[i]).valid()
        &&& self.a.valid()
        &&& self.b.valid()
        &&& self.c.valid()
    }

    pub fn compress(self) -> (r: Groth16VerifyCompressedInput)
        ensures
            r.0 == self,
    {
        Groth16VerifyCompressedInput(self)
    }
}

/// The wires of the first `m` scalars.
pub open spec fn public_ids(w: Seq<Fr>, m: nat) -> Seq<WireId>
    decreases m,
{
    if m == 0 {
        Seq::empty()
    } else {
        public_ids(w, (m - 1) as nat) + w[m - 1].wire_ids()
    }
}

/// The digits of the first `m` scalars.
pub open spec fn public_digits(v: Seq<FrValue>, m: nat) -> Seq<bool>
    decreases m,
{
    if m == 0 {
        Seq::empty()
    } else {
        public_digits(v, (m - 1) as nat) + digits(v[m - 1]@, 254)
    }
}

/// As many scalars as there are both wires and values for.
pub open spec fn public_count(w: Seq<Fr>, v: Seq<FrValue>) -> nat {
    if w.len() <= v.len() {
        w.len()
    } else {
        v.len()
    }
}

pub open spec fn all_shaped(w: Seq<Fr>) -> bool {
    forall|i: int| 0 <= i < w.len() ==> (#[trigger] w[i]).shaped()
}

/// Each scalar has as many wires as digits.
pub proof fn lemma_public_len(w: Seq<Fr>, v: Seq<FrValue>, m: nat)
    requires
        all_shaped(w),
        m <= w.len(),
    ensures
        public_ids(w, m).len() == 254 * m,
        public_digits(v, m).len() == 254 * m,
    decreases m,
{
    if m > 0 {
        lemma_public_len(w, v, (m - 1) as nat);
        assert(w[m - 1].shaped());
    }
}

proof fn lemma_public_ids_range(s: Seq<bool>, w: Seq<Fr>, i: nat, m: nat)
    requires
        in_range(s, public_ids(w, m)),
        i <= m,
    ensures
        in_range(s, public_ids(w, i)),
        i > 0 ==> in_range(s, w[i - 1].wire_ids()),
    decreases m,
{
    if m > 0 {
        lemma_in_range_concat(s, public_ids(w, (m - 1) as nat), w[m - 1].wire_ids());
        if i < m {
            lemma_public_ids_range(s, w, i, (m - 1) as nat);
        }
    }
}

/// Wires that carry the digits of scalars carry the scalars.
proof fn lemma_carries_public(s: Seq<bool>, w: Seq<Fr>, v: Seq<FrValue>, m: nat)
    requires
        all_shaped(w),
        m <= w.len(),
        m <= v.len(),
        forall|i: int| 0 <= i < v.len() ==> (#[trigger] v[i]).valid(),
        in_range(s, public_ids(w, m)),
        values(s, public_ids(w, m)) == public_digits(v, m),
    ensures
        forall|i: int| 0 <= i < m ==> (#[trigger] w[i]).ok(s) && w[i].val(s) == v[i]@,
    decreases m,
{
    if m > 0 {
        let k = (m - 1) as nat;
        lemma_public_len(w, v, k);
        lemma_carries_concat(s, public_ids(w, k), w[m - 1].wire_ids(), public_digits(v, k), digits(v[m - 1]@, 254));
        lemma_carries_public(s, w, v, k);
        assert(w[m - 1].shaped());
        assert(v[m - 1].valid());
        lemma_scalar_bits();
        lemma_digits_value(v[m - 1]@, 254);
        reveal(Fr::ok);
        reveal(Fr::val);
    }
}

/// Feeds the wires of scalars.
fn feed_public(cache: &mut ExecuteMode, w: &Vec<Fr>, v: &Vec<FrValue>)
    requires
        all_shaped(w@),
        forall|i: int| 0 <= i < v@.len() ==> (#[trigger] v@[i]).valid(),
        in_range(old(cache).wires(), public_ids(w@, public_count(w@, v@))),
    ensures
        final(cache).wires() == feed(
            old(cache).wires(),
            public_ids(w@, public_count(w@, v@)),
            public_digits(v@, public_count(w@, v@)),
        ),
        final(cache).wires().len() == old(cache).wires().len(),
{
    let ghost s0 = cache.wires();
    let ghost m = public_count(w@, v@);
    let mut i: usize = 0;
    while i < w.len() && i < v.len()
        invariant
            i <= w@.len(),
            i <= v@.len(),
            m == public_count(w@, v@),
            all_shaped(w@),
            forall|j: int| 0 <= j < v@.len() ==> (#[trigger] v@[j]).valid(),
            in_range(s0, public_ids(w@, m)),
            cache.wires().len() == s0.len(),
            cache.wires() == feed(s0, public_ids(w@, i as nat), public_digits(v@, i as nat)),
        decreases w@.len() - i,
    {
        proof {
            lemma_public_ids_range(s0, w@, (i + 1) as nat, m);
            assert(w@[i as int].shaped());
            assert(v@[i as int].valid());
            lemma_scalar_bits();
            lemma_public_len(w@, v@, i as nat);
        }
        feed_number(cache, &w[i].0, v[i].0);
        proof {
            lemma_feed_concat(
                s0,
                public_ids(w@, i as nat),
                public_digits(v@, i as nat),
                w@[i as int].wire_ids(),
                digits(v@[i as int]@, 254),
            );
        }
        i = i + 1;
    }
}

/// Issues the wires of scalars.
fn allocate_public<C: CircuitContext>(circuit: &mut C, n: usize) -> (r: Vec<Fr>)
    ensures
        r@.len() == n,
        all_shaped(r@),
        public_ids(r@, n as nat).len() == 254 * n,
        consecutive(public_ids(r@, n as nat), old(circuit).wires().len()),
        final(circuit).wires() == old(circuit).wires() + zeros((254 * n) as nat),
{
    let ghost s0 = circuit.wires();
    let mut r: Vec<Fr> = Vec::new();
    let mut i: usize = 0;
    assert(s0 + zeros(0) =~= s0);
    while i < n
        invariant
            i <= n,
            r@.len() == i,
            all_shaped(r@),
            public_ids(r@, i as nat).len() == 254 * i,
            consecutive(public_ids(r@, i as nat), s0.len()),
            circuit.wires() == s0 + zeros((254 * i) as nat),
        decreases n - i,
    {
        let ghost r0 = r@;
        let f = Fr::new(circuit);
        r.push(f);
        proof {
            lemma_public_ids_prefix(r0, r@, i as nat);
            assert(circuit.wires() =~= s0 + zeros((254 * (i + 1)) as nat));
        }
        i = i + 1;
    }
    r
}

proof fn lemma_public_ids_prefix(a: Seq<Fr>, b: Seq<Fr>, m: nat)
    requires
        m <= a.len(),
        m <= b.len(),
        forall|i: int| 0 <= i < m ==> a[i] == b[i],
    ensures
        public_ids(a, m) == public_ids(b, m),
    decreases m,
{
    if m > 0 {
        lemma_public_ids_prefix(a, b, (m - 1) as nat);
    }
}

/// The wires of scalars, in order.
fn collect_public(w: &Vec<Fr>) -> (r: Vec<WireId>)
    ensures
        r@ == public_ids(w@, w@.len()),
{
    let mut ids: Vec<WireId> = Vec::new();
    let mut i: usize = 0;
    while i < w.len()
        invariant
            i <= w@.len(),
            ids@ == public_ids(w@, i as nat),
        decreases w@.len() - i,
    {
        ids.append(&mut w[i].to_wires_vec());
        i = i + 1;
    }
    ids
}

impl Groth16VerifyInputWires {
    /// There are as many wires as digits.
    pub open spec fn shaped(&self) -> bool {
        all_shaped(self.public@) && self.a.shaped() && self.b.shaped() && self.c.shaped()
    }

    /// The wires of the first `m` scalars and of the points.
    pub open spec fn wire_ids(&self, m: nat) -> Seq<WireId> {
        public_ids(self.public@, m) + self.a.wire_ids() + self.b.wire_ids() + self.c.wire_ids()
    }
}

impl Groth16VerifyInput {
    /// The digits of the first `m` scalars and of the points.
    pub open spec fn digits(&self, m: nat) -> Seq<bool> {
        public_digits(self.public@, m) + g1_digits(self.a@) + g2_digits(self.b@) + g1_digits(self.c@)
    }

    /// Issues the wires of a proof and its public inputs.
    pub fn allocate<C: CircuitContext>(&self, circuit: &mut C) -> (r: Groth16VerifyInputWires)
        ensures
            r.shaped(),
            r.public@.len() == self.public@.len(),
            r.vk.same(&self.vk),
            r.wire_ids(r.public@.len()).len() == 254 * self.public@.len() + 3048,
            consecutive(r.wire_ids(r.public@.len()), old(circuit).wires().len()),
            final(circuit).wires() == old(circuit).wires() + zeros(
                (254 * self.public@.len() + 3048) as nat,
            ),
    {
        let ghost s0 = circuit.wires();
        let public = allocate_public(circuit, self.public.len());
        let a = G1Projective::new(circuit);
        let b = G2Projective::new(circuit);
        let c = G1Projective::new(circuit);
        assert(circuit.wires() =~= s0 + zeros((254 * self.public@.len() + 3048) as nat));
        Groth16VerifyInputWires { public, a, b, c, vk: self.vk.clone() }
    }

    /// The wires, in order.
    pub fn collect_wire_ids(repr: &Groth16VerifyInputWires) -> (r: Vec<WireId>)
        ensures
            r@ == repr.wire_ids(repr.public@.len()),
    {
        let mut ids = collect_public(&repr.public);
        ids.append(&mut repr.a.to_wires_vec());
        ids.append(&mut repr.b.to_wires_vec());
        ids.append(&mut repr.c.to_wires_vec());
        ids
    }

    /// Feeds the wires of a proof and its public inputs. Different wires then
    /// carry what they were issued for.
    pub fn encode(&self, repr: &Groth16VerifyInputWires, cache: &mut ExecuteMode)
        requires
            self.valid(),
            repr.shaped(),
            in_range(
                old(cache).wires(),
                repr.wire_ids(public_count(repr.public@, self.public@)),
            ),
        ensures
            final(cache).wires() == feed(
                old(cache).wires(),
                repr.wire_ids(public_count(repr.public@, self.public@)),
                self.digits(public_count(repr.public@, self.public@)),
            ),
            repr.wire_ids(public_count(repr.public@, self.public@)).no_duplicates() ==> {
                &&& forall|i: int|
                    0 <= i < public_count(repr.public@, self.public@) ==> (
                    #[trigger] repr.public@[i]).ok(final(cache).wires()) && repr.public@[i].val(
                        final(cache).wires(),
                    ) == self.public@[i]@
                &&& repr.a.ok(final(cache).wires())
                &&& repr.a.val(final(cache).wires()) == self.a@
                &&& repr.b.ok(final(cache).wires())
                &&& repr.b.val(final(cache).wires()) == self.b@
                &&& repr.c.ok(final(cache).wires())
                &&& repr.c.val(final(cache).wires()) == self.c@
            },
    {
        let ghost s0 = cache.wires();
        let ghost m = public_count(repr.public@, self.public@);
        let ghost wp = public_ids(repr.public@, m);
        let ghost bp = public_digits(self.public@, m);
        let ghost wa = repr.a.wire_ids();
        let ghost wb = repr.b.wire_ids();
        let ghost wc = repr.c.wire_ids();
        let ghost ba = g1_digits(self.a@);
        let ghost bb = g2_digits(self.b@);
        let ghost bc = g1_digits(self.c@);
        proof {
            lemma_in_range_concat(s0, wp + wa + wb, wc);
            lemma_in_range_concat(s0, wp + wa, wb);
            lemma_in_range_concat(s0, wp, wa);
            lemma_public_len(repr.public@, self.public@, m);
        }
        feed_public(cache, &repr.public, &self.public);
        feed_g1(cache, &repr.a, self.a);
        feed_g2(cache, &repr.b, self.b);
        feed_g1(cache, &repr.c, self.c);
        proof {
            lemma_feed_concat(s0, wp, bp, wa, ba);
            lemma_feed_concat(s0, wp + wa, bp + ba, wb, bb);
            lemma_feed_concat(s0, wp + wa + wb, bp + ba + bb, wc, bc);
            let s1 = cache.wires();
            if repr.wire_ids(m).no_duplicates() {
                lemma_feed_values(s0, repr.wire_ids(m), self.digits(m));
                lemma_carries_concat(s1, wp + wa + wb, wc, bp + ba + bb, bc);
                lemma_carries_concat(s1, wp + wa, wb, bp + ba, bb);
                lemma_carries_concat(s1, wp, wa, bp, ba);
                lemma_carries_public(s1, repr.public@, self.public@, m);
                lemma_carries_g1(s1, repr.a, self.a@);
                lemma_carries_g2(s1, repr.b, self.b@);
                lemma_carries_g1(s1, repr.c, self.c@);
            }
        }
    }
}

/// Whether the ordinate is the root that is computed of its square.
pub open spec fn root_flag1(y: nat) -> bool {
    fpow(fmul(y, y), sqrt_exponent()) == y
}

pub open spec fn root_flag2(y: Ext2) -> bool {
    sqrt2(sqr2(y)) == y
}

/// A point of the curve is what decompression makes of its abscissa and flag,
/// and its opposite is what decompression makes with the other flag.
pub proof fn lemma_decompress1(p: Aff1)
    requires
        reduced_aff1(p),
        on_curve1(p),
    ensures
        decompress1(p.x, root_flag1(p.y)) == jac1(p.x, p.y, 1),
        p.y != 0 ==> decompress1(p.x, !root_flag1(p.y)) == jac1(p.x, fneg(p.y), 1),
{
    reveal(decompress1);
    lemma_root(p.y);
    lemma_fneg_neg(p.y);
}

/// A point of the twist is what decompression makes of its abscissa and flag,
/// and its opposite is what decompression makes with the other flag.
pub proof fn lemma_decompress2(p: Aff2)
    requires
        reduced2(p.y),
        on_curve2(p),
    ensures
        decompress2(p.x, root_flag2(p.y)) == jac2(p.x, p.y, one2()),
        p.y != zero2() ==> decompress2(p.x, !root_flag2(p.y)) == jac2(p.x, neg2(p.y), one2()),
{
    reveal(decompress2);
    reveal(neg2);
    lemma_root2(p.y);
    lemma_fneg_neg(p.y.c0);
    lemma_fneg_neg(p.y.c1);
}

/// Compresses an affine point. What decompression makes of a point on the
/// curve is that point.
pub fn compress_g1(p: G1AffineValue) -> (r: (FqValue, bool))
    requires
        p.valid(),
    ensures
        r.0 == p.x,
        r.1 == root_flag1(p@.y),
        on_curve1(p@) ==> decompress1(r.0@, r.1) == jac1(p@.x, p@.y, 1),
{
    let y2 = fq_mul(p.y, p.y);
    let s = fq_sqrt(y2).unwrap();
    let flag = fq_eq(s, p.y);
    proof {
        if on_curve1(p@) {
            lemma_decompress1(p@);
        }
    }
    (p.x, flag)
}

/// Compresses an affine point of the twist. What decompression makes of a point
/// on the twist is that point.
pub fn compress_g2(p: G2AffineValue) -> (r: (Fq2Value, bool))
    requires
        p.valid(),
    ensures
        r.0 == p.x,
        r.1 == root_flag2(p@.y),
        on_curve2(p@) ==> decompress2(r.0@, r.1) == jac2(
            p@.x,
            p@.y,
            one2(),
        ),
{
    let y2 = fq2_square(p.y);
    let s = fq2_sqrt(y2).unwrap();
    let flag = fq2_eq(s, p.y);
    proof {
        if on_curve2(p@) {
            lemma_decompress2(p@);
        }
    }
    (p.x, flag)
}

impl CompressedG1Wires {
    /// There are as many wires as digits.
    pub open spec fn shaped(&self) -> bool {
        self.x_m.shaped()
    }

    /// The wires, in order.
    pub open spec fn wire_ids(&self) -> Seq<WireId> {
        self.x_m.wire_ids().push(self.y_flag)
    }

    /// Issues wires for an input.
    pub fn new<C: CircuitContext>(circuit: &mut C) -> (r: Self)
        ensures
            r.shaped(),
            r.wire_ids().len() == 255,
            consecutive(r.wire_ids(), old(circuit).wires().len()),
            final(circuit).wires() == old(circuit).wires() + zeros(255),
    {
        let ghost s0 = circuit.wires();
        let x_m = Fq::new(circuit);
        let y_flag = circuit.issue_wire();
        assert(circuit.wires() =~= s0 + zeros(255));
        CompressedG1Wires { x_m, y_flag }
    }

    /// The wires, in order.
    pub fn to_wires_vec(&self) -> (r: Vec<WireId>)
        ensures
            r@ == self.wire_ids(),
    {
        let mut v = self.x_m.to_wires_vec();
        v.push(self.y_flag);
        v
    }

    /// Issues as many wires again.
    pub fn clone_from<C: CircuitContext>(&self, circuit: &mut C) -> (r: Self)
        ensures
            r.shaped(),
            r.wire_ids().len() == 255,
            consecutive(r.wire_ids(), old(circuit).wires().len()),
            final(circuit).wires() == old(circuit).wires() + zeros(255),
    {
        CompressedG1Wires::new(circuit)
    }
}

impl CompressedG2Wires {
    /// There are as many wires as digits.
    pub open spec fn shaped(&self) -> bool {
        self.p.shaped()
    }

    /// The wires, in order.
    pub open spec fn wire_ids(&self) -> Seq<WireId> {
        self.p.wire_ids().push(self.y_flag)
    }

    /// Issues wires for an input.
    pub fn new<C: CircuitContext>(circuit: &mut C) -> (r: Self)
        ensures
            r.shaped(),
            r.wire_ids().len() == 509,
            consecutive(r.wire_ids(), old(circuit).wires().len()),
            final(circuit).wires() == old(circuit).wires() + zeros(509),
    {
        let ghost s0 = circuit.wires();
        let p = Fq2::new(circuit);
        let y_flag = circuit.issue_wire();
        assert(circuit.wires() =~= s0 + zeros(509));
        CompressedG2Wires { p, y_flag }
    }

    /// The wires, in order.
    pub fn to_wires_vec(&self) -> (r: Vec<WireId>)
        ensures
            r@ == self.wire_ids(),
    {
        let mut v = self.p.to_wires_vec();
        v.push(self.y_flag);
        v
    }

    /// Issues as many wires again.
    pub fn clone_from<C: CircuitContext>(&self, circuit: &mut C) -> (r: Self)
        ensures
            r.shaped(),
            r.wire_ids().len() == 509,
            consecutive(r.wire_ids(), old(circuit).wires().len()),
            final(circuit).wires() == old(circuit).wires() + zeros(509),
    {
        CompressedG2Wires::new(circuit)
    }
}

/// What decompression makes of a compressed point.
pub open spec fn decompressed1(p: Aff1) -> Jac1 {
    decompress1(p.x, root_flag1(p.y))
}

pub open spec fn decompressed2(p: Aff2) -> Jac2 {
    decompress2(p.x, root_flag2(p.y))
}

/// The digits of a compressed point.
pub open spec fn compressed1_digits(p: Aff1) -> Seq<bool> {
    fq_digits(p.x).push(root_flag1(p.y))
}

pub open spec fn compressed2_digits(p: Aff2) -> Seq<bool> {
    fq2_digits(p.x).push(root_flag2(p.y))
}

proof fn lemma_feed_push(s: Seq<bool>, w: Seq<WireId>, b: Seq<bool>, v: WireId, x: bool)
    ensures
        feed(s, w.push(v), b.push(x)) == feed(s, w, b).update(v.0 as int, x),
{
    assert(w.push(v).drop_last() =~= w);
    assert(b.push(x).drop_last() =~= b);
}

/// Feeds the wires of a compressed point.
pub fn feed_compressed_g1(cache: &mut ExecuteMode, w: &CompressedG1Wires, p: G1AffineValue)
    requires
        w.shaped(),
        in_range(old(cache).wires(), w.wire_ids()),
        p.valid(),
    ensures
        final(cache).wires() == feed(old(cache).wires(), w.wire_ids(), compressed1_digits(p@)),
        final(cache).wires().len() == old(cache).wires().len(),
        on_curve1(p@) ==> decompress1(p@.x, root_flag1(p@.y)) == jac1(p@.x, p@.y, 1),
{
    let ghost s0 = cache.wires();
    let ghost x = w.x_m.wire_ids();
    proof {
        assert(w.wire_ids() =~= x + seq![w.y_flag]);
        lemma_in_range_concat(s0, x, seq![w.y_flag]);
        assert(w.wire_ids()[254] == w.y_flag);
    }
    let (px, flag) = compress_g1(p);
    feed_fq(cache, &w.x_m, px);
    cache.feed_wire(w.y_flag, flag);
    proof {
        lemma_feed_push(s0, x, fq_digits(p@.x), w.y_flag, flag);
    }
}

/// Feeds the wires of a compressed point of the twist.
pub fn feed_compressed_g2(cache: &mut ExecuteMode, w: &CompressedG2Wires, p: G2AffineValue)
    requires
        w.shaped(),
        in_range(old(cache).wires(), w.wire_ids()),
        p.valid(),
    ensures
        final(cache).wires() == feed(old(cache).wires(), w.wire_ids(), compressed2_digits(p@)),
        final(cache).wires().len() == old(cache).wires().len(),
        on_curve2(p@) ==> decompress2(p@.x, root_flag2(p@.y)) == jac2(
            p@.x,
            p@.y,
            one2(),
        ),
{
    let ghost s0 = cache.wires();
    let ghost x = w.p.wire_ids();
    proof {
        assert(w.wire_ids() =~= x + seq![w.y_flag]);
        lemma_in_range_concat(s0, x, seq![w.y_flag]);
        assert(w.wire_ids()[508] == w.y_flag);
    }
    let (px, flag) = compress_g2(p);
    feed_fq2(cache, &w.p, px);
    cache.feed_wire(w.y_flag, flag);
    proof {
        lemma_feed_push(s0, x, fq2_digits(p@.x), w.y_flag, flag);
    }
}

proof fn lemma_carries_compressed1(s: Seq<bool>, w: CompressedG1Wires, p: Aff1)
    requires
        w.shaped(),
        p.x < modulus(),
        in_range(s, w.wire_ids()),
        values(s, w.wire_ids()) == compressed1_digits(p),
    ensures
        w.ok(s),
        w.x_m.val(s) == p.x,
        wire_value(s, w.y_flag) == root_flag1(p.y),
{
    let x = w.x_m.wire_ids();
    assert(w.wire_ids() =~= x + seq![w.y_flag]);
    assert(compressed1_digits(p) =~= fq_digits(p.x) + seq![root_flag1(p.y)]);
    lemma_carries_concat(s, x, seq![w.y_flag], fq_digits(p.x), seq![root_flag1(p.y)]);
    lemma_carries_fq(s, w.x_m, p.x);
    assert(values(s, seq![w.y_flag])[0] == seq![root_flag1(p.y)][0]);
    assert(seq![w.y_flag][0].0 < s.len());
    reveal(has_wire);
    reveal(wire_value);
}

proof fn lemma_carries_compressed2(s: Seq<bool>, w: CompressedG2Wires, p: Aff2)
    requires
        w.shaped(),
        reduced2(p.x),
        in_range(s, w.wire_ids()),
        values(s, w.wire_ids()) == compressed2_digits(p),
    ensures
        w.ok(s),
        w.p.val(s) == p.x,
        wire_value(s, w.y_flag) == root_flag2(p.y),
{
    let x = w.p.wire_ids();
    assert(w.wire_ids() =~= x + seq![w.y_flag]);
    assert(compressed2_digits(p) =~= fq2_digits(p.x) + seq![root_flag2(p.y)]);
    lemma_carries_concat(s, x, seq![w.y_flag], fq2_digits(p.x), seq![root_flag2(p.y)]);
    lemma_carries_fq2(s, w.p, p.x);
    assert(values(s, seq![w.y_flag])[0] == seq![root_flag2(p.y)][0]);
    assert(seq![w.y_flag][0].0 < s.len());
    reveal(has_wire);
    reveal(wire_value);
}

impl Groth16VerifyCompressedInputWires {
    /// There are as many wires as digits.
    pub open spec fn shaped(&self) -> bool {
        all_shaped(self.public@) && self.a.shaped() && self.b.shaped() && self.c.shaped()
    }

    /// The wires of the first `m` scalars and of the points.
    pub open spec fn wire_ids(&self, m: nat) -> Seq<WireId> {
        public_ids(self.public@, m) + self.a.wire_ids() + self.b.wire_ids() + self.c.wire_ids()
    }

    /// The wires, in order.
    pub fn to_wires_vec(&self) -> (r: Vec<WireId>)
        ensures
            r@ == self.wire_ids(self.public@.len()),
    {
        Groth16VerifyCompressedInput::collect_wire_ids(self)
    }

    /// Issues as many wires again.
    pub fn clone_from<C: CircuitContext>(&self, circuit: &mut C) -> (r: Self)
        ensures
            r.shaped(),
            r.public@.len() == self.public@.len(),
            r.vk.same(&self.vk),
            r.wire_ids(r.public@.len()).len() == 254 * self.public@.len() + 1019,
            consecutive(r.wire_ids(r.public@.len()), old(circuit).wires().len()),
            final(circuit).wires() == old(circuit).wires() + zeros(
                (254 * self.public@.len() + 1019) as nat,
            ),
    {
        let ghost s0 = circuit.wires();
        let public = allocate_public(circuit, self.public.len());
        let a = CompressedG1Wires::new(circuit);
        let b = CompressedG2Wires::new(circuit);
        let c = CompressedG1Wires::new(circuit);
        assert(circuit.wires() =~= s0 + zeros((254 * self.public@.len() + 1019) as nat));
        Groth16VerifyCompressedInputWires { public, a, b, c, vk: self.vk.clone() }
    }
}

impl Groth16VerifyCompressedInput {
    /// The digits of the first `m` scalars and of the compressed points.
    pub open spec fn digits(&self, m: nat) -> Seq<bool> {
        public_digits(self.0.public@, m) + compressed1_digits(to_affine1(self.0.a@))
            + compressed2_digits(to_affine2(self.0.b@)) + compressed1_digits(to_affine1(self.0.c@))
    }

    /// Issues the wires of a compressed proof and its public inputs.
    pub fn allocate<C: CircuitContext>(
        &self,
        circuit: &mut C,
    ) -> (r: Groth16VerifyCompressedInputWires)
        ensures
            r.shaped(),
            r.public@.len() == self.0.public@.len(),
            r.vk.same(&self.0.vk),
            r.wire_ids(r.public@.len()).len() == 254 * self.0.public@.len() + 1019,
            consecutive(r.wire_ids(r.public@.len()), old(circuit).wires().len()),
            final(circuit).wires() == old(circuit).wires() + zeros(
                (254 * self.0.public@.len() + 1019) as nat,
            ),
    {
        let ghost s0 = circuit.wires();
        let public = allocate_public(circuit, self.0.public.len());
        let a = CompressedG1Wires::new(circuit);
        let b = CompressedG2Wires::new(circuit);
        let c = CompressedG1Wires::new(circuit);
        assert(circuit.wires() =~= s0 + zeros((254 * self.0.public@.len() + 1019) as nat));
        Groth16VerifyCompressedInputWires { public, a, b, c, vk: self.0.vk.clone() }
    }

    /// The wires, in order.
    pub fn collect_wire_ids(repr: &Groth16VerifyCompressedInputWires) -> (r: Vec<WireId>)
        ensures
            r@ == repr.wire_ids(repr.public@.len()),
    {
        let mut ids = collect_public(&repr.public);
        ids.append(&mut repr.a.to_wires_vec());
        ids.append(&mut repr.b.to_wires_vec());
        ids.append(&mut repr.c.to_wires_vec());
        ids
    }

    /// Feeds the wires of a compressed proof and its public inputs. Different
    /// wires then carry what they were issued for, and decompression gives back
    /// points of the curve and of the twist.
    pub fn encode(&self, repr: &Groth16VerifyCompressedInputWires, cache: &mut ExecuteMode)
        requires
            self.0.valid(),
            repr.shaped(),
            in_range(
                old(cache).wires(),
                repr.wire_ids(public_count(repr.public@, self.0.public@)),
            ),
        ensures
            final(cache).wires() == feed(
                old(cache).wires(),
                repr.wire_ids(public_count(repr.public@, self.0.public@)),
                self.digits(public_count(repr.public@, self.0.public@)),
            ),
            on_curve1(to_affine1(self.0.a@)) ==> decompressed1(to_affine1(self.0.a@)) == jac1(
                to_affine1(self.0.a@).x,
                to_affine1(self.0.a@).y,
                1,
            ),
            on_curve2(to_affine2(self.0.b@)) ==> decompressed2(to_affine2(self.0.b@)) == jac2(
                to_affine2(self.0.b@).x,
                to_affine2(self.0.b@).y,
                one2(),
            ),
            on_curve1(to_affine1(self.0.c@)) ==> decompressed1(to_affine1(self.0.c@)) == jac1(
                to_affine1(self.0.c@).x,
                to_affine1(self.0.c@).y,
                1,
            ),
            repr.wire_ids(public_count(repr.public@, self.0.public@)).no_duplicates() ==> {
                &&& forall|i: int|
                    0 <= i < public_count(repr.public@, self.0.public@) ==> (
                    #[trigger] repr.public@[i]).ok(final(cache).wires()) && repr.public@[i].val(
                        final(cache).wires(),
                    ) == self.0.public@[i]@
                &&& repr.a.ok(final(cache).wires())
                &&& repr.b.ok(final(cache).wires())
                &&& repr.c.ok(final(cache).wires())
                &&& repr.a.point(final(cache).wires()) == decompressed1(to_affine1(self.0.a@))
                &&& repr.b.point(final(cache).wires()) == decompressed2(to_affine2(self.0.b@))
                &&& repr.c.point(final(cache).wires()) == decompressed1(to_affine1(self.0.c@))
            },
    {
        let ghost s0 = cache.wires();
        let ghost m = public_count(repr.public@, self.0.public@);
        let ghost wp = public_ids(repr.public@, m);
        let ghost bp = public_digits(self.0.public@, m);
        let ghost wa = repr.a.wire_ids();
        let ghost wb = repr.b.wire_ids();
        let ghost wc = repr.c.wire_ids();
        let a_aff = g1_into_affine(self.0.a);
        let b_aff = g2_into_affine(self.0.b);
        let c_aff = g1_into_affine(self.0.c);
        let ghost ba = compressed1_digits(a_aff@);
        let ghost bb = compressed2_digits(b_aff@);
        let ghost bc = compressed1_digits(c_aff@);
        proof {
            lemma_in_range_concat(s0, wp + wa + wb, wc);
            lemma_in_range_concat(s0, wp + wa, wb);
            lemma_in_range_concat(s0, wp, wa);
            lemma_public_len(repr.public@, self.0.public@, m);
        }
        feed_public(cache, &repr.public, &self.0.public);
        feed_compressed_g1(cache, &repr.a, a_aff);
        feed_compressed_g2(cache, &repr.b, b_aff);
        feed_compressed_g1(cache, &repr.c, c_aff);
        proof {
            lemma_feed_concat(s0, wp, bp, wa, ba);
            lemma_feed_concat(s0, wp + wa, bp + ba, wb, bb);
            lemma_feed_concat(s0, wp + wa + wb, bp + ba + bb, wc, bc);
            let s1 = cache.wires();
            if repr.wire_ids(m).no_duplicates() {
                lemma_feed_values(s0, repr.wire_ids(m), self.digits(m));
                lemma_carries_concat(s1, wp + wa + wb, wc, bp + ba + bb, bc);
                lemma_carries_concat(s1, wp + wa, wb, bp + ba, bb);
                lemma_carries_concat(s1, wp, wa, bp, ba);
                lemma_carries_public(s1, repr.public@, self.0.public@, m);
                lemma_carries_compressed1(s1, repr.a, a_aff@);
                lemma_carries_compressed2(s1, repr.b, b_aff@);
                lemma_carries_compressed1(s1, repr.c, c_aff@);
            }
        }
    }
}

/// The numbers that scalars stand for.
pub open spec fn public_numbers(v: Seq<FrValue>) -> Seq<nat> {
    Seq::new(v.len(), |i: int| v[i]@)
}

/// The left side of the verification equation depends on what the key holds.
proof fn lemma_same_key(
    public: Seq<nat>,
    a: Jac1,
    b: Jac2,
    c: Jac1,
    vk1: VerifyingKey,
    vk2: VerifyingKey,
)
    requires
        vk1.same(&vk2),
    ensures
        pairing_product(public, a, b, c, vk1) == pairing_product(public, a, b, c, vk2),
        alpha_beta(vk1) == alpha_beta(vk2),
{
    assert(vk1.bases() =~= vk2.bases());
}

/// Fresh wires can be fed, and the constant wires are not among them.
proof fn lemma_fresh_wires(s: Seq<bool>, w: Seq<WireId>, b: Seq<bool>, n: nat)
    requires
        wf(s),
        w.len() == n,
        consecutive(w, s.len()),
    ensures
        in_range(s + zeros(n), w),
        w.no_duplicates(),
        wf(feed(s + zeros(n), w, b)),
{
    let t = s + zeros(n);
    reveal(wf);
    lemma_consecutive_distinct(w, s.len());
    assert forall|i: int| 0 <= i < w.len() implies (#[trigger] w[i]).0 < t.len() by {
        assert(w[i].0 == s.len() + i);
    }
    lemma_feed_len(t, w, b);
    lemma_feed_other(t, w, b, 0);
    lemma_feed_other(t, w, b, 1);
}

/// Runs the verifier on a proof. There is no result where the pairing of
/// `alpha` and `beta` is not defined.
pub fn execute_groth16_verify(input: &Groth16VerifyInput) -> (r: Option<bool>)
    requires
        input.valid(),
        input.vk.valid(),
    ensures
        r is Some <==> alpha_beta(input.vk) is Some,
        r matches Some(v) ==> v == (Some(
            pairing_product(
                public_numbers(input.public@),
                input.a@,
                input.b@,
                input.c@,
                input.vk,
            ),
        ) == alpha_beta(input.vk)),
{
    let mut circuit = ExecuteMode::new();
    let ghost s0 = circuit.wires();
    let repr = input.allocate(&mut circuit);
    let ghost m = input.public@.len();
    let ghost w = repr.wire_ids(m);
    proof {
        lemma_fresh_wires(s0, w, input.digits(m), w.len());
    }
    input.encode(&repr, &mut circuit);
    let ghost s = circuit.wires();
    proof {
        assert(scalar_values(s, repr.public@) =~= public_numbers(input.public@));
        lemma_same_key(
            public_numbers(input.public@),
            input.a@,
            input.b@,
            input.c@,
            repr.vk,
            input.vk,
        );
    }
    let r = groth16_verify_checked(&mut circuit, &repr);
    match r {
        Some(wire) => {
            proof {
                reveal(has_wire);
                reveal(wire_value);
            }
            Some(circuit.lookup_wire(wire))
        },
        None => None,
    }
}

/// The point is on the curve, and its third coordinate is one.
pub open spec fn normal1(p: Jac1) -> bool {
    p.z == 1 && on_curve1(Aff1 { x: p.x, y: p.y, infinity: false })
}

/// The point is on the twist, and its third coordinate is one.
pub open spec fn normal2(p: Jac2) -> bool {
    p.z == one2() && on_curve2(Aff2 { x: p.x, y: p.y, infinity: false })
}

/// Runs the verifier of compressed proofs on a proof. There is no result where
/// the pairing of `alpha` and `beta` is not defined. For points of the curve
/// and of the twist, compression does not change whether a proof verifies.
pub fn execute_groth16_verify_compressed(input: &Groth16VerifyCompressedInput) -> (r: Option<bool>)
    requires
        input.0.valid(),
        input.0.vk.valid(),
    ensures
        r is Some <==> alpha_beta(input.0.vk) is Some,
        r matches Some(v) ==> v == (Some(
            pairing_product(
                public_numbers(input.0.public@),
                decompressed1(to_affine1(input.0.a@)),
                decompressed2(to_affine2(input.0.b@)),
                decompressed1(to_affine1(input.0.c@)),
                input.0.vk,
            ),
        ) == alpha_beta(input.0.vk)),
        normal1(input.0.a@) && normal2(input.0.b@) && normal1(input.0.c@) ==> (r matches Some(v)
            ==> v == (Some(
            pairing_product(
                public_numbers(input.0.public@),
                input.0.a@,
                input.0.b@,
                input.0.c@,
                input.0.vk,
            ),
        ) == alpha_beta(input.0.vk))),
{
    let mut circuit = ExecuteMode::new();
    let ghost s0 = circuit.wires();
    let repr = input.allocate(&mut circuit);
    let ghost m = input.0.public@.len();
    let ghost w = repr.wire_ids(m);
    proof {
        lemma_fresh_wires(s0, w, input.digits(m), w.len());
    }
    input.encode(&repr, &mut circuit);
    let ghost s = circuit.wires();
    proof {
        assert(scalar_values(s, repr.public@) =~= public_numbers(input.0.public@));
        if normal1(input.0.a@) && normal2(input.0.b@) && normal1(input.0.c@) {
            lemma_to_affine1_normal(input.0.a@);
            lemma_to_affine2_normal(input.0.b@);
            lemma_to_affine1_normal(input.0.c@);
        }
        lemma_same_key(
            public_numbers(input.0.public@),
            decompressed1(to_affine1(input.0.a@)),
            decompressed2(to_affine2(input.0.b@)),
            decompressed1(to_affine1(input.0.c@)),
            repr.vk,
            input.0.vk,
        );
    }
    let r = groth16_verify_compressed_checked(&mut circuit, &repr);
    match r {
        Some(wire) => {
            proof {
                reveal(has_wire);
                reveal(wire_value);
            }
            Some(circuit.lookup_wire(wire))
        },
        None => None,
    }
}

} // verus!
