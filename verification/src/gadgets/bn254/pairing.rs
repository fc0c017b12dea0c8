//! The pairing over BN254: lines of points outside circuits and on wires,
//! Miller loops over them, and the full pairing.

use crate::circuit::{grows, lemma_start, step, wf, CircuitContext};
use crate::gadgets::bn254::final_exponentiation::final_exponentiation_montgomery;
use crate::gadgets::bn254::fq::Fq;
use crate::gadgets::bn254::wires::{group_wires, Fq12, Fq2, Fq6, G1Projective, G2Projective};
use crate::math::curve::{
    add_jac2, affine1, affine2, affine_lines, ate_digits, double_jac2, ell, ell_all, final_exp,
    jac2, lemma_line_count_mono, lemma_line_walk_len, lemma_miller_empty, lemma_pairing_lines_len,
    line_add, line_count, line_double, line_walk, miller, miller_walk, neg_aff2, pairing_lines,
    secant2, tangent2, twist_x, twist_y, Aff2, Jac1, Jac2,
};
use crate::math::product::{
    lemma_miller_permuted, lemma_pairings, pairing, pairings, pairs,
};
use crate::math::tower::{neg2, one2, Ext12, Ext6};
use crate::native::constants::{
    ate_loop_count, coeff_b2_value, twist_q_x_value, twist_q_y_value,
};
use crate::native::fq::{fq_as_montgomery, fq_half, fq_one};
use crate::native::points::{g2_neg, G2AffineValue, G2ProjectiveValue};
use crate::native::tower::{
    fq12_as_montgomery, fq12_one, fq2_add, fq2_as_montgomery, fq2_double, fq2_frobenius, fq2_mul,
    fq2_neg, fq2_one, fq2_scale, fq2_square, fq2_sub, Fq12Value, Fq6Value,
};
use vstd::prelude::*;

verus! {

broadcast use group_wires;

/// Line coefficients of one step of the Miller loop, `(c0, c1, c2)` packed as
/// an element of the sextic extension.
pub type EllCoeff = Fq6Value;

/// The lines by their coefficients.
pub open spec fn coeff_values(lines: Seq<EllCoeff>) -> Seq<Ext6> {
    Seq::new(lines.len(), |i: int| lines[i]@)
}

pub open spec fn valid_coeff_list(lines: Seq<EllCoeff>) -> bool {
    forall|i: int| 0 <= i < lines.len() ==> (#[trigger] lines[i]).valid()
}

/// Doubles the point in place and gives the tangent there.
pub fn double_in_place(r: &mut G2ProjectiveValue) -> (line: EllCoeff)
    requires
        old(r).valid(),
    ensures
        final(r).valid(),
        line.valid(),
        (final(r)@, line@) == line_double(old(r)@),
{
    reveal(line_double);
    let half = fq_half();
    let a = fq2_scale(fq2_mul(r.x, r.y), half);
    let b = fq2_square(r.y);
    let c = fq2_square(r.z);
    let e = fq2_mul(fq2_add(fq2_double(c), c), coeff_b2_value());
    let f = fq2_add(fq2_double(e), e);
    let g = fq2_scale(fq2_add(b, f), half);
    let h = fq2_sub(fq2_square(fq2_add(r.y, r.z)), fq2_add(b, c));
    let i = fq2_sub(e, b);
    let j = fq2_square(r.x);
    let e_square = fq2_square(e);
    let x = fq2_mul(a, fq2_sub(b, f));
    let y = fq2_sub(fq2_square(g), fq2_add(fq2_double(e_square), e_square));
    let z = fq2_mul(b, h);
    *r = G2ProjectiveValue { x, y, z };
    Fq6Value { c0: fq2_neg(h), c1: fq2_add(fq2_double(j), j), c2: i }
}

/// Adds an affine point in place and gives the line through the two points.
pub fn add_in_place(r: &mut G2ProjectiveValue, q: &G2AffineValue) -> (line: EllCoeff)
    requires
        old(r).valid(),
        q.valid(),
    ensures
        final(r).valid(),
        line.valid(),
        (final(r)@, line@) == line_add(old(r)@, q@.x, q@.y),
{
    reveal(line_add);
    let theta = fq2_sub(r.y, fq2_mul(q.y, r.z));
    let lambda = fq2_sub(r.x, fq2_mul(q.x, r.z));
    let c = fq2_square(theta);
    let d = fq2_square(lambda);
    let e = fq2_mul(lambda, d);
    let f = fq2_mul(r.z, c);
    let g = fq2_mul(r.x, d);
    let h = fq2_sub(fq2_add(e, f), fq2_double(g));
    let j = fq2_sub(fq2_mul(theta, q.x), fq2_mul(lambda, q.y));
    let x = fq2_mul(lambda, h);
    let y = fq2_sub(fq2_mul(theta, fq2_sub(g, h)), fq2_mul(e, r.y));
    let z = fq2_mul(r.z, e);
    *r = G2ProjectiveValue { x, y, z };
    Fq6Value { c0: lambda, c1: fq2_neg(theta), c2: j }
}

/// The Frobenius map carried to the twist.
pub fn mul_by_char(r: G2AffineValue) -> (s: G2AffineValue)
    requires
        r.valid(),
    ensures
        s.valid(),
        s@ == (Aff2 { x: twist_x(r@.x), y: twist_y(r@.y), infinity: r@.infinity }),
{
    let x = fq2_mul(fq2_frobenius(r.x), twist_q_x_value());
    let y = fq2_mul(fq2_frobenius(r.y), twist_q_y_value());
    G2AffineValue { x, y, infinity: r.infinity }
}

/// The lines of the pairing with a constant point.
pub fn ell_coeffs(q: G2AffineValue) -> (ellc: Vec<EllCoeff>)
    requires
        q.valid(),
    ensures
        valid_coeff_list(ellc@),
        coeff_values(ellc@) == affine_lines(q@),
        ellc@.len() == line_count(0) + 2,
{
    let digits = ate_loop_count();
    let mut ellc: Vec<EllCoeff> = Vec::new();
    let mut r = G2ProjectiveValue { x: q.x, y: q.y, z: fq2_one() };
    let ghost r0 = r@;
    let neg_q = g2_neg(q);
    let mut k: usize = 64;
    assert(coeff_values(ellc@) =~= line_walk(r0, q@.x, q@.y, 64).1);
    while k > 0
        invariant
            k <= 64,
            q.valid(),
            neg_q.valid(),
            neg_q@ == neg_aff2(q@),
            forall|i: int| 0 <= i < 65 ==> (#[trigger] digits@[i]) as int == ate_digits()[i],
            r.valid(),
            valid_coeff_list(ellc@),
            r@ == line_walk(r0, q@.x, q@.y, k as int).0,
            coeff_values(ellc@) == line_walk(r0, q@.x, q@.y, k as int).1,
        decreases k,
    {
        k = k - 1;
        let ghost before = line_walk(r0, q@.x, q@.y, k + 1);
        let ghost lines0 = ellc@;
        let c = double_in_place(&mut r);
        ellc.push(c);
        assert(coeff_values(ellc@) =~= before.1.push(c@));
        let ghost lines1 = ellc@;
        let bit = digits[k];
        assert(bit as int == ate_digits()[k as int]);
        if bit == 1 {
            let c = add_in_place(&mut r, &q);
            ellc.push(c);
            assert(coeff_values(ellc@) =~= coeff_values(lines1).push(c@));
        } else if bit == -1 {
            let c = add_in_place(&mut r, &neg_q);
            ellc.push(c);
            assert(coeff_values(ellc@) =~= coeff_values(lines1).push(c@));
        }
    }
    let q1 = mul_by_char(q);
    let q2 = g2_neg(mul_by_char(q1));
    let ghost walk = line_walk(r0, q@.x, q@.y, 0);
    let c = add_in_place(&mut r, &q1);
    ellc.push(c);
    assert(coeff_values(ellc@) =~= walk.1.push(c@));
    let ghost lines1 = ellc@;
    let c = add_in_place(&mut r, &q2);
    ellc.push(c);
    proof {
        assert(coeff_values(ellc@) =~= coeff_values(lines1).push(c@));
        reveal(pairing_lines);
        lemma_line_walk_len(r0, q@.x, q@.y, 0);
    }
    ellc
}

/// The product of `f` and a line with constant coefficients, evaluated at a
/// point on wires.
pub fn ell_eval_const<C: CircuitContext>(
    circuit: &mut C,
    f: &Fq12,
    coeffs: &EllCoeff,
    p: &G1Projective,
) -> (r: Fq12)
    requires
        wf(old(circuit).wires()),
        f.ok(old(circuit).wires()),
        p.ok(old(circuit).wires()),
        coeffs.valid(),
    ensures
        step(old(circuit).wires(), final(circuit).wires()),
        r.ok(final(circuit).wires()),
        r.val(final(circuit).wires()) == ell(
            f.val(old(circuit).wires()),
            coeffs@,
            p.val(old(circuit).wires()),
        ),
{
    proof {
        lemma_start(circuit.wires());
        reveal(G1Projective::ok);
        reveal(G1Projective::val);
        reveal(ell);
    }
    let c0_fq2 = Fq2::mul_constant_by_fq_montgomery(circuit, coeffs.c0, &p.y);
    let c3_fq2 = Fq2::mul_constant_by_fq_montgomery(circuit, coeffs.c1, &p.x);
    let c4_const = fq2_as_montgomery(coeffs.c2);
    Fq12::mul_by_034_constant4_montgomery(circuit, f, &c0_fq2, &c3_fq2, c4_const)
}

/// The product of `f` and a line with constant coefficients, evaluated at a
/// point on wires.
pub fn ell_by_constant_montgomery<C: CircuitContext>(
    circuit: &mut C,
    f: &Fq12,
    coeffs: &EllCoeff,
    p: &G1Projective,
) -> (r: Fq12)
    requires
        wf(old(circuit).wires()),
        f.ok(old(circuit).wires()),
        p.ok(old(circuit).wires()),
        coeffs.valid(),
    ensures
        step(old(circuit).wires(), final(circuit).wires()),
        r.ok(final(circuit).wires()),
        r.val(final(circuit).wires()) == ell(
            f.val(old(circuit).wires()),
            coeffs@,
            p.val(old(circuit).wires()),
        ),
{
    proof {
        lemma_start(circuit.wires());
        reveal(G1Projective::ok);
        reveal(G1Projective::val);
        reveal(ell);
    }
    let new_c0 = Fq2::mul_constant_by_fq_montgomery(circuit, coeffs.c0, &p.y);
    let new_c1 = Fq2::mul_constant_by_fq_montgomery(circuit, coeffs.c1, &p.x);
    let c2_m = fq2_as_montgomery(coeffs.c2);
    Fq12::mul_by_034_constant4_montgomery(circuit, f, &new_c0, &new_c1, c2_m)
}

/// The product of `f` and a line on wires, evaluated at a point on wires, of
/// which only the affine coordinates `x` and `y` are read.
pub fn ell_montgomery<C: CircuitContext>(
    circuit: &mut C,
    f: &Fq12,
    coeffs: &Fq6,
    p: &G1Projective,
) -> (r: Fq12)
    requires
        wf(old(circuit).wires()),
        f.ok(old(circuit).wires()),
        coeffs.ok(old(circuit).wires()),
        p.ok(old(circuit).wires()),
    ensures
        step(old(circuit).wires(), final(circuit).wires()),
        r.ok(final(circuit).wires()),
        r.val(final(circuit).wires()) == ell(
            f.val(old(circuit).wires()),
            coeffs.val(old(circuit).wires()),
            p.val(old(circuit).wires()),
        ),
{
    proof {
        lemma_start(circuit.wires());
        reveal(G1Projective::ok);
        reveal(G1Projective::val);
        reveal(Fq6::ok);
        reveal(Fq6::val);
        reveal(ell);
    }
    let c0_fq2 = Fq2::mul_by_fq_montgomery(circuit, &coeffs.c0, &p.y);
    let c3_fq2 = Fq2::mul_by_fq_montgomery(circuit, &coeffs.c1, &p.x);
    Fq12::mul_by_034_montgomery(circuit, f, &c0_fq2, &c3_fq2, &coeffs.c2)
}

/// The affine form `(x / z^2, y / z^3, 1)`.
pub fn g1_normalize_to_affine<C: CircuitContext>(
    circuit: &mut C,
    p: &G1Projective,
) -> (r: G1Projective)
    requires
        wf(old(circuit).wires()),
        p.ok(old(circuit).wires()),
    ensures
        step(old(circuit).wires(), final(circuit).wires()),
        r.ok(final(circuit).wires()),
        r.val(final(circuit).wires()) == affine1(p.val(old(circuit).wires())),
{
    proof {
        lemma_start(circuit.wires());
        reveal(G1Projective::ok);
        reveal(G1Projective::val);
        reveal(affine1);
    }
    let inv_z = Fq::inverse_montgomery(circuit, &p.z);
    let inv_z2 = Fq::square_montgomery(circuit, &inv_z);
    let inv_z3 = Fq::mul_montgomery(circuit, &inv_z2, &inv_z);
    let x = Fq::mul_montgomery(circuit, &p.x, &inv_z2);
    let y = Fq::mul_montgomery(circuit, &p.y, &inv_z3);
    let z = Fq::new_constant(circuit, fq_as_montgomery(fq_one()));
    G1Projective { x, y, z }
}

/// The affine form `(x / z^2, y / z^3, 1)`.
pub fn g2_normalize_to_affine<C: CircuitContext>(
    circuit: &mut C,
    q: &G2Projective,
) -> (r: G2Projective)
    requires
        wf(old(circuit).wires()),
        q.ok(old(circuit).wires()),
    ensures
        step(old(circuit).wires(), final(circuit).wires()),
        r.ok(final(circuit).wires()),
        r.val(final(circuit).wires()) == affine2(q.val(old(circuit).wires())),
{
    proof {
        lemma_start(circuit.wires());
        reveal(G2Projective::ok);
        reveal(G2Projective::val);
        reveal(Fq6::ok);
        reveal(Fq6::val);
        reveal(affine2);
    }
    let inv_z = Fq2::inverse_montgomery(circuit, &q.z);
    let inv_z2 = Fq2::square_montgomery(circuit, &inv_z);
    let inv_z3 = Fq2::mul_montgomery(circuit, &inv_z2, &inv_z);
    let x = Fq2::mul_montgomery(circuit, &q.x, &inv_z2);
    let y = Fq2::mul_montgomery(circuit, &q.y, &inv_z3);
    let z = Fq2::new_constant(circuit, fq2_as_montgomery(fq2_one()));
    G2Projective { x, y, z }
}

/// The affine point that the Frobenius map takes a point to, once or twice; the
/// twofold image comes with its sign changed.
pub open spec fn frobenius_affine2(q: Jac2, k: nat) -> Jac2 {
    if k == 0 {
        jac2(q.x, q.y, one2())
    } else if k == 1 {
        jac2(twist_x(q.x), twist_y(q.y), one2())
    } else {
        jac2(twist_x(twist_x(q.x)), neg2(twist_y(twist_y(q.y))), one2())
    }
}

/// The Frobenius image of an affine point, for the powers modulo three that
/// the Miller loop uses.
pub fn g2_frobenius_map_affine<C: CircuitContext>(
    circuit: &mut C,
    q: &G2Projective,
    i: usize,
) -> (r: G2Projective)
    requires
        wf(old(circuit).wires()),
        q.ok(old(circuit).wires()),
    ensures
        step(old(circuit).wires(), final(circuit).wires()),
        r.ok(final(circuit).wires()),
        r.val(final(circuit).wires()) == frobenius_affine2(
            q.val(old(circuit).wires()),
            (i % 3) as nat,
        ),
{
    proof {
        lemma_start(circuit.wires());
        reveal(G2Projective::ok);
        reveal(G2Projective::val);
        reveal(Fq6::ok);
        reveal(Fq6::val);
    }
    let k = i % 3;
    let z = Fq2::new_constant(circuit, fq2_as_montgomery(fq2_one()));
    let cx = fq2_as_montgomery(twist_q_x_value());
    let cy = fq2_as_montgomery(twist_q_y_value());
    if k == 0 {
        G2Projective { x: q.x.clone(), y: q.y.clone(), z }
    } else if k == 1 {
        let x_f1 = Fq2::frobenius_montgomery(circuit, &q.x, 1);
        let y_f1 = Fq2::frobenius_montgomery(circuit, &q.y, 1);
        let x = Fq2::mul_by_constant_montgomery(circuit, &x_f1, cx);
        let y = Fq2::mul_by_constant_montgomery(circuit, &y_f1, cy);
        G2Projective { x, y, z }
    } else {
        let x_f1 = Fq2::frobenius_montgomery(circuit, &q.x, 1);
        let y_f1 = Fq2::frobenius_montgomery(circuit, &q.y, 1);
        let x1 = Fq2::mul_by_constant_montgomery(circuit, &x_f1, cx);
        let y1 = Fq2::mul_by_constant_montgomery(circuit, &y_f1, cy);
        let x_f2 = Fq2::frobenius_montgomery(circuit, &x1, 1);
        let y_f2 = Fq2::frobenius_montgomery(circuit, &y1, 1);
        let x = Fq2::mul_by_constant_montgomery(circuit, &x_f2, cx);
        let y2 = Fq2::mul_by_constant_montgomery(circuit, &y_f2, cy);
        let y = Fq2::neg(circuit, &y2);
        G2Projective { x, y, z }
    }
}

/// The tangent at a point, by its slope, and twice the point in affine form.
pub fn g2_line_coeffs_double<C: CircuitContext>(
    circuit: &mut C,
    r0: &G2Projective,
) -> (r: (G2Projective, Fq6))
    requires
        wf(old(circuit).wires()),
        r0.ok(old(circuit).wires()),
    ensures
        step(old(circuit).wires(), final(circuit).wires()),
        r.0.ok(final(circuit).wires()),
        r.1.ok(final(circuit).wires()),
        r.0.val(final(circuit).wires()) == affine2(double_jac2(r0.val(old(circuit).wires()))),
        r.1.val(final(circuit).wires()) == tangent2(affine2(r0.val(old(circuit).wires()))),
{
    proof {
        lemma_start(circuit.wires());
        reveal(G2Projective::ok);
        reveal(G2Projective::val);
        reveal(Fq6::ok);
        reveal(Fq6::val);
        reveal(tangent2);
    }
    let r_aff = g2_normalize_to_affine(circuit, r0);
    let x = &r_aff.x;
    let y = &r_aff.y;
    let x2 = Fq2::square_montgomery(circuit, x);
    let three_x2 = Fq2::triple(circuit, &x2);
    let two_y = Fq2::double(circuit, y);
    let inv_two_y = Fq2::inverse_montgomery(circuit, &two_y);
    let lambda = Fq2::mul_montgomery(circuit, &three_x2, &inv_two_y);
    let c0 = Fq2::new_constant(circuit, fq2_as_montgomery(fq2_one()));
    let c1 = Fq2::neg(circuit, &lambda);
    let lambda_x = Fq2::mul_montgomery(circuit, &lambda, x);
    let c2 = Fq2::sub(circuit, &lambda_x, y);
    let r_next = G2Projective::double_montgomery(circuit, r0);
    let r_next_aff = g2_normalize_to_affine(circuit, &r_next);
    (r_next_aff, Fq6 { c0, c1, c2 })
}

/// The line through two points, by its slope, and their sum in affine form.
pub fn g2_line_coeffs_add<C: CircuitContext>(
    circuit: &mut C,
    r0: &G2Projective,
    q: &G2Projective,
) -> (r: (G2Projective, Fq6))
    requires
        wf(old(circuit).wires()),
        r0.ok(old(circuit).wires()),
        q.ok(old(circuit).wires()),
    ensures
        step(old(circuit).wires(), final(circuit).wires()),
        r.0.ok(final(circuit).wires()),
        r.1.ok(final(circuit).wires()),
        r.0.val(final(circuit).wires()) == affine2(
            add_jac2(r0.val(old(circuit).wires()), q.val(old(circuit).wires())),
        ),
        r.1.val(final(circuit).wires()) == secant2(
        affine2(r0.val(old(circuit).wires())),
        affine2(q.val(old(circuit).wires())),
    ),
{
    proof {
        lemma_start(circuit.wires());
        reveal(G2Projective::ok);
        reveal(G2Projective::val);
        reveal(Fq6::ok);
        reveal(Fq6::val);
        reveal(secant2);
    }
    let r_aff = g2_normalize_to_affine(circuit, r0);
    let q_aff = g2_normalize_to_affine(circuit, q);
    let dy = Fq2::sub(circuit, &q_aff.y, &r_aff.y);
    let dx = Fq2::sub(circuit, &q_aff.x, &r_aff.x);
    let inv_dx = Fq2::inverse_montgomery(circuit, &dx);
    let lambda = Fq2::mul_montgomery(circuit, &dy, &inv_dx);
    let c0 = Fq2::new_constant(circuit, fq2_as_montgomery(fq2_one()));
    let c1 = Fq2::neg(circuit, &lambda);
    let lambda_xr = Fq2::mul_montgomery(circuit, &lambda, &r_aff.x);
    let c2 = Fq2::sub(circuit, &lambda_xr, &r_aff.y);
    let r_next = G2Projective::add_montgomery(circuit, r0, q);
    let r_next_aff = g2_normalize_to_affine(circuit, &r_next);
    (r_next_aff, Fq6 { c0, c1, c2 })
}

/// Twice a point in homogeneous coordinates, and the tangent there.
pub fn double_in_place_circuit_montgomery<C: CircuitContext>(
    circuit: &mut C,
    r0: &G2Projective,
) -> (r: (G2Projective, Fq6))
    requires
        wf(old(circuit).wires()),
        r0.ok(old(circuit).wires()),
    ensures
        step(old(circuit).wires(), final(circuit).wires()),
        r.0.ok(final(circuit).wires()),
        r.1.ok(final(circuit).wires()),
        r.0.val(final(circuit).wires()) == line_double(r0.val(old(circuit).wires())).0,
        r.1.val(final(circuit).wires()) == line_double(r0.val(old(circuit).wires())).1,
{
    proof {
        lemma_start(circuit.wires());
        reveal(G2Projective::ok);
        reveal(G2Projective::val);
        reveal(Fq6::ok);
        reveal(Fq6::val);
        reveal(line_double);
    }
    let rx = &r0.x;
    let ry = &r0.y;
    let rz = &r0.z;
    let xy = Fq2::mul_montgomery(circuit, rx, ry);
    let a = Fq2::half(circuit, &xy);
    let b = Fq2::square_montgomery(circuit, ry);
    let c = Fq2::square_montgomery(circuit, rz);
    let c_triple = Fq2::triple(circuit, &c);
    let coeff_b = fq2_as_montgomery(coeff_b2_value());
    let e = Fq2::mul_by_constant_montgomery(circuit, &c_triple, coeff_b);
    let f = Fq2::triple(circuit, &e);
    let bf_sum = Fq2::add(circuit, &b, &f);
    let g = Fq2::half(circuit, &bf_sum);
    let ryrz = Fq2::add(circuit, ry, rz);
    let ryrzs = Fq2::square_montgomery(circuit, &ryrz);
    let bc = Fq2::add(circuit, &b, &c);
    let h = Fq2::sub(circuit, &ryrzs, &bc);
    let i = Fq2::sub(circuit, &e, &b);
    let j = Fq2::square_montgomery(circuit, rx);
    let es = Fq2::square_montgomery(circuit, &e);
    let j_triple = Fq2::triple(circuit, &j);
    let bf = Fq2::sub(circuit, &b, &f);
    let x = Fq2::mul_montgomery(circuit, &a, &bf);
    let es_triple = Fq2::triple(circuit, &es);
    let gs = Fq2::square_montgomery(circuit, &g);
    let y = Fq2::sub(circuit, &gs, &es_triple);
    let z = Fq2::mul_montgomery(circuit, &b, &h);
    let hn = Fq2::neg(circuit, &h);
    (G2Projective { x, y, z }, Fq6 { c0: hn, c1: j_triple, c2: i })
}

/// The sum of a point in homogeneous coordinates and an affine point, and the
/// line through the two.
pub fn add_in_place_montgomery<C: CircuitContext>(
    circuit: &mut C,
    r0: &G2Projective,
    q: &G2Projective,
) -> (r: (G2Projective, Fq6))
    requires
        wf(old(circuit).wires()),
        r0.ok(old(circuit).wires()),
        q.ok(old(circuit).wires()),
    ensures
        step(old(circuit).wires(), final(circuit).wires()),
        r.0.ok(final(circuit).wires()),
        r.1.ok(final(circuit).wires()),
        r.0.val(final(circuit).wires()) == line_add(
        r0.val(old(circuit).wires()),
        q.val(old(circuit).wires()).x,
        q.val(old(circuit).wires()).y,
    ).0,
        r.1.val(final(circuit).wires()) == line_add(
        r0.val(old(circuit).wires()),
        q.val(old(circuit).wires()).x,
        q.val(old(circuit).wires()).y,
    ).1,
{
    proof {
        lemma_start(circuit.wires());
        reveal(G2Projective::ok);
        reveal(G2Projective::val);
        reveal(Fq6::ok);
        reveal(Fq6::val);
        reveal(line_add);
    }
    let rx = &r0.x;
    let ry = &r0.y;
    let rz = &r0.z;
    let qx = &q.x;
    let qy = &q.y;
    let qy_rz = Fq2::mul_montgomery(circuit, qy, rz);
    let theta = Fq2::sub(circuit, ry, &qy_rz);
    let qx_rz = Fq2::mul_montgomery(circuit, qx, rz);
    let lambda = Fq2::sub(circuit, rx, &qx_rz);
    let c = Fq2::square_montgomery(circuit, &theta);
    let d = Fq2::square_montgomery(circuit, &lambda);
    let e = Fq2::mul_montgomery(circuit, &lambda, &d);
    let f = Fq2::mul_montgomery(circuit, rz, &c);
    let g = Fq2::mul_montgomery(circuit, rx, &d);
    let ef = Fq2::add(circuit, &e, &f);
    let g2 = Fq2::double(circuit, &g);
    let h = Fq2::sub(circuit, &ef, &g2);
    let neg_theta = Fq2::neg(circuit, &theta);
    let theta_qx = Fq2::mul_montgomery(circuit, &theta, qx);
    let lambda_qy = Fq2::mul_montgomery(circuit, &lambda, qy);
    let j = Fq2::sub(circuit, &theta_qx, &lambda_qy);
    let x = Fq2::mul_montgomery(circuit, &lambda, &h);
    let gh = Fq2::sub(circuit, &g, &h);
    let theta_gh = Fq2::mul_montgomery(circuit, &theta, &gh);
    let e_ry = Fq2::mul_montgomery(circuit, &e, ry);
    let y = Fq2::sub(circuit, &theta_gh, &e_ry);
    let z = Fq2::mul_montgomery(circuit, rz, &e);
    (G2Projective { x, y, z }, Fq6 { c0: lambda, c1: neg_theta, c2: j })
}

/// The negative of a point, on the same wires but for the ordinate.
pub fn g2_affine_neg_evaluate<C: CircuitContext>(
    circuit: &mut C,
    q: &G2Projective,
) -> (r: G2Projective)
    requires
        wf(old(circuit).wires()),
        q.ok(old(circuit).wires()),
    ensures
        step(old(circuit).wires(), final(circuit).wires()),
        r.ok(final(circuit).wires()),
        r.val(final(circuit).wires()) == jac2(
            q.val(old(circuit).wires()).x,
            neg2(q.val(old(circuit).wires()).y),
            q.val(old(circuit).wires()).z,
        ),
        r.x.wire_ids() == q.x.wire_ids(),
        r.z.wire_ids() == q.z.wire_ids(),
{
    proof {
        lemma_start(circuit.wires());
        reveal(G2Projective::ok);
        reveal(G2Projective::val);
        reveal(Fq6::ok);
        reveal(Fq6::val);
    }
    let x = q.x.clone();
    let y = Fq2::neg(circuit, &q.y);
    let z = q.z.clone();
    G2Projective { x, y, z }
}

/// The Frobenius map carried to the twist, on an affine point.
pub fn mul_by_char_montgomery<C: CircuitContext>(
    circuit: &mut C,
    p: &G2Projective,
) -> (r: G2Projective)
    requires
        wf(old(circuit).wires()),
        p.ok(old(circuit).wires()),
    ensures
        step(old(circuit).wires(), final(circuit).wires()),
        r.ok(final(circuit).wires()),
        r.val(final(circuit).wires()) == jac2(
        twist_x(p.val(old(circuit).wires()).x),
        twist_y(p.val(old(circuit).wires()).y),
        p.val(old(circuit).wires()).z,
    ),
{
    proof {
        lemma_start(circuit.wires());
        reveal(G2Projective::ok);
        reveal(G2Projective::val);
        reveal(Fq6::ok);
        reveal(Fq6::val);
    }
    let f_x = Fq2::frobenius_montgomery(circuit, &p.x, 1);
    let x = Fq2::mul_by_constant_montgomery(circuit, &f_x, fq2_as_montgomery(twist_q_x_value()));
    let f_y = Fq2::frobenius_montgomery(circuit, &p.y, 1);
    let y = Fq2::mul_by_constant_montgomery(circuit, &f_y, fq2_as_montgomery(twist_q_y_value()));
    let z = p.z.clone();
    G2Projective { x, y, z }
}

/// The lines that wires carry.
pub open spec fn line_values(s: Seq<bool>, lines: Seq<Fq6>) -> Seq<Ext6> {
    Seq::new(lines.len(), |i: int| lines[i].val(s))
}

pub open spec fn lines_ok(s: Seq<bool>, lines: Seq<Fq6>) -> bool {
    forall|i: int| 0 <= i < lines.len() ==> (#[trigger] lines[i]).ok(s)
}

/// The points that wires carry.
pub open spec fn g1_values(s: Seq<bool>, ps: Seq<G1Projective>) -> Seq<Jac1> {
    Seq::new(ps.len(), |i: int| ps[i].val(s))
}

pub open spec fn g1_all_ok(s: Seq<bool>, ps: Seq<G1Projective>) -> bool {
    forall|i: int| 0 <= i < ps.len() ==> (#[trigger] ps[i]).ok(s)
}

proof fn lemma_lines_step(a: Seq<bool>, b: Seq<bool>, lines: Seq<Fq6>)
    requires
        step(a, b),
        lines_ok(a, lines),
    ensures
        lines_ok(b, lines),
        line_values(b, lines) == line_values(a, lines),
{
    assert(line_values(b, lines) =~= line_values(a, lines));
}

proof fn lemma_points_step(a: Seq<bool>, b: Seq<bool>, ps: Seq<G1Projective>)
    requires
        step(a, b),
        g1_all_ok(a, ps),
    ensures
        g1_all_ok(b, ps),
        g1_values(b, ps) == g1_values(a, ps),
{
    assert(g1_values(b, ps) =~= g1_values(a, ps));
}

/// The lines of the pairing with a point on wires, in the order in which the
/// Miller loop takes them: one for each doubling, one for each addition that
/// the signed digits of the loop count ask for, and those of the two final
/// additions of Frobenius images. The point has to be affine.
pub fn ell_coeffs_montgomery<C: CircuitContext>(
    circuit: &mut C,
    q: &G2Projective,
) -> (ellc: Vec<Fq6>)
    requires
        wf(old(circuit).wires()),
        q.ok(old(circuit).wires()),
    ensures
        step(old(circuit).wires(), final(circuit).wires()),
        lines_ok(final(circuit).wires(), ellc@),
        line_values(final(circuit).wires(), ellc@) == pairing_lines(
            q.val(old(circuit).wires()),
            q.val(old(circuit).wires()).x,
            q.val(old(circuit).wires()).y,
        ),
        ellc@.len() == line_count(0) + 2,
{
    let ghost s0 = circuit.wires();
    let ghost qv = q.val(s0);
    proof {
        lemma_start(s0);
    }
    let digits = ate_loop_count();
    let neg_q = g2_affine_neg_evaluate(circuit, q);
    let mut ellc: Vec<Fq6> = Vec::new();
    let mut r = q.clone();
    let mut k: usize = 64;
    assert(line_values(circuit.wires(), ellc@) =~= line_walk(qv, qv.x, qv.y, 64).1);
    while k > 0
        invariant
            k <= 64,
            wf(s0),
            q.ok(s0),
            qv == q.val(s0),
            step(s0, circuit.wires()),
            grows(s0, circuit.wires()),
            neg_q.ok(circuit.wires()),
            neg_q.val(circuit.wires()) == jac2(qv.x, neg2(qv.y), qv.z),
            forall|i: int| 0 <= i < 65 ==> (#[trigger] digits@[i]) as int == ate_digits()[i],
            r.ok(circuit.wires()),
            lines_ok(circuit.wires(), ellc@),
            r.val(circuit.wires()) == line_walk(qv, qv.x, qv.y, k as int).0,
            line_values(circuit.wires(), ellc@) == line_walk(qv, qv.x, qv.y, k as int).1,
        decreases k,
    {
        k = k - 1;
        let ghost s1 = circuit.wires();
        let ghost before = line_walk(qv, qv.x, qv.y, k + 1);
        let (new_r, coeffs) = double_in_place_circuit_montgomery(circuit, &r);
        proof {
            lemma_lines_step(s1, circuit.wires(), ellc@);
        }
        let ghost c = coeffs.val(circuit.wires());
        ellc.push(coeffs);
        assert(line_values(circuit.wires(), ellc@) =~= before.1.push(c));
        r = new_r;
        let ghost s2 = circuit.wires();
        let ghost lines2 = line_values(s2, ellc@);
        let bit = digits[k];
        assert(bit as int == ate_digits()[k as int]);
        if bit == 1 {
            let (new_r, coeffs) = add_in_place_montgomery(circuit, &r, q);
            proof {
                lemma_lines_step(s2, circuit.wires(), ellc@);
            }
            let ghost c = coeffs.val(circuit.wires());
            ellc.push(coeffs);
            assert(line_values(circuit.wires(), ellc@) =~= lines2.push(c));
            r = new_r;
        } else if bit == -1 {
            let (new_r, coeffs) = add_in_place_montgomery(circuit, &r, &neg_q);
            proof {
                lemma_lines_step(s2, circuit.wires(), ellc@);
            }
            let ghost c = coeffs.val(circuit.wires());
            ellc.push(coeffs);
            assert(line_values(circuit.wires(), ellc@) =~= lines2.push(c));
            r = new_r;
        }
    }
    let ghost walk = line_walk(qv, qv.x, qv.y, 0);
    let ghost s3 = circuit.wires();
    proof {
        lemma_start(s3);
    }
    let q1 = mul_by_char_montgomery(circuit, q);
    let q2 = mul_by_char_montgomery(circuit, &q1);
    let q2 = g2_affine_neg_evaluate(circuit, &q2);
    let (new_r, coeffs) = add_in_place_montgomery(circuit, &r, &q1);
    proof {
        lemma_lines_step(s3, circuit.wires(), ellc@);
    }
    let ghost c = coeffs.val(circuit.wires());
    ellc.push(coeffs);
    assert(line_values(circuit.wires(), ellc@) =~= walk.1.push(c));
    let ghost s4 = circuit.wires();
    let ghost lines4 = line_values(s4, ellc@);
    let (_last_r, coeffs) = add_in_place_montgomery(circuit, &new_r, &q2);
    proof {
        lemma_lines_step(s4, circuit.wires(), ellc@);
    }
    let ghost c = coeffs.val(circuit.wires());
    ellc.push(coeffs);
    proof {
        assert(line_values(circuit.wires(), ellc@) =~= lines4.push(c));
        reveal(pairing_lines);
        lemma_pairing_lines_len(qv, qv.x, qv.y);
    }
    ellc
}

fn new_fq12_constant_montgomery<C: CircuitContext>(circuit: &C, v: Fq12Value) -> (r: Fq12)
    requires
        wf(circuit.wires()),
        v.valid(),
    ensures
        r.ok(circuit.wires()),
        r.val(circuit.wires()) == v@,
{
    Fq12::new_constant(circuit, fq12_as_montgomery(v))
}

/// Lists of constant lines, one for each point.
pub open spec fn coeff_lists(qells: Seq<Vec<EllCoeff>>) -> Seq<Seq<Ext6>> {
    Seq::new(qells.len(), |j: int| coeff_values(qells[j]@))
}

pub open spec fn valid_coeff_lists(qells: Seq<Vec<EllCoeff>>) -> bool {
    forall|j: int|
        #![trigger qells[j]]
        0 <= j < qells.len() ==> valid_coeff_list(qells[j]@) && qells[j]@.len() == line_count(0) + 2
}

/// Evaluates the `i`-th line of each list of constant lines.
fn ell_step_const<C: CircuitContext>(
    circuit: &mut C,
    f: &Fq12,
    qells: &Vec<Vec<EllCoeff>>,
    ps: &[G1Projective],
    i: usize,
) -> (r: Fq12)
    requires
        wf(old(circuit).wires()),
        f.ok(old(circuit).wires()),
        g1_all_ok(old(circuit).wires(), ps@),
        qells@.len() == ps@.len(),
        valid_coeff_lists(qells@),
        i < line_count(0) + 2,
    ensures
        step(old(circuit).wires(), final(circuit).wires()),
        r.ok(final(circuit).wires()),
        r.val(final(circuit).wires()) == ell_all(
            f.val(old(circuit).wires()),
            coeff_lists(qells@),
            g1_values(old(circuit).wires(), ps@),
            i as int,
            ps@.len(),
        ),
{
    let ghost s0 = circuit.wires();
    let ghost fv = f.val(s0);
    let ghost lines = coeff_lists(qells@);
    let ghost pv = g1_values(s0, ps@);
    proof {
        lemma_start(s0);
    }
    let mut r = f.clone();
    let mut j: usize = 0;
    while j < ps.len()
        invariant
            j <= ps@.len() == qells@.len(),
            wf(s0),
            g1_all_ok(s0, ps@),
            valid_coeff_lists(qells@),
            i < line_count(0) + 2,
            lines == coeff_lists(qells@),
            pv == g1_values(s0, ps@),
            step(s0, circuit.wires()),
            grows(s0, circuit.wires()),
            r.ok(circuit.wires()),
            r.val(circuit.wires()) == ell_all(fv, lines, pv, i as int, j as nat),
        decreases ps@.len() - j,
    {
        let p = &ps[j];
        let c = qells[j][i];
        assert(p.ok(s0) && c.valid() && lines[j as int][i as int] == c@ && pv[j as int] == p.val(s0))
            by {
            assert(ps@[j as int].ok(s0));
            assert(valid_coeff_list(qells@[j as int]@));
        }
        r = ell_eval_const(circuit, &r, &c, p);
        j = j + 1;
    }
    r
}

/// The Miller loop over lists of constant lines and points on wires.
fn miller_loop_const_lines<C: CircuitContext>(
    circuit: &mut C,
    qells: &Vec<Vec<EllCoeff>>,
    ps: &[G1Projective],
) -> (r: Fq12)
    requires
        wf(old(circuit).wires()),
        g1_all_ok(old(circuit).wires(), ps@),
        qells@.len() == ps@.len(),
        valid_coeff_lists(qells@),
    ensures
        step(old(circuit).wires(), final(circuit).wires()),
        r.ok(final(circuit).wires()),
        r.val(final(circuit).wires()) == miller(
            coeff_lists(qells@),
            g1_values(old(circuit).wires(), ps@),
            ps@.len(),
        ),
{
    let ghost s0 = circuit.wires();
    let ghost lines = coeff_lists(qells@);
    let ghost pv = g1_values(s0, ps@);
    let ghost n = ps@.len();
    proof {
        lemma_start(s0);
        lemma_line_count_mono(64);
    }
    let digits = ate_loop_count();
    let mut f = new_fq12_constant_montgomery(circuit, fq12_one());
    let mut i: usize = 0;
    let mut k: usize = 64;
    while k > 0
        invariant
            k <= 64,
            i == line_count(k as int),
            i <= 128,
            wf(s0),
            g1_all_ok(s0, ps@),
            qells@.len() == ps@.len() == n,
            valid_coeff_lists(qells@),
            lines == coeff_lists(qells@),
            pv == g1_values(s0, ps@),
            forall|j: int| 0 <= j < 65 ==> (#[trigger] digits@[j]) as int == ate_digits()[j],
            step(s0, circuit.wires()),
            grows(s0, circuit.wires()),
            f.ok(circuit.wires()),
            f.val(circuit.wires()) == miller_walk(lines, pv, n, k as int),
        decreases k,
    {
        k = k - 1;
        proof {
            lemma_line_count_mono(k as int);
        }
        if k != 63 {
            f = Fq12::square_montgomery(circuit, &f);
        }
        proof {
            lemma_points_step(s0, circuit.wires(), ps@);
        }
        f = ell_step_const(circuit, &f, qells, ps, i);
        i = i + 1;
        let bit = digits[k];
        assert(bit as int == ate_digits()[k as int]);
        if bit == 1 || bit == -1 {
            proof {
                lemma_points_step(s0, circuit.wires(), ps@);
            }
            f = ell_step_const(circuit, &f, qells, ps, i);
            i = i + 1;
        }
    }
    proof {
        reveal(miller);
        lemma_points_step(s0, circuit.wires(), ps@);
    }
    f = ell_step_const(circuit, &f, qells, ps, i);
    proof {
        lemma_points_step(s0, circuit.wires(), ps@);
    }
    ell_step_const(circuit, &f, qells, ps, i + 1)
}

/// The lines of constant points.
pub open spec fn affine_line_lists(qs: Seq<G2AffineValue>) -> Seq<Seq<Ext6>> {
    Seq::new(qs.len(), |j: int| affine_lines(qs[j]@))
}

pub open spec fn valid_points(qs: Seq<G2AffineValue>) -> bool {
    forall|j: int| 0 <= j < qs.len() ==> (#[trigger] qs[j]).valid()
}

fn ell_coeff_lists(qs: &[G2AffineValue]) -> (qells: Vec<Vec<EllCoeff>>)
    requires
        valid_points(qs@),
    ensures
        qells@.len() == qs@.len(),
        valid_coeff_lists(qells@),
        coeff_lists(qells@) == affine_line_lists(qs@),
{
    let mut qells: Vec<Vec<EllCoeff>> = Vec::new();
    let mut j: usize = 0;
    while j < qs.len()
        invariant
            j <= qs@.len(),
            valid_points(qs@),
            qells@.len() == j,
            valid_coeff_lists(qells@),
            forall|m: int|
                0 <= m < j ==> coeff_values((#[trigger] qells@[m])@) == affine_lines(qs@[m]@),
        decreases qs@.len() - j,
    {
        assert(qs@[j as int].valid());
        let e = ell_coeffs(qs[j]);
        qells.push(e);
        j = j + 1;
    }
    assert(coeff_lists(qells@) =~= affine_line_lists(qs@));
    qells
}

/// The Miller loop over a constant point and a point on wires that is affine.
pub fn miller_loop_const_q_affine<C: CircuitContext>(
    circuit: &mut C,
    p: &G1Projective,
    q: &G2AffineValue,
) -> (r: Fq12)
    requires
        wf(old(circuit).wires()),
        p.ok(old(circuit).wires()),
        q.valid(),
    ensures
        step(old(circuit).wires(), final(circuit).wires()),
        r.ok(final(circuit).wires()),
        r.val(final(circuit).wires()) == miller(
            seq![affine_lines(q@)],
            seq![p.val(old(circuit).wires())],
            1,
        ),
{
    let ghost s0 = circuit.wires();
    let ps = vec![p.clone()];
    let qs = vec![*q];
    let qells = ell_coeff_lists(qs.as_slice());
    proof {
        assert(affine_line_lists(qs@) =~= seq![affine_lines(q@)]);
        assert(g1_values(s0, ps@) =~= seq![p.val(s0)]);
    }
    miller_loop_const_lines(circuit, &qells, ps.as_slice())
}

/// The Miller loop over constant points and as many points on wires that are
/// affine.
pub fn multi_miller_loop_const_q_affine<C: CircuitContext>(
    circuit: &mut C,
    ps: &[G1Projective],
    qs: &[G2AffineValue],
) -> (r: Fq12)
    requires
        wf(old(circuit).wires()),
        ps@.len() == qs@.len(),
        g1_all_ok(old(circuit).wires(), ps@),
        valid_points(qs@),
    ensures
        step(old(circuit).wires(), final(circuit).wires()),
        r.ok(final(circuit).wires()),
        r.val(final(circuit).wires()) == miller(
            affine_line_lists(qs@),
            g1_values(old(circuit).wires(), ps@),
            ps@.len(),
        ),
{
    if ps.len() == 0 {
        proof {
            lemma_start(circuit.wires());
            lemma_miller_empty(affine_line_lists(qs@), g1_values(circuit.wires(), ps@));
        }
        return new_fq12_constant_montgomery(circuit, fq12_one());
    }
    let qells = ell_coeff_lists(qs);
    miller_loop_const_lines(circuit, &qells, ps)
}

/// The points in affine form.
pub open spec fn affine1_all(ps: Seq<Jac1>) -> Seq<Jac1> {
    Seq::new(ps.len(), |i: int| affine1(ps[i]))
}

fn g1_normalize_all<C: CircuitContext>(
    circuit: &mut C,
    ps: &[G1Projective],
) -> (r: Vec<G1Projective>)
    requires
        wf(old(circuit).wires()),
        g1_all_ok(old(circuit).wires(), ps@),
    ensures
        step(old(circuit).wires(), final(circuit).wires()),
        g1_all_ok(final(circuit).wires(), r@),
        g1_values(final(circuit).wires(), r@) == affine1_all(g1_values(old(circuit).wires(), ps@)),
{
    let ghost s0 = circuit.wires();
    let ghost pv = affine1_all(g1_values(s0, ps@));
    proof {
        lemma_start(s0);
    }
    let mut r: Vec<G1Projective> = Vec::new();
    let mut i: usize = 0;
    assert(g1_values(circuit.wires(), r@) =~= pv.take(0));
    while i < ps.len()
        invariant
            i <= ps@.len(),
            wf(s0),
            g1_all_ok(s0, ps@),
            pv == affine1_all(g1_values(s0, ps@)),
            r@.len() == i,
            step(s0, circuit.wires()),
            grows(s0, circuit.wires()),
            g1_all_ok(circuit.wires(), r@),
            g1_values(circuit.wires(), r@) == pv.take(i as int),
        decreases ps@.len() - i,
    {
        let ghost s1 = circuit.wires();
        assert(ps@[i as int].ok(s0));
        let a = g1_normalize_to_affine(circuit, &ps[i]);
        proof {
            lemma_points_step(s1, circuit.wires(), r@);
        }
        r.push(a);
        i = i + 1;
        assert(g1_values(circuit.wires(), r@) =~= pv.take(i as int));
    }
    assert(pv.take(i as int) =~= pv);
    r
}

/// The Miller loop over a constant point and a point on wires.
pub fn miller_loop_const_q<C: CircuitContext>(
    circuit: &mut C,
    p: &G1Projective,
    q: &G2AffineValue,
) -> (r: Fq12)
    requires
        wf(old(circuit).wires()),
        p.ok(old(circuit).wires()),
        q.valid(),
    ensures
        step(old(circuit).wires(), final(circuit).wires()),
        r.ok(final(circuit).wires()),
        r.val(final(circuit).wires()) == miller(
            seq![affine_lines(q@)],
            seq![affine1(p.val(old(circuit).wires()))],
            1,
        ),
{
    proof {
        lemma_start(circuit.wires());
    }
    let p_aff = g1_normalize_to_affine(circuit, p);
    miller_loop_const_q_affine(circuit, &p_aff, q)
}

/// The Miller loop over constant points and as many points on wires.
pub fn multi_miller_loop_const_q<C: CircuitContext>(
    circuit: &mut C,
    ps: &[G1Projective],
    qs: &[G2AffineValue],
) -> (r: Fq12)
    requires
        wf(old(circuit).wires()),
        ps@.len() == qs@.len(),
        g1_all_ok(old(circuit).wires(), ps@),
        valid_points(qs@),
    ensures
        step(old(circuit).wires(), final(circuit).wires()),
        r.ok(final(circuit).wires()),
        r.val(final(circuit).wires()) == miller(
            affine_line_lists(qs@),
            affine1_all(g1_values(old(circuit).wires(), ps@)),
            ps@.len(),
        ),
{
    let ghost s0 = circuit.wires();
    proof {
        lemma_start(s0);
    }
    if ps.len() == 0 {
        proof {
            lemma_miller_empty(affine_line_lists(qs@), affine1_all(g1_values(s0, ps@)));
        }
        return new_fq12_constant_montgomery(circuit, fq12_one());
    }
    let qells = ell_coeff_lists(qs);
    let ps_aff = g1_normalize_all(circuit, ps);
    assert(ps_aff@.len() == g1_values(circuit.wires(), ps_aff@).len());
    miller_loop_const_lines(circuit, &qells, ps_aff.as_slice())
}

/// Lists of lines on wires, one for each point.
pub open spec fn line_lists(s: Seq<bool>, qells: Seq<Vec<Fq6>>) -> Seq<Seq<Ext6>> {
    Seq::new(qells.len(), |j: int| line_values(s, qells[j]@))
}

pub open spec fn line_lists_ok(s: Seq<bool>, qells: Seq<Vec<Fq6>>) -> bool {
    forall|j: int|
        #![trigger qells[j]]
        0 <= j < qells.len() ==> lines_ok(s, qells[j]@) && qells[j]@.len() == line_count(0) + 2
}

proof fn lemma_line_lists_step(a: Seq<bool>, b: Seq<bool>, qells: Seq<Vec<Fq6>>)
    requires
        step(a, b),
        line_lists_ok(a, qells),
    ensures
        line_lists_ok(b, qells),
        line_lists(b, qells) == line_lists(a, qells),
{
    assert forall|j: int|
        #![trigger qells[j]]
        0 <= j < qells.len() implies lines_ok(b, qells[j]@) && qells[j]@.len() == line_count(0) + 2
        && line_values(b, qells[j]@) == line_values(a, qells[j]@) by {
        lemma_lines_step(a, b, qells[j]@);
    }
    assert(line_lists(b, qells) =~= line_lists(a, qells));
}

/// Evaluates the `i`-th line of each list, as far as there are points.
fn ell_step<C: CircuitContext>(
    circuit: &mut C,
    f: &Fq12,
    qells: &Vec<Vec<Fq6>>,
    ps: &[G1Projective],
    n: usize,
    i: usize,
) -> (r: Fq12)
    requires
        wf(old(circuit).wires()),
        f.ok(old(circuit).wires()),
        g1_all_ok(old(circuit).wires(), ps@),
        line_lists_ok(old(circuit).wires(), qells@),
        n <= ps@.len(),
        n <= qells@.len(),
        i < line_count(0) + 2,
    ensures
        step(old(circuit).wires(), final(circuit).wires()),
        r.ok(final(circuit).wires()),
        r.val(final(circuit).wires()) == ell_all(
            f.val(old(circuit).wires()),
            line_lists(old(circuit).wires(), qells@),
            g1_values(old(circuit).wires(), ps@),
            i as int,
            n as nat,
        ),
{
    let ghost s0 = circuit.wires();
    let ghost fv = f.val(s0);
    let ghost lines = line_lists(s0, qells@);
    let ghost pv = g1_values(s0, ps@);
    proof {
        lemma_start(s0);
    }
    let mut r = f.clone();
    let mut j: usize = 0;
    while j < n
        invariant
            j <= n <= ps@.len(),
            n <= qells@.len(),
            wf(s0),
            g1_all_ok(s0, ps@),
            line_lists_ok(s0, qells@),
            i < line_count(0) + 2,
            lines == line_lists(s0, qells@),
            pv == g1_values(s0, ps@),
            step(s0, circuit.wires()),
            grows(s0, circuit.wires()),
            r.ok(circuit.wires()),
            r.val(circuit.wires()) == ell_all(fv, lines, pv, i as int, j as nat),
        decreases n - j,
    {
        let p = &ps[j];
        assert(lines_ok(s0, qells@[j as int]@));
        let c = &qells[j][i];
        assert(p.ok(s0) && c.ok(s0) && lines[j as int][i as int] == c.val(s0) && pv[j as int]
            == p.val(s0)) by {
            assert(ps@[j as int].ok(s0));
            assert(qells@[j as int]@[i as int].ok(s0));
        }
        r = ell_montgomery(circuit, &r, c, p);
        j = j + 1;
    }
    r
}

/// The Miller loop over lists of lines on wires, as far as there are points.
fn miller_loop_lines<C: CircuitContext>(
    circuit: &mut C,
    qells: &Vec<Vec<Fq6>>,
    ps: &[G1Projective],
    n: usize,
) -> (r: Fq12)
    requires
        wf(old(circuit).wires()),
        g1_all_ok(old(circuit).wires(), ps@),
        line_lists_ok(old(circuit).wires(), qells@),
        n <= ps@.len(),
        n <= qells@.len(),
    ensures
        step(old(circuit).wires(), final(circuit).wires()),
        r.ok(final(circuit).wires()),
        r.val(final(circuit).wires()) == miller(
            line_lists(old(circuit).wires(), qells@),
            g1_values(old(circuit).wires(), ps@),
            n as nat,
        ),
{
    let ghost s0 = circuit.wires();
    let ghost lines = line_lists(s0, qells@);
    let ghost pv = g1_values(s0, ps@);
    proof {
        lemma_start(s0);
        lemma_line_count_mono(64);
    }
    let digits = ate_loop_count();
    let mut f = new_fq12_constant_montgomery(circuit, fq12_one());
    let mut i: usize = 0;
    let mut k: usize = 64;
    while k > 0
        invariant
            k <= 64,
            i == line_count(k as int),
            i <= 128,
            wf(s0),
            g1_all_ok(s0, ps@),
            line_lists_ok(s0, qells@),
            n <= ps@.len(),
            n <= qells@.len(),
            lines == line_lists(s0, qells@),
            pv == g1_values(s0, ps@),
            forall|j: int| 0 <= j < 65 ==> (#[trigger] digits@[j]) as int == ate_digits()[j],
            step(s0, circuit.wires()),
            grows(s0, circuit.wires()),
            f.ok(circuit.wires()),
            f.val(circuit.wires()) == miller_walk(lines, pv, n as nat, k as int),
        decreases k,
    {
        k = k - 1;
        proof {
            lemma_line_count_mono(k as int);
        }
        if k != 63 {
            f = Fq12::square_montgomery(circuit, &f);
        }
        proof {
            lemma_points_step(s0, circuit.wires(), ps@);
            lemma_line_lists_step(s0, circuit.wires(), qells@);
        }
        f = ell_step(circuit, &f, qells, ps, n, i);
        i = i + 1;
        let bit = digits[k];
        assert(bit as int == ate_digits()[k as int]);
        if bit == 1 || bit == -1 {
            proof {
                lemma_points_step(s0, circuit.wires(), ps@);
                lemma_line_lists_step(s0, circuit.wires(), qells@);
            }
            f = ell_step(circuit, &f, qells, ps, n, i);
            i = i + 1;
        }
    }
    proof {
        reveal(miller);
        lemma_points_step(s0, circuit.wires(), ps@);
        lemma_line_lists_step(s0, circuit.wires(), qells@);
    }
    f = ell_step(circuit, &f, qells, ps, n, i);
    proof {
        lemma_points_step(s0, circuit.wires(), ps@);
        lemma_line_lists_step(s0, circuit.wires(), qells@);
    }
    ell_step(circuit, &f, qells, ps, n, i + 1)
}

/// The points of the twist that wires carry.
pub open spec fn g2_values(s: Seq<bool>, qs: Seq<G2Projective>) -> Seq<Jac2> {
    Seq::new(qs.len(), |i: int| qs[i].val(s))
}

pub open spec fn g2_all_ok(s: Seq<bool>, qs: Seq<G2Projective>) -> bool {
    forall|i: int| 0 <= i < qs.len() ==> (#[trigger] qs[i]).ok(s)
}

/// The lines of points on wires, each started at the point itself.
pub open spec fn own_lines(q: Jac2) -> Seq<Ext6> {
    pairing_lines(q, q.x, q.y)
}

pub open spec fn own_line_lists(qs: Seq<Jac2>) -> Seq<Seq<Ext6>> {
    Seq::new(qs.len(), |j: int| own_lines(qs[j]))
}

/// The lines of an affine point are those of its three coordinates.
pub proof fn lemma_own_lines_affine(q: Aff2)
    ensures
        own_lines(jac2(q.x, q.y, one2())) == affine_lines(q),
{
}

/// The Miller loop over points on wires, both affine, as many as there are of
/// each.
pub fn multi_miller_loop_montgomery_fast<C: CircuitContext>(
    circuit: &mut C,
    ps: &[G1Projective],
    qs: &[G2Projective],
) -> (r: Fq12)
    requires
        wf(old(circuit).wires()),
        qs@.len() >= 1,
        g1_all_ok(old(circuit).wires(), ps@),
        g2_all_ok(old(circuit).wires(), qs@),
    ensures
        step(old(circuit).wires(), final(circuit).wires()),
        r.ok(final(circuit).wires()),
        r.val(final(circuit).wires()) == miller(
            own_line_lists(g2_values(old(circuit).wires(), qs@)),
            g1_values(old(circuit).wires(), ps@),
            if ps@.len() <= qs@.len() {
                ps@.len()
            } else {
                qs@.len()
            },
        ),
{
    let ghost s0 = circuit.wires();
    let ghost want = own_line_lists(g2_values(s0, qs@));
    proof {
        lemma_start(s0);
    }
    let mut qells: Vec<Vec<Fq6>> = Vec::new();
    let mut j: usize = 0;
    assert(line_lists(circuit.wires(), qells@) =~= want.take(0));
    while j < qs.len()
        invariant
            j <= qs@.len(),
            wf(s0),
            g2_all_ok(s0, qs@),
            want == own_line_lists(g2_values(s0, qs@)),
            qells@.len() == j,
            step(s0, circuit.wires()),
            grows(s0, circuit.wires()),
            line_lists_ok(circuit.wires(), qells@),
            line_lists(circuit.wires(), qells@) == want.take(j as int),
        decreases qs@.len() - j,
    {
        let ghost s1 = circuit.wires();
        assert(qs@[j as int].ok(s0));
        let qell = ell_coeffs_montgomery(circuit, &qs[j]);
        proof {
            lemma_line_lists_step(s1, circuit.wires(), qells@);
        }
        qells.push(qell);
        j = j + 1;
        assert(line_lists(circuit.wires(), qells@) =~= want.take(j as int));
    }
    assert(want.take(j as int) =~= want);
    proof {
        lemma_points_step(s0, circuit.wires(), ps@);
    }
    let n = if ps.len() <= qs.len() {
        ps.len()
    } else {
        qs.len()
    };
    miller_loop_lines(circuit, &qells, ps, n)
}

/// The Miller loop over a point and a point of the twist on wires. Both are
/// brought to affine form once, before the loop.
pub fn miller_loop_montgomery_fast<C: CircuitContext>(
    circuit: &mut C,
    p: &G1Projective,
    q: &G2Projective,
) -> (r: Fq12)
    requires
        wf(old(circuit).wires()),
        p.ok(old(circuit).wires()),
        q.ok(old(circuit).wires()),
    ensures
        step(old(circuit).wires(), final(circuit).wires()),
        r.ok(final(circuit).wires()),
        r.val(final(circuit).wires()) == miller(
            seq![own_lines(affine2(q.val(old(circuit).wires())))],
            seq![affine1(p.val(old(circuit).wires()))],
            1,
        ),
{
    let ghost s0 = circuit.wires();
    proof {
        lemma_start(s0);
    }
    let p_affine = g1_normalize_to_affine(circuit, p);
    let q_affine = g2_normalize_to_affine(circuit, q);
    let qell = ell_coeffs_montgomery(circuit, &q_affine);
    let ps = vec![p_affine];
    let qells = vec![qell];
    proof {
        assert(line_lists(circuit.wires(), qells@) =~= seq![own_lines(affine2(q.val(s0)))]);
        assert(g1_values(circuit.wires(), ps@) =~= seq![affine1(p.val(s0))]);
    }
    miller_loop_lines(circuit, &qells, ps.as_slice(), 1)
}

/// The pairing of a constant point and a point on wires.
pub fn pairing_const_q<C: CircuitContext>(
    circuit: &mut C,
    p: &G1Projective,
    q: &G2AffineValue,
) -> (r: Fq12)
    requires
        wf(old(circuit).wires()),
        p.ok(old(circuit).wires()),
        q.valid(),
    ensures
        step(old(circuit).wires(), final(circuit).wires()),
        r.ok(final(circuit).wires()),
        r.val(final(circuit).wires()) == final_exp(
            miller(seq![affine_lines(q@)], seq![affine1(p.val(old(circuit).wires()))], 1),
        ),
{
    proof {
        lemma_start(circuit.wires());
    }
    let f = miller_loop_const_q(circuit, p, q);
    final_exponentiation_montgomery(circuit, &f)
}

/// A multi-pairing is the product of the pairings of its pairs, each as
/// `pairing_const_q` gives it.
pub proof fn lemma_multi_pairing(ps: Seq<Jac1>, qs: Seq<G2AffineValue>)
    requires
        ps.len() == qs.len() >= 1,
    ensures
        final_exp(miller(affine_line_lists(qs), affine1_all(ps), ps.len())) == pairings(
            affine_line_lists(qs),
            affine1_all(ps),
            ps.len(),
        ),
        forall|i: int|
            0 <= i < ps.len() ==> #[trigger] pairing(affine_line_lists(qs)[i], affine1_all(ps)[i])
                == final_exp(miller(seq![affine_lines(qs[i]@)], seq![affine1(ps[i])], 1)),
{
    lemma_pairings(affine_line_lists(qs), affine1_all(ps), ps.len());
}

/// The order of its pairs does not matter to a multi-pairing.
pub proof fn lemma_multi_pairing_permuted(
    ps: Seq<Jac1>,
    qs: Seq<G2AffineValue>,
    other_ps: Seq<Jac1>,
    other_qs: Seq<G2AffineValue>,
)
    requires
        ps.len() == qs.len(),
        other_ps.len() == other_qs.len(),
        ps.zip_with(qs).to_multiset() == other_ps.zip_with(other_qs).to_multiset(),
    ensures
        final_exp(miller(affine_line_lists(qs), affine1_all(ps), ps.len())) == final_exp(
            miller(affine_line_lists(other_qs), affine1_all(other_ps), other_ps.len()),
        ),
{
    let (s, t) = (ps.zip_with(qs), other_ps.zip_with(other_qs));
    let f = |e: (Jac1, G2AffineValue)| (affine_lines(e.1@), affine1(e.0));
    let n = ps.len();
    assert(s.len() == s.to_multiset().len()) by {
        broadcast use vstd::seq_lib::group_to_multiset_ensures;

    }
    assert(t.len() == t.to_multiset().len()) by {
        broadcast use vstd::seq_lib::group_to_multiset_ensures;

    }
    lemma_mapped_multiset(s, t, f);
    assert(pairs(affine_line_lists(qs), affine1_all(ps), n) =~= s.map_values(f));
    assert(pairs(affine_line_lists(other_qs), affine1_all(other_ps), n) =~= t.map_values(f));
    lemma_miller_permuted(
        affine_line_lists(qs),
        affine1_all(ps),
        affine_line_lists(other_qs),
        affine1_all(other_ps),
        n,
    );
}

/// Sequences with the same elements have the same images.
proof fn lemma_mapped_multiset<A, B>(s: Seq<A>, t: Seq<A>, f: spec_fn(A) -> B)
    requires
        s.to_multiset() == t.to_multiset(),
    ensures
        s.map_values(f).to_multiset() == t.map_values(f).to_multiset(),
    decreases s.len(),
{
    broadcast use vstd::seq_lib::group_to_multiset_ensures;

    assert(s.len() == s.to_multiset().len());
    assert(t.len() == t.to_multiset().len());
    let (sf, tf) = (s.map_values(f), t.map_values(f));
    if s.len() > 0 {
        let e = s.last();
        assert(s.contains(e));
        assert(t.to_multiset().count(e) > 0);
        assert(t.contains(e));
        let j = choose|j: int| 0 <= j < t.len() && t[j] == e;
        let (u, v) = (s.drop_last(), t.remove(j));
        assert(s.remove(s.len() - 1) =~= u);
        lemma_mapped_multiset(u, v, f);
        assert(sf.drop_last() =~= u.map_values(f));
        assert(sf =~= u.map_values(f).push(f(e)));
        assert(tf.remove(j) =~= v.map_values(f));
        assert(tf.to_multiset() =~= tf.remove(j).to_multiset().insert(f(e)));
    } else {
        assert(sf =~= tf);
    }
}

/// The product of the pairings of constant points and points on wires.
pub fn multi_pairing_const_q<C: CircuitContext>(
    circuit: &mut C,
    ps: &[G1Projective],
    qs: &[G2AffineValue],
) -> (r: Fq12)
    requires
        wf(old(circuit).wires()),
        ps@.len() == qs@.len(),
        g1_all_ok(old(circuit).wires(), ps@),
        valid_points(qs@),
    ensures
        step(old(circuit).wires(), final(circuit).wires()),
        r.ok(final(circuit).wires()),
        r.val(final(circuit).wires()) == final_exp(
            miller(
                affine_line_lists(qs@),
                affine1_all(g1_values(old(circuit).wires(), ps@)),
                ps@.len(),
            ),
        ),
{
    proof {
        lemma_start(circuit.wires());
    }
    let f = multi_miller_loop_const_q(circuit, ps, qs);
    final_exponentiation_montgomery(circuit, &f)
}

/// Evaluates the `i`-th lines of two constant points and of one on wires.
fn ell_step_groth16<C: CircuitContext>(
    circuit: &mut C,
    f: &Fq12,
    c1: &EllCoeff,
    c2: &EllCoeff,
    c3: &Fq6,
    p1: &G1Projective,
    p2: &G1Projective,
    p3: &G1Projective,
) -> (r: Fq12)
    requires
        wf(old(circuit).wires()),
        f.ok(old(circuit).wires()),
        c1.valid(),
        c2.valid(),
        c3.ok(old(circuit).wires()),
        p1.ok(old(circuit).wires()),
        p2.ok(old(circuit).wires()),
        p3.ok(old(circuit).wires()),
    ensures
        step(old(circuit).wires(), final(circuit).wires()),
        r.ok(final(circuit).wires()),
        r.val(final(circuit).wires()) == ell(
            ell(
                ell(f.val(old(circuit).wires()), c1@, p1.val(old(circuit).wires())),
                c2@,
                p2.val(old(circuit).wires()),
            ),
            c3.val(old(circuit).wires()),
            p3.val(old(circuit).wires()),
        ),
{
    proof {
        lemma_start(circuit.wires());
    }
    let f1 = ell_by_constant_montgomery(circuit, f, c1, p1);
    let f2 = ell_by_constant_montgomery(circuit, &f1, c2, p2);
    ell_montgomery(circuit, &f2, c3, p3)
}

proof fn lemma_ell_all_three(
    f: Ext12,
    l1: Seq<Ext6>,
    l2: Seq<Ext6>,
    l3: Seq<Ext6>,
    p1: Jac1,
    p2: Jac1,
    p3: Jac1,
    i: int,
)
    ensures
        ell_all(f, seq![l1, l2, l3], seq![p1, p2, p3], i, 3) == ell(
            ell(ell(f, l1[i], p1), l2[i], p2),
            l3[i],
            p3,
        ),
{
    reveal_with_fuel(ell_all, 4);
}

/// The Miller loop of the verification equation: over two constant points and
/// one on wires, with affine points on wires.
pub fn multi_miller_loop_groth16_evaluate_montgomery_fast<C: CircuitContext>(
    circuit: &mut C,
    p1: &G1Projective,
    p2: &G1Projective,
    p3: &G1Projective,
    q1: G2AffineValue,
    q2: G2AffineValue,
    q3: &G2Projective,
) -> (r: Fq12)
    requires
        wf(old(circuit).wires()),
        p1.ok(old(circuit).wires()),
        p2.ok(old(circuit).wires()),
        p3.ok(old(circuit).wires()),
        q1.valid(),
        q2.valid(),
        q3.ok(old(circuit).wires()),
    ensures
        step(old(circuit).wires(), final(circuit).wires()),
        r.ok(final(circuit).wires()),
        r.val(final(circuit).wires()) == miller(
            seq![affine_lines(q1@), affine_lines(q2@), own_lines(q3.val(old(circuit).wires()))],
            seq![
                p1.val(old(circuit).wires()),
                p2.val(old(circuit).wires()),
                p3.val(old(circuit).wires()),
            ],
            3,
        ),
{
    let ghost s0 = circuit.wires();
    let ghost l1 = affine_lines(q1@);
    let ghost l2 = affine_lines(q2@);
    let ghost l3 = own_lines(q3.val(s0));
    let ghost v1 = p1.val(s0);
    let ghost v2 = p2.val(s0);
    let ghost v3 = p3.val(s0);
    let ghost lines = seq![l1, l2, l3];
    let ghost pv = seq![v1, v2, v3];
    proof {
        lemma_start(s0);
        lemma_line_count_mono(64);
    }
    let q1ell = ell_coeffs(q1);
    let q2ell = ell_coeffs(q2);
    let q3ell = ell_coeffs_montgomery(circuit, q3);
    let ghost s1 = circuit.wires();
    proof {
        lemma_start(s1);
    }
    let digits = ate_loop_count();
    let mut f = new_fq12_constant_montgomery(circuit, fq12_one());
    let mut i: usize = 0;
    let mut k: usize = 64;
    while k > 0
        invariant
            k <= 64,
            i == line_count(k as int),
            i <= 128,
            wf(s1),
            p1.ok(s1) && p1.val(s1) == v1,
            p2.ok(s1) && p2.val(s1) == v2,
            p3.ok(s1) && p3.val(s1) == v3,
            valid_coeff_list(q1ell@),
            valid_coeff_list(q2ell@),
            lines_ok(s1, q3ell@),
            coeff_values(q1ell@) == l1,
            coeff_values(q2ell@) == l2,
            line_values(s1, q3ell@) == l3,
            q1ell@.len() == line_count(0) + 2,
            q2ell@.len() == line_count(0) + 2,
            q3ell@.len() == line_count(0) + 2,
            lines == seq![l1, l2, l3],
            pv == seq![v1, v2, v3],
            forall|j: int| 0 <= j < 65 ==> (#[trigger] digits@[j]) as int == ate_digits()[j],
            step(s1, circuit.wires()),
            grows(s1, circuit.wires()),
            f.ok(circuit.wires()),
            f.val(circuit.wires()) == miller_walk(lines, pv, 3, k as int),
        decreases k,
    {
        k = k - 1;
        proof {
            lemma_line_count_mono(k as int);
        }
        if k != 63 {
            f = Fq12::square_montgomery(circuit, &f);
        }
        proof {
            lemma_ell_all_three(f.val(circuit.wires()), l1, l2, l3, v1, v2, v3, i as int);
            assert(q1ell@[i as int].valid() && q2ell@[i as int].valid() && q3ell@[i as int].ok(s1));
        }
        f = ell_step_groth16(circuit, &f, &q1ell[i], &q2ell[i], &q3ell[i], p1, p2, p3);
        i = i + 1;
        let bit = digits[k];
        assert(bit as int == ate_digits()[k as int]);
        if bit == 1 || bit == -1 {
            proof {
                lemma_ell_all_three(f.val(circuit.wires()), l1, l2, l3, v1, v2, v3, i as int);
                assert(q1ell@[i as int].valid() && q2ell@[i as int].valid() && q3ell@[i as int].ok(s1));
            }
            f = ell_step_groth16(circuit, &f, &q1ell[i], &q2ell[i], &q3ell[i], p1, p2, p3);
            i = i + 1;
        }
    }
    proof {
        reveal(miller);
        lemma_ell_all_three(f.val(circuit.wires()), l1, l2, l3, v1, v2, v3, i as int);
        assert(q1ell@[i as int].valid() && q2ell@[i as int].valid() && q3ell@[i as int].ok(s1));
    }
    f = ell_step_groth16(circuit, &f, &q1ell[i], &q2ell[i], &q3ell[i], p1, p2, p3);
    i = i + 1;
    proof {
        lemma_ell_all_three(f.val(circuit.wires()), l1, l2, l3, v1, v2, v3, i as int);
        assert(q1ell@[i as int].valid() && q2ell@[i as int].valid() && q3ell@[i as int].ok(s1));
    }
    ell_step_groth16(circuit, &f, &q1ell[i], &q2ell[i], &q3ell[i], p1, p2, p3)
}

} // verus!
