//! The pairing with the negative of a point is the inverse of the pairing with the
//! point.

use crate::math::automorphism::{lemma_conj12_mul, lemma_conj12_twice, lemma_reduced12};
use crate::math::curve::{
    affine_lines, ate_digits, coeff_b2, easy_part, ell, ell_all, is_signed_one, jac2,
    lemma_line_count_mono, lemma_pairing_lines_len, line_add, line_count, line_double, line_walk,
    miller, miller_walk, neg_aff2, pairing_lines, reduced_jac2, twist_q_y, twist_x, twist_y, Aff2,
    Jac1, Jac2,
};
use crate::math::cyclotomic::{lemma_maps, lemma_maps_of_one};
use crate::math::exponent::{
    invertible12, lemma_final_exp_one, lemma_final_exp_product, lemma_final_exp_zero,
    lemma_inverse_of_conjugate, lemma_inverse_of_product, lemma_invertible, lemma_mul12_zero,
    lemma_no_inverse_of_product,
};
use crate::math::field::{fmul, fneg, lemma_constants, lemma_fmul_reduced, lemma_fneg_neg, one_half};
use crate::math::inverse::{lemma_inv12_or_zero, lemma_unit12, lemma_unit6};
use crate::math::lines::lemma_mixed_term;
use crate::math::origin::{
    lemma_exp_of_easy_one, lemma_minus_one, lemma_vanishing_product, minus_one12, vanishes,
};
use crate::math::product::{lemma_miller_single_reduced, miller_single, pairing};
use crate::math::ring::{
    lemma_mul12_associates, lemma_mul12_commutes, lemma_mul12_medial, lemma_mul2_commutes,
    lemma_mul2_neg, lemma_stands_add2, lemma_stands_mul, lemma_stands_neg2, lemma_stands_same,
    lemma_stands_same2, lemma_stands_sub, lemma_stands_sub2,
};
use crate::math::tower::{
    add2, conj12, dbl2, ext12, ext6, frob2, half2, inv12, lemma_add2_zero, lemma_mul2_one,
    lemma_mul2_zero, mul12, mul2, mul6, mul_v, neg2, neg6, one12, one2, reduced12, reduced2,
    reduced6, scale2, sparse034, sqr12, sqr2, sub2, triple2, xi, zero12, zero2, zero6, Ext12, Ext2,
    Ext6,
};
use vstd::prelude::*;

verus! {

/// Whether one point has the ordinate of the other negated, or the other two
/// coordinates.
spec fn mirrored(s: Jac2, r: Jac2) -> bool {
    s == jac2(r.x, neg2(r.y), r.z) || s == jac2(neg2(r.x), r.y, neg2(r.z))
}

/// Whether one line has the first coefficient of the other negated, or the other
/// two.
spec fn mirrored_line(l: Ext6, m: Ext6) -> bool {
    &&& reduced2(m.c2)
    &&& l == ext6(neg2(m.c0), m.c1, m.c2) || l == ext6(m.c0, neg2(m.c1), neg2(m.c2))
}

proof fn lemma_neg_neg(a: Ext2)
    requires
        reduced2(a),
    ensures
        neg2(neg2(a)) == a,
{
    reveal(neg2);
    lemma_fneg_neg(a.c0);
    lemma_fneg_neg(a.c1);
}

/// Signs in products, sums and differences.
proof fn lemma_signs(a: Ext2, b: Ext2)
    ensures
        mul2(neg2(a), b) == neg2(mul2(a, b)),
        mul2(a, neg2(b)) == neg2(mul2(a, b)),
        mul2(neg2(a), neg2(b)) == mul2(a, b),
        sqr2(neg2(a)) == sqr2(a),
        add2(neg2(a), neg2(b)) == neg2(add2(a, b)),
        sub2(neg2(a), neg2(b)) == neg2(sub2(a, b)),
{
    broadcast use crate::math::tower::group_reduced2;

    let (a0, a1, b0, b1) = (a.c0 as int, a.c1 as int, b.c0 as int, b.c1 as int);
    lemma_mul2_neg(a, b);
    lemma_mul2_neg(a, neg2(b));
    lemma_neg_neg(mul2(a, b));
    lemma_mul2_neg(a, a);
    lemma_mul2_neg(a, neg2(a));
    lemma_neg_neg(mul2(a, a));
    lemma_stands_neg2(a, a0, a1);
    lemma_stands_neg2(b, b0, b1);
    lemma_stands_add2(a, a0, a1, b, b0, b1);
    lemma_stands_add2(neg2(a), -a0, -a1, neg2(b), -b0, -b1);
    lemma_stands_neg2(add2(a, b), a0 + b0, a1 + b1);
    lemma_stands_same2(add2(neg2(a), neg2(b)), neg2(add2(a, b)), -a0 - b0, -a1 - b1);
    lemma_stands_sub2(a, a0, a1, b, b0, b1);
    lemma_stands_sub2(neg2(a), -a0, -a1, neg2(b), -b0, -b1);
    lemma_stands_neg2(sub2(a, b), a0 - b0, a1 - b1);
    lemma_stands_same2(sub2(neg2(a), neg2(b)), neg2(sub2(a, b)), b0 - a0, b1 - a1);
}

/// The negative times a number.
proof fn lemma_scaled_sign(a: Ext2, k: nat)
    ensures
        scale2(neg2(a), k) == neg2(scale2(a, k)),
{
    reveal(scale2);
    reveal(neg2);
    lemma_product_sign(a.c0, k);
    lemma_product_sign(a.c1, k);
}

proof fn lemma_product_sign(a: nat, k: nat)
    ensures
        fmul(fneg(a), k) == fneg(fmul(a, k)),
{
    let (x, y) = (a as int, k as int);
    lemma_stands_sub(0, 0, a, x);
    lemma_stands_mul(fneg(a), 0 - x, k, y);
    lemma_stands_mul(a, x, k, y);
    lemma_stands_sub(0, 0, fmul(a, k), x * y);
    assert((0 - x) * y == 0 - x * y) by (nonlinear_arith);
    lemma_stands_same(fmul(fneg(a), k), fneg(fmul(a, k)), 0 - x * y);
}

/// Doubling keeps points and lines mirrored.
proof fn lemma_double_mirrored(s: Jac2, r: Jac2)
    requires
        mirrored(s, r),
        reduced_jac2(r),
    ensures
        reduced_jac2(line_double(r).0),
        mirrored(line_double(s).0, line_double(r).0),
        mirrored_line(line_double(s).1, line_double(r).1),
{
    broadcast use crate::math::tower::group_reduced2;

    reveal(line_double);
    let (x, y, z) = (r.x, r.y, r.z);
    let (b, c, yz) = (sqr2(y), sqr2(z), mul2(y, z));
    lemma_mixed_term(y, z);
    lemma_mixed_term(s.y, s.z);
    lemma_signs(x, y);
    lemma_signs(y, x);
    lemma_signs(y, z);
    lemma_signs(z, y);
    lemma_signs(yz, yz);
    lemma_scaled_sign(mul2(x, y), one_half());
    let e = mul2(triple2(c), coeff_b2());
    let f = triple2(e);
    let a = half2(mul2(x, y));
    lemma_signs(a, sub2(b, f));
    lemma_signs(b, dbl2(yz));
}

/// Addition keeps points and lines mirrored, where the ordinate of the point that
/// is added is negated.
proof fn lemma_add_mirrored(s: Jac2, r: Jac2, x: Ext2, y: Ext2)
    requires
        mirrored(s, r),
        reduced_jac2(r),
    ensures
        reduced_jac2(line_add(r, x, y).0),
        mirrored(line_add(s, x, neg2(y)).0, line_add(r, x, y).0),
        mirrored_line(line_add(s, x, neg2(y)).1, line_add(r, x, y).1),
{
    broadcast use crate::math::tower::group_reduced2;

    reveal(line_add);
    let (t, m) = (mul2(y, r.z), mul2(x, r.z));
    let (theta, lambda) = (sub2(r.y, t), sub2(r.x, m));
    let (c, d) = (sqr2(theta), sqr2(lambda));
    let (e, f, g) = (mul2(lambda, d), mul2(r.z, c), mul2(r.x, d));
    let h = sub2(add2(e, f), dbl2(g));
    let (u, v) = (mul2(theta, x), mul2(lambda, y));
    let (p, q) = (mul2(theta, sub2(g, h)), mul2(e, r.y));
    lemma_signs(y, r.z);
    lemma_signs(r.y, t);
    lemma_signs(theta, sub2(g, h));
    lemma_signs(theta, x);
    lemma_signs(lambda, y);
    lemma_signs(u, v);
    lemma_signs(e, r.y);
    lemma_signs(p, q);
    // the other two coordinates
    lemma_signs(x, r.z);
    lemma_signs(r.x, m);
    lemma_signs(lambda, d);
    lemma_signs(r.z, c);
    lemma_signs(r.x, d);
    lemma_signs(e, f);
    lemma_signs(g, g);
    lemma_signs(add2(e, f), dbl2(g));
    lemma_signs(lambda, h);
    lemma_signs(g, h);
    lemma_signs(r.z, e);
}

/// The lines of the loop are mirrored.
proof fn lemma_walk_mirrored(s: Jac2, r: Jac2, x: Ext2, y: Ext2, k: int)
    requires
        mirrored(s, r),
        reduced_jac2(r),
    ensures
        reduced_jac2(line_walk(r, x, y, k).0),
        mirrored(line_walk(s, x, neg2(y), k).0, line_walk(r, x, y, k).0),
        line_walk(s, x, neg2(y), k).1.len() == line_walk(r, x, y, k).1.len(),
        forall|i: int|
            0 <= i < line_walk(r, x, y, k).1.len() ==> mirrored_line(
                #[trigger] line_walk(s, x, neg2(y), k).1[i],
                line_walk(r, x, y, k).1[i],
            ),
    decreases 64 - k,
{
    if k < 64 {
        lemma_walk_mirrored(s, r, x, y, k + 1);
        let (a, b) = (line_walk(s, x, neg2(y), k + 1).0, line_walk(r, x, y, k + 1).0);
        lemma_double_mirrored(a, b);
        let (c, d) = (line_double(a).0, line_double(b).0);
        lemma_add_mirrored(c, d, x, y);
        lemma_add_mirrored(c, d, x, neg2(y));
    }
}

/// The lines of the negative of a point are mirrored.
proof fn lemma_lines_mirrored(q: Aff2)
    requires
        reduced2(q.x),
        reduced2(q.y),
    ensures
        affine_lines(neg_aff2(q)).len() == line_count(0) + 2,
        affine_lines(q).len() == line_count(0) + 2,
        forall|i: int|
            0 <= i < affine_lines(q).len() ==> mirrored_line(
                #[trigger] affine_lines(neg_aff2(q))[i],
                affine_lines(q)[i],
            ),
{
    reveal(pairing_lines);
    let (x, y, n) = (q.x, q.y, neg2(q.y));
    let (s, r) = (jac2(x, n, one2()), jac2(x, y, one2()));
    lemma_constants();
    lemma_pairing_lines_len(s, x, n);
    lemma_pairing_lines_len(r, x, y);
    lemma_walk_mirrored(s, r, x, y, 0);
    let (x1, y1) = (twist_x(x), twist_y(y));
    let (x2, y2) = (twist_x(x1), neg2(twist_y(y1)));
    lemma_twisted_sign(y);
    lemma_twisted_sign(y1);
    let (a, b) = (line_walk(s, x, n, 0).0, line_walk(r, x, y, 0).0);
    lemma_add_mirrored(a, b, x1, y1);
    let (c, d) = (line_add(a, x1, neg2(y1)).0, line_add(b, x1, y1).0);
    lemma_add_mirrored(c, d, x2, y2);
}

/// The Frobenius map of the twist keeps signs.
proof fn lemma_twisted_sign(y: Ext2)
    ensures
        twist_y(neg2(y)) == neg2(twist_y(y)),
{
    let c = frob2(y, 1);
    assert(frob2(neg2(y), 1) == neg2(c)) by {
        reveal(frob2);
        reveal(neg2);
    }
    lemma_mul2_neg(c, twist_q_y());
}

/// The value of a line at a point.
spec fn line_value(line: Ext6, p: Jac1) -> Ext12 {
    sparse034(scale2(line.c0, p.y), scale2(line.c1, p.x), line.c2)
}

/// Minus one times an element.
proof fn lemma_negated(z: Ext12)
    requires
        reduced12(z),
    ensures
        mul12(minus_one12(), z) == ext12(neg6(z.c0), neg6(z.c1)),
{
    broadcast use crate::math::tower::group_reduced2;

    lemma_constants();
    lemma_negated6(z.c0);
    lemma_negated6(z.c1);
    reveal(mul12);
    lemma_unit6(z.c0);
    lemma_unit6(z.c1);
    let (a, b) = (neg6(z.c0), neg6(z.c1));
    assert(reduced6(a) && reduced6(b)) by {
        reveal(neg6);
    }
    lemma_unit6(a);
    lemma_unit6(b);
    assert(mul_v(zero6()) == zero6()) by {
        reveal(mul_v);
        lemma_mul2_zero(xi());
    }
}

proof fn lemma_negated6(z: Ext6)
    requires
        reduced6(z),
    ensures
        mul6(ext6(neg2(one2()), zero2(), zero2()), z) == neg6(z),
{
    broadcast use crate::math::tower::group_reduced2;

    reveal(mul6);
    reveal(neg6);
    lemma_constants();
    lemma_mul2_zero(z.c0);
    lemma_mul2_zero(z.c1);
    lemma_mul2_zero(z.c2);
    lemma_mul2_zero(xi());
    lemma_add2_zero(zero2());
    lemma_minus_times(z.c0);
    lemma_minus_times(z.c1);
    lemma_minus_times(z.c2);
    lemma_add2_zero(neg2(z.c0));
    lemma_add2_zero(neg2(z.c1));
    lemma_add2_zero(neg2(z.c2));
}

proof fn lemma_minus_times(a: Ext2)
    requires
        reduced2(a),
    ensures
        mul2(neg2(one2()), a) == neg2(a),
{
    lemma_mul2_neg(one2(), a);
    lemma_mul2_commutes(one2(), a);
    lemma_mul2_one(a);
}

/// The values of mirrored lines are conjugates but for the sign.
proof fn lemma_values_mirrored(l: Ext6, m: Ext6, p: Jac1)
    requires
        mirrored_line(l, m),
    ensures
        reduced12(line_value(m, p)),
        line_value(l, p) == conj12(line_value(m, p)) || line_value(l, p) == mul12(
            minus_one12(),
            conj12(line_value(m, p)),
        ),
{
    broadcast use crate::math::tower::group_reduced2;

    let v = line_value(m, p);
    let (a, b, c) = (scale2(m.c0, p.y), scale2(m.c1, p.x), m.c2);
    lemma_constants();
    lemma_scaled_sign(m.c0, p.y);
    lemma_scaled_sign(m.c1, p.x);
    assert(reduced2(a) && reduced2(b)) by {
        reveal(scale2);
        lemma_fmul_reduced(m.c0.c0, p.y);
        lemma_fmul_reduced(m.c0.c1, p.y);
        lemma_fmul_reduced(m.c1.c0, p.x);
        lemma_fmul_reduced(m.c1.c1, p.x);
    }
    assert(neg2(zero2()) == zero2()) by {
        reveal(neg2);
        lemma_fneg_neg(0);
    }
    reveal(conj12);
    reveal(neg6);
    let z = conj12(v);
    assert(z == sparse034(a, neg2(b), neg2(c)));
    lemma_negated(z);
    lemma_neg_neg(b);
    lemma_neg_neg(c);
}

/// Nothing remains of minus one after the final exponentiation.
proof fn lemma_minus_one_vanishes()
    ensures
        vanishes(minus_one12()),
{
    let u = minus_one12();
    lemma_minus_one();
    lemma_maps_of_one();
    lemma_unit12(one12());
    lemma_invertible(u, u);
    assert(conj12(u) == u) by {
        lemma_constants();
        reveal(conj12);
        reveal(neg6);
        reveal(neg2);
        lemma_fneg_neg(0);
    }
    assert(easy_part(u) == one12());
    lemma_exp_of_easy_one(u);
}

/// Nothing remains of what has an inverse times its conjugate, whatever the sign.
proof fn lemma_norm_vanishes(w: Ext12, v: Ext12)
    requires
        invertible12(v),
        w == conj12(v) || w == mul12(minus_one12(), conj12(v)),
    ensures
        vanishes(mul12(w, v)),
{
    let c = conj12(v);
    let n = mul12(c, v);
    lemma_maps(v);
    lemma_inverse_of_conjugate(v);
    lemma_inverse_of_product(c, v);
    // the norm is its own conjugate
    lemma_conj12_mul(c, v);
    lemma_conj12_twice(v);
    lemma_mul12_commutes(v, c);
    assert(conj12(n) == n);
    lemma_mul12_commutes(n, inv12(n));
    lemma_maps_of_one();
    lemma_unit12(one12());
    assert(easy_part(n) == one12());
    lemma_exp_of_easy_one(n);
    lemma_minus_one_vanishes();
    lemma_vanishing_product(minus_one12(), n);
    lemma_mul12_associates(minus_one12(), c, v);
}

/// The factors of what has an inverse have one.
proof fn lemma_invertible_factors(a: Ext12, b: Ext12)
    requires
        reduced12(a),
        reduced12(b),
        invertible12(mul12(a, b)),
    ensures
        invertible12(a),
        invertible12(b),
{
    lemma_mul12_commutes(a, b);
    lemma_mul12_zero(mul12(a, b));
    lemma_constants();
    if !invertible12(a) {
        lemma_no_inverse_of_product(a, b);
    }
    if !invertible12(b) {
        lemma_no_inverse_of_product(b, a);
    }
}

/// One more pair of mirrored lines.
proof fn lemma_ell_mirrored(g: Ext12, f: Ext12, l: Ext6, m: Ext6, p: Jac1)
    requires
        reduced12(f),
        mirrored_line(l, m),
        invertible12(ell(f, m, p)),
        invertible12(f) ==> vanishes(mul12(g, f)),
    ensures
        vanishes(mul12(ell(g, l, p), ell(f, m, p))),
{
    reveal(ell);
    let (w, v) = (line_value(l, p), line_value(m, p));
    lemma_values_mirrored(l, m, p);
    lemma_invertible_factors(f, v);
    lemma_norm_vanishes(w, v);
    lemma_vanishing_product(mul12(g, f), mul12(w, v));
    lemma_mul12_medial(g, f, w, v);
}

proof fn lemma_ell_reduced(f: Ext12, line: Ext6, p: Jac1)
    ensures
        reduced12(ell(f, line, p)),
{
    reveal(ell);
    lemma_reduced12(f, line_value(line, p));
}

/// Whether the lines of two lists are mirrored.
spec fn mirrored_lines(ls: Seq<Ext6>, ms: Seq<Ext6>) -> bool {
    &&& ls.len() == ms.len()
    &&& forall|i: int| 0 <= i < ms.len() ==> mirrored_line(#[trigger] ls[i], ms[i])
}

proof fn lemma_miller_walk_mirrored(ls: Seq<Ext6>, ms: Seq<Ext6>, p: Jac1, k: int)
    requires
        0 <= k <= 64,
        mirrored_lines(ls, ms),
        line_count(0) <= ms.len(),
    ensures
        reduced12(miller_walk(seq![ms], seq![p], 1, k)),
        invertible12(miller_walk(seq![ms], seq![p], 1, k)) ==> vanishes(
            mul12(
                miller_walk(seq![ls], seq![p], 1, k),
                miller_walk(seq![ms], seq![p], 1, k),
            ),
        ),
    decreases 64 - k,
{
    lemma_maps_of_one();
    lemma_final_exp_one();
    lemma_unit12(one12());
    if k < 64 {
        let (la, ma, ps) = (seq![ls], seq![ms], seq![p]);
        lemma_miller_walk_mirrored(ls, ms, p, k + 1);
        lemma_line_count_mono(k);
        let (g0, f0) = (miller_walk(la, ps, 1, k + 1), miller_walk(ma, ps, 1, k + 1));
        let (g, f) = if k == 63 {
            (g0, f0)
        } else {
            (sqr12(g0), sqr12(f0))
        };
        lemma_reduced12(f0, f0);
        let i = line_count(k + 1) as int;
        reveal_with_fuel(ell_all, 2);
        let (g1, f1) = (ell(g, ls[i], p), ell(f, ms[i], p));
        lemma_ell_reduced(f, ms[i], p);
        lemma_ell_reduced(f1, ms[i + 1], p);
        if k != 63 && invertible12(f) {
            lemma_invertible_factors(f0, f0);
            lemma_mul12_medial(g0, g0, f0, f0);
            lemma_vanishing_product(mul12(g0, f0), mul12(g0, f0));
        }
        if invertible12(f1) {
            lemma_ell_mirrored(g, f, ls[i], ms[i], p);
        }
        if is_signed_one(ate_digits()[k]) && invertible12(ell(f1, ms[i + 1], p)) {
            lemma_ell_mirrored(g1, f1, ls[i + 1], ms[i + 1], p);
        }
    }
}

/// The pairing with the negative of a point of the twist is the inverse of the
/// pairing with the point, where that is not zero.
pub proof fn lemma_pairing_negated(q: Aff2, p: Jac1)
    requires
        reduced2(q.x),
        reduced2(q.y),
        pairing(affine_lines(q), p) != zero12(),
    ensures
        mul12(pairing(affine_lines(neg_aff2(q)), p), pairing(affine_lines(q), p)) == one12(),
{
    let (ls, ms) = (affine_lines(neg_aff2(q)), affine_lines(q));
    let (la, ma, ps) = (seq![ls], seq![ms], seq![p]);
    let (w, v) = (miller_single(ls, p), miller_single(ms, p));
    lemma_lines_mirrored(q);
    lemma_miller_single_reduced(ls, p);
    lemma_miller_single_reduced(ms, p);
    lemma_inv12_or_zero(v);
    if !invertible12(v) {
        lemma_final_exp_zero(v);
    }
    reveal(miller);
    let i = line_count(0) as int;
    lemma_miller_walk_mirrored(ls, ms, p, 0);
    let (g, f) = (miller_walk(la, ps, 1, 0), miller_walk(ma, ps, 1, 0));
    reveal_with_fuel(ell_all, 2);
    let (g1, f1) = (ell(g, ls[i], p), ell(f, ms[i], p));
    lemma_ell_reduced(f, ms[i], p);
    if invertible12(f1) {
        lemma_ell_mirrored(g, f, ls[i], ms[i], p);
    }
    lemma_ell_mirrored(g1, f1, ls[i + 1], ms[i + 1], p);
    lemma_final_exp_product(w, v);
}

} // verus!
