//! Powers in the extension of degree twelve, and the final exponentiation.

use crate::math::automorphism::{
    lemma_conj12_mul, lemma_conj12_twice, lemma_frob12_mul, lemma_reduced12,
};
use crate::math::curve::{
    bn_x, easy_part, exp_neg_x, exp_neg_x_plain, final_exp, final_exp_plain, hard_part, naf,
    naf_pow,
};
use crate::math::cyclotomic::{
    is_cyclotomic, lemma_cyclotomic_conjugate, lemma_cyclotomic_product, lemma_cyclotomic_square,
    lemma_maps, lemma_maps_of_one,
};
use crate::math::inverse::{lemma_inv12, lemma_inv12_or_zero, lemma_unit12};
use crate::math::ring::{
    lemma_mul12_associates, lemma_mul12_commutes, lemma_mul12_medial, lemma_sqr12_product,
};
use crate::math::field::{lemma_constants, lemma_fneg_neg};
use crate::math::tower::{
    add6, conj12, frob12, frob12_c1, frob2, frob6, frob6_c1, frob6_c2, inv12, lemma_add2_zero,
    lemma_mul2_zero, mul12, mul6, mul_v, one12, pow12, reduced12, scale6, sqr12, xi, zero12, zero2,
    Ext12,
};
use vstd::prelude::*;

verus! {

/// Whether an element is reduced and has an inverse.
pub open spec fn invertible12(a: Ext12) -> bool {
    reduced12(a) && reduced12(inv12(a)) && mul12(a, inv12(a)) == one12()
}

/// What has an inverse has the computed one.
pub proof fn lemma_invertible(a: Ext12, b: Ext12)
    requires
        reduced12(a),
        reduced12(b),
        mul12(a, b) == one12(),
    ensures
        invertible12(a),
        inv12(a) == b,
{
    lemma_inv12(a, b);
}

/// The inverse of a product is the product of the inverses.
pub proof fn lemma_inverse_of_product(a: Ext12, b: Ext12)
    requires
        invertible12(a),
        invertible12(b),
    ensures
        invertible12(mul12(a, b)),
        inv12(mul12(a, b)) == mul12(inv12(a), inv12(b)),
{
    let (c, d) = (inv12(a), inv12(b));
    lemma_mul12_medial(a, b, c, d);
    lemma_maps_of_one();
    lemma_unit12(one12());
    lemma_reduced12(a, b);
    lemma_reduced12(c, d);
    lemma_invertible(mul12(a, b), mul12(c, d));
}

/// The inverse of a conjugate is the conjugate of the inverse.
pub proof fn lemma_inverse_of_conjugate(a: Ext12)
    requires
        invertible12(a),
    ensures
        invertible12(conj12(a)),
        inv12(conj12(a)) == conj12(inv12(a)),
{
    lemma_conj12_mul(a, inv12(a));
    lemma_maps_of_one();
    lemma_maps(a);
    lemma_maps(inv12(a));
    lemma_invertible(conj12(a), conj12(inv12(a)));
}

/// The power with the next exponent.
pub proof fn lemma_pow12_next(a: Ext12, n: nat)
    requires
        reduced12(a),
    ensures
        pow12(a, n + 1) == mul12(pow12(a, n), a),
    decreases n,
{
    let h = pow12(a, n / 2);
    if n == 0 {
        assert(pow12(a, 0) == one12());
        lemma_maps_of_one();
        lemma_unit12(one12());
        assert(pow12(a, 1) == mul12(sqr12(pow12(a, 0)), a)) by {
            assert(1nat / 2 == 0nat);
        }
    } else if n % 2 == 0 {
        assert((n + 1) / 2 == n / 2);
        assert(pow12(a, n) == sqr12(h));
        assert(pow12(a, n + 1) == mul12(sqr12(h), a));
    } else {
        assert((n + 1) / 2 == n / 2 + 1);
        lemma_pow12_next(a, n / 2);
        lemma_sqr12_product(h, a);
        lemma_mul12_associates(sqr12(h), a, a);
    }
}

/// The power of a product is the product of the powers.
pub proof fn lemma_pow12_product(a: Ext12, b: Ext12, n: nat)
    ensures
        pow12(mul12(a, b), n) == mul12(pow12(a, n), pow12(b, n)),
    decreases n,
{
    if n == 0 {
        lemma_maps_of_one();
        lemma_unit12(one12());
    } else {
        let (h, k) = (pow12(a, n / 2), pow12(b, n / 2));
        lemma_pow12_product(a, b, n / 2);
        lemma_sqr12_product(h, k);
        if n % 2 == 1 {
            lemma_mul12_medial(sqr12(h), sqr12(k), a, b);
        }
    }
}

/// Powers of elements of the cyclotomic subgroup are in it.
pub proof fn lemma_pow12_cyclotomic(a: Ext12, n: nat)
    requires
        is_cyclotomic(a),
    ensures
        is_cyclotomic(pow12(a, n)),
    decreases n,
{
    if n == 0 {
        lemma_maps_of_one();
    } else {
        let h = pow12(a, n / 2);
        lemma_pow12_cyclotomic(a, n / 2);
        lemma_cyclotomic_product(h, h);
        if n % 2 == 1 {
            lemma_cyclotomic_product(sqr12(h), a);
        }
    }
}

/// Powers of what has an inverse have one.
pub proof fn lemma_pow12_invertible(a: Ext12, n: nat)
    requires
        invertible12(a),
    ensures
        invertible12(pow12(a, n)),
    decreases n,
{
    if n == 0 {
        lemma_maps_of_one();
        lemma_unit12(one12());
        lemma_invertible(one12(), one12());
    } else {
        let h = pow12(a, n / 2);
        lemma_pow12_invertible(a, n / 2);
        lemma_inverse_of_product(h, h);
        if n % 2 == 1 {
            lemma_inverse_of_product(sqr12(h), a);
        }
    }
}

/// Digits after the first one are those of the rest.
proof fn lemma_naf_pow_rest(a: Ext12, d: int, rest: Seq<int>, k: int)
    requires
        0 <= k,
    ensures
        naf_pow(a, seq![d] + rest, k + 1) == naf_pow(a, rest, k),
    decreases rest.len() - k,
{
    let all = seq![d] + rest;
    if k < rest.len() {
        lemma_naf_pow_rest(a, d, rest, k + 1);
        assert(all[k + 1] == rest[k]);
    }
}

/// In the cyclotomic subgroup the power by signed digits is the power.
pub proof fn lemma_naf_pow(a: Ext12, n: nat)
    requires
        is_cyclotomic(a),
        invertible12(a),
    ensures
        naf_pow(a, naf(n), 0) == pow12(a, n),
    decreases n,
{
    if n == 0 {
        assert(naf(0) =~= Seq::<int>::empty());
    } else {
        let (d, m) = if n % 4 == 1 {
            (1int, ((n - 1) / 2) as nat)
        } else if n % 4 == 3 {
            (-1int, ((n + 1) / 2) as nat)
        } else {
            (0int, n / 2)
        };
        let digits = naf(n);
        assert(digits == seq![d] + naf(m));
        lemma_naf_pow(a, m);
        lemma_naf_pow_rest(a, d, naf(m), 0);
        lemma_pow12_cyclotomic(a, m);
        lemma_cyclotomic_square(pow12(a, m));
        let s = sqr12(pow12(a, m));
        assert(digits[0] == d);
        if d == 1 {
            assert(n / 2 == m && n % 2 == 1);
        } else if d == 0 {
            assert(n % 2 == 0);
        } else {
            // the square is the power with exponent n + 1
            assert((n + 1) / 2 == m && (n + 1) % 2 == 0);
            assert(pow12(a, n + 1) == s);
            lemma_pow12_next(a, n);
            lemma_mul12_associates(pow12(a, n), a, inv12(a));
            lemma_pow12_cyclotomic(a, n);
            lemma_unit12(pow12(a, n));
        }
    }
}

/// In the cyclotomic subgroup both ways to raise to the curve parameter agree.
pub proof fn lemma_exp_agrees(a: Ext12)
    requires
        is_cyclotomic(a),
        invertible12(a),
    ensures
        exp_neg_x(a) == exp_neg_x_plain(a),
        is_cyclotomic(exp_neg_x_plain(a)),
        invertible12(exp_neg_x_plain(a)),
{
    lemma_naf_pow(a, bn_x());
    lemma_pow12_cyclotomic(a, bn_x());
    lemma_pow12_invertible(a, bn_x());
    lemma_cyclotomic_conjugate(pow12(a, bn_x()));
    lemma_inverse_of_conjugate(pow12(a, bn_x()));
}

/// The easy part leads into the cyclotomic subgroup.
pub proof fn lemma_easy_part(f: Ext12)
    requires
        invertible12(f),
    ensures
        is_cyclotomic(easy_part(f)),
        invertible12(easy_part(f)),
{
    let g = inv12(f);
    let u = mul12(g, conj12(f));
    let v = conj12(u);
    lemma_maps_of_one();
    lemma_reduced12(g, conj12(f));
    lemma_maps(f);
    lemma_maps(u);
    lemma_unit12(one12());
    // u conj(u) = (g conj(f)) (conj(g) f) = (g f) conj(f g) = 1
    assert(mul12(u, v) == one12()) by {
        lemma_conj12_mul(g, conj12(f));
        lemma_conj12_twice(f);
        lemma_mul12_commutes(conj12(g), f);
        lemma_mul12_medial(g, conj12(f), f, conj12(g));
        lemma_mul12_commutes(g, f);
        lemma_conj12_mul(f, g);
    }
    let (s, sv) = (frob12(u, 2), frob12(v, 2));
    let (t, tv) = (frob12(s, 2), frob12(sv, 2));
    lemma_frob12_mul(u, v, 2);
    lemma_frob12_mul(s, sv, 2);
    lemma_maps(s);
    lemma_maps(t);
    let r = mul12(s, u);
    lemma_reduced12(s, u);
    // the inverse of s u is the product of the conjugates
    lemma_maps(v);
    lemma_mul12_medial(s, u, sv, v);
    lemma_reduced12(sv, v);
    lemma_invertible(r, mul12(sv, v));
    // (t s) (u conj(t)) = (s u) (t conj(t))
    lemma_frob12_mul(s, u, 2);
    lemma_frob12_mul(t, s, 2);
    assert(frob12(t, 2) == v);
    lemma_conj12_mul(v, t);
    lemma_conj12_twice(u);
    assert(conj12(t) == tv);
    assert(conj12(frob12(frob12(r, 2), 2)) == mul12(u, tv));
    lemma_mul12_commutes(t, s);
    lemma_mul12_medial(s, t, u, tv);
    lemma_unit12(r);
    assert(easy_part(f) == r);
}

/// The final exponentiation with squarings of the cyclotomic subgroup is that
/// with plain squarings, on what has an inverse.
proof fn lemma_invertible_agrees(f: Ext12)
    requires
        invertible12(f),
    ensures
        final_exp(f) == final_exp_plain(f),
{
    reveal(final_exp);
    reveal(final_exp_plain);
    let r = easy_part(f);
    lemma_easy_part(f);
    lemma_exp_agrees(r);
    let y0 = exp_neg_x_plain(r);
    let y1 = sqr12(y0);
    lemma_cyclotomic_product(y0, y0);
    lemma_inverse_of_product(y0, y0);
    let y2 = sqr12(y1);
    lemma_cyclotomic_product(y1, y1);
    lemma_inverse_of_product(y1, y1);
    let y3 = mul12(y1, y2);
    lemma_cyclotomic_product(y1, y2);
    lemma_inverse_of_product(y1, y2);
    lemma_exp_agrees(y3);
    let y4 = exp_neg_x_plain(y3);
    let y5 = sqr12(y4);
    lemma_cyclotomic_product(y4, y4);
    lemma_inverse_of_product(y4, y4);
    lemma_exp_agrees(y5);
}

proof fn lemma_exp_plain_product(a: Ext12, b: Ext12)
    ensures
        exp_neg_x_plain(mul12(a, b)) == mul12(exp_neg_x_plain(a), exp_neg_x_plain(b)),
{
    lemma_pow12_product(a, b, bn_x());
    lemma_conj12_mul(pow12(a, bn_x()), pow12(b, bn_x()));
}

/// The hard part of a product is the product of the hard parts.
proof fn lemma_hard_part_product(r: Ext12, s: Ext12)
    ensures
        hard_part(mul12(r, s), |a: Ext12| exp_neg_x_plain(a)) == mul12(
            hard_part(r, |a: Ext12| exp_neg_x_plain(a)),
            hard_part(s, |a: Ext12| exp_neg_x_plain(a)),
        ),
{
    let (y0, z0) = (exp_neg_x_plain(r), exp_neg_x_plain(s));
    lemma_exp_plain_product(r, s);
    let (y1, z1) = (sqr12(y0), sqr12(z0));
    lemma_sqr12_product(y0, z0);
    let (y2, z2) = (sqr12(y1), sqr12(z1));
    lemma_sqr12_product(y1, z1);
    let (y3, z3) = (mul12(y1, y2), mul12(z1, z2));
    lemma_mul12_medial(y1, z1, y2, z2);
    let (y4, z4) = (exp_neg_x_plain(y3), exp_neg_x_plain(z3));
    lemma_exp_plain_product(y3, z3);
    let (y5, z5) = (sqr12(y4), sqr12(z4));
    lemma_sqr12_product(y4, z4);
    let (y6, z6) = (exp_neg_x_plain(y5), exp_neg_x_plain(z5));
    lemma_exp_plain_product(y5, z5);
    let (y7, z7) = (conj12(y3), conj12(z3));
    lemma_conj12_mul(y3, z3);
    let (y8, z8) = (conj12(y6), conj12(z6));
    lemma_conj12_mul(y6, z6);
    let (y9, z9) = (mul12(y8, y4), mul12(z8, z4));
    lemma_mul12_medial(y8, z8, y4, z4);
    let (y10, z10) = (mul12(y9, y7), mul12(z9, z7));
    lemma_mul12_medial(y9, z9, y7, z7);
    let (y11, z11) = (mul12(y10, y1), mul12(z10, z1));
    lemma_mul12_medial(y10, z10, y1, z1);
    let (y12, z12) = (mul12(y10, y4), mul12(z10, z4));
    lemma_mul12_medial(y10, z10, y4, z4);
    let (y13, z13) = (mul12(y12, r), mul12(z12, s));
    lemma_mul12_medial(y12, z12, r, s);
    let (y14, z14) = (frob12(y11, 1), frob12(z11, 1));
    lemma_frob12_mul(y11, z11, 1);
    let (y15, z15) = (mul12(y14, y13), mul12(z14, z13));
    lemma_mul12_medial(y14, z14, y13, z13);
    let (y16, z16) = (frob12(y10, 2), frob12(z10, 2));
    lemma_frob12_mul(y10, z10, 2);
    let (y17, z17) = (mul12(y16, y15), mul12(z16, z15));
    lemma_mul12_medial(y16, z16, y15, z15);
    lemma_conj12_mul(r, s);
    let (y18, z18) = (mul12(conj12(r), y11), mul12(conj12(s), z11));
    lemma_mul12_medial(conj12(r), conj12(s), y11, z11);
    let (y19, z19) = (frob12(y18, 3), frob12(z18, 3));
    lemma_frob12_mul(y18, z18, 3);
    lemma_mul12_medial(y19, z19, y17, z17);
}

proof fn lemma_easy_part_product(f: Ext12, g: Ext12)
    requires
        invertible12(f),
        invertible12(g),
    ensures
        easy_part(mul12(f, g)) == mul12(easy_part(f), easy_part(g)),
{
    let (u, v) = (mul12(inv12(f), conj12(f)), mul12(inv12(g), conj12(g)));
    lemma_inverse_of_product(f, g);
    lemma_conj12_mul(f, g);
    lemma_mul12_medial(inv12(f), inv12(g), conj12(f), conj12(g));
    lemma_frob12_mul(u, v, 2);
    lemma_mul12_medial(frob12(u, 2), frob12(v, 2), u, v);
}

/// Nothing remains of a product with zero.
pub proof fn lemma_mul12_zero(a: Ext12)
    ensures
        mul12(a, zero12()) == zero12(),
        mul12(zero12(), a) == zero12(),
        reduced12(zero12()),
{
    lemma_mul12_commutes(a, zero12());
    lemma_constants();
    reveal(mul12);
    reveal(mul6);
    reveal(mul_v);
    reveal(add6);
    lemma_mul2_zero(a.c0.c0);
    lemma_mul2_zero(a.c0.c1);
    lemma_mul2_zero(a.c0.c2);
    lemma_mul2_zero(a.c1.c0);
    lemma_mul2_zero(a.c1.c1);
    lemma_mul2_zero(a.c1.c2);
    lemma_mul2_zero(xi());
    lemma_add2_zero(zero2());
}

/// An element has an inverse, or the computed one is zero.
proof fn lemma_invertible_or_zero(a: Ext12)
    requires
        reduced12(a),
    ensures
        invertible12(a) || inv12(a) == zero12(),
{
    lemma_inv12_or_zero(a);
}

/// Nothing remains of the hard part of zero.
proof fn lemma_hard_part_zero(e: spec_fn(Ext12) -> Ext12)
    ensures
        hard_part(zero12(), e) == zero12(),
{
    let z = zero12();
    let y0 = e(z);
    let y1 = sqr12(y0);
    let y2 = sqr12(y1);
    let y3 = mul12(y1, y2);
    let y4 = e(y3);
    let y5 = sqr12(y4);
    let y6 = e(y5);
    let y10 = mul12(mul12(conj12(y6), y4), conj12(y3));
    let y11 = mul12(y10, y1);
    let y12 = mul12(y10, y4);
    lemma_mul12_zero(y12);
    lemma_mul12_zero(frob12(y11, 1));
    lemma_mul12_zero(frob12(y10, 2));
    lemma_mul12_zero(frob12(mul12(conj12(z), y11), 3));
}

/// The final exponentiation of what has no inverse is zero.
pub proof fn lemma_final_exp_zero(f: Ext12)
    requires
        inv12(f) == zero12(),
    ensures
        final_exp(f) == zero12(),
        final_exp_plain(f) == zero12(),
{
    reveal(final_exp);
    reveal(final_exp_plain);
    let z = zero12();
    lemma_mul12_zero(conj12(f));
    lemma_mul12_zero(frob12(z, 2));
    assert(easy_part(f) == z);
    lemma_hard_part_zero(|a: Ext12| exp_neg_x(a));
    lemma_hard_part_zero(|a: Ext12| exp_neg_x_plain(a));
}

/// The final exponentiation with squarings of the cyclotomic subgroup is that
/// with plain squarings.
pub proof fn lemma_final_exp_agrees(f: Ext12)
    requires
        reduced12(f),
    ensures
        final_exp(f) == final_exp_plain(f),
{
    lemma_invertible_or_zero(f);
    if invertible12(f) {
        lemma_invertible_agrees(f);
    } else {
        lemma_final_exp_zero(f);
    }
}

/// The Frobenius maps leave one as it is.
proof fn lemma_frob12_one(k: nat)
    ensures
        frob12(one12(), k) == one12(),
{
    lemma_constants();
    reveal(frob12);
    reveal(frob6);
    reveal(frob2);
    reveal(scale6);
    lemma_fneg_neg(0);
    lemma_mul2_zero(frob6_c1(k));
    lemma_mul2_zero(frob6_c2(k));
    lemma_mul2_zero(frob12_c1(k));
}

proof fn lemma_pow12_one(n: nat)
    ensures
        pow12(one12(), n) == one12(),
    decreases n,
{
    lemma_maps_of_one();
    lemma_unit12(one12());
    if n > 0 {
        lemma_pow12_one(n / 2);
    }
}

/// The final exponentiation of one is one.
pub proof fn lemma_final_exp_one()
    ensures
        final_exp(one12()) == one12(),
{
    let o = one12();
    lemma_maps_of_one();
    lemma_unit12(o);
    lemma_invertible(o, o);
    lemma_final_exp_agrees(o);
    reveal(final_exp_plain);
    lemma_pow12_one(bn_x());
    lemma_frob12_one(1);
    lemma_frob12_one(2);
    lemma_frob12_one(3);
    assert(exp_neg_x_plain(o) == o);
}

/// The final exponentiation of what has an inverse has one.
pub proof fn lemma_final_exp_invertible(f: Ext12)
    requires
        invertible12(f),
    ensures
        invertible12(final_exp(f)),
{
    let g = inv12(f);
    lemma_mul12_commutes(f, g);
    lemma_invertible(g, f);
    lemma_final_exp_product(f, g);
    lemma_final_exp_one();
    lemma_final_exp_reduced(f);
    lemma_final_exp_reduced(g);
    lemma_invertible(final_exp(f), final_exp(g));
}

pub proof fn lemma_final_exp_reduced(f: Ext12)
    ensures
        reduced12(final_exp(f)),
{
    reveal(final_exp);
    let r = easy_part(f);
    let e = |a: Ext12| exp_neg_x(a);
    let y0 = e(r);
    let y1 = sqr12(y0);
    let y3 = mul12(y1, sqr12(y1));
    let y4 = e(y3);
    let y6 = e(sqr12(y4));
    let y10 = mul12(mul12(conj12(y6), y4), conj12(y3));
    let y11 = mul12(y10, y1);
    let y13 = mul12(mul12(y10, y4), r);
    let y17 = mul12(frob12(y10, 2), mul12(frob12(y11, 1), y13));
    lemma_reduced12(frob12(mul12(conj12(r), y11), 3), y17);
}

/// A product has no inverse where a factor has none.
pub proof fn lemma_no_inverse_of_product(a: Ext12, b: Ext12)
    requires
        reduced12(a),
        reduced12(b),
        !invertible12(a),
    ensures
        inv12(mul12(a, b)) == zero12(),
{
    let c = mul12(a, b);
    let d = inv12(c);
    lemma_reduced12(a, b);
    lemma_invertible_or_zero(c);
    if invertible12(c) {
        lemma_mul12_associates(a, b, d);
        lemma_reduced12(b, d);
        lemma_invertible(a, mul12(b, d));
    }
}

/// The final exponentiation of a product is the product of the final
/// exponentiations.
pub proof fn lemma_final_exp_product(f: Ext12, g: Ext12)
    requires
        reduced12(f),
        reduced12(g),
    ensures
        final_exp(mul12(f, g)) == mul12(final_exp(f), final_exp(g)),
{
    lemma_invertible_or_zero(f);
    lemma_invertible_or_zero(g);
    if invertible12(f) && invertible12(g) {
        lemma_invertible_agrees(f);
        lemma_invertible_agrees(g);
        lemma_inverse_of_product(f, g);
        lemma_invertible_agrees(mul12(f, g));
        reveal(final_exp_plain);
        lemma_easy_part_product(f, g);
        lemma_hard_part_product(easy_part(f), easy_part(g));
    } else {
        lemma_mul12_zero(final_exp(f));
        lemma_mul12_zero(final_exp(g));
        if !invertible12(f) {
            lemma_no_inverse_of_product(f, g);
            lemma_final_exp_zero(f);
        } else {
            lemma_mul12_commutes(f, g);
            lemma_no_inverse_of_product(g, f);
            lemma_final_exp_zero(g);
        }
        lemma_final_exp_zero(mul12(f, g));
    }
}

} // verus!
