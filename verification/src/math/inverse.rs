//! The computed inverses are inverses.

use crate::math::automorphism::{
    lemma_conj12_mul, lemma_frob2_ring, lemma_frob6_mul, lemma_neg6_is_multiple,
    lemma_neg_is_multiple, lemma_reduced12, lemma_reduced6, minus_one2,
};
use crate::math::field::{
    fadd, finv, fmul, fneg, is_inverse, lemma_constants, lemma_fadd_reduced, lemma_fadd_zero,
    lemma_finv_unique, lemma_fmul_reduced, lemma_fmul_zero, lemma_fneg_neg, lemma_fsub_reduced,
    modulus,
};
use crate::math::frobenius_constants::lemma_frobenius_constants;
use crate::math::prime_modulus::{lemma_field, lemma_no_zero_divisors};
use crate::math::residues::lemma_negative_square;
use crate::math::ring::{
    lemma_add2_associates, lemma_add2_commutes, lemma_alike, lemma_mul12_associates,
    lemma_mul12_commutes, lemma_mul12_medial, lemma_mul2_associates, lemma_mul2_commutes,
    lemma_mul2_distributes, lemma_mul2_medial, lemma_mul2_neg, lemma_mul6_associates,
    lemma_mul6_commutes, lemma_mul6_linear, lemma_mul6_medial, lemma_product_of_difference,
    lemma_stands_add, lemma_stands_add2, lemma_stands_mul, lemma_stands_mul2, lemma_stands_same,
    lemma_stands_same2, lemma_stands_sub, lemma_sub2, stands2,
};
use crate::math::tower::{
    add2, add6, conj12, ext12, ext2, ext6, frob2, frob6, frob6_c1, frob6_c2, inv12, inv2, inv6,
    lemma_add2_zero, lemma_mul2_one, lemma_mul2_zero, mul12, mul2, mul6, mul_v, mul_xi, neg2, neg6,
    norm2, one12, one2, one6, reduced12, reduced2, reduced6, scale6, sqr2, sub2, sub6, xi, zero12,
    zero2, zero6, Ext12, Ext2, Ext6,
};
use vstd::prelude::*;

verus! {

/// An element times its conjugate is its norm.
proof fn lemma_norm2(n: Ext2)
    ensures
        mul2(n, frob2(n, 1)) == ext2(norm2(n), 0),
        norm2(n) < modulus(),
{
    reveal(norm2);
    reveal(frob2);
    let (n0, n1) = (n.c0 as int, n.c1 as int);
    lemma_constants();
    lemma_stands_sub(0, 0, n.c1, n1);
    lemma_stands_mul2(n, n0, n1, frob2(n, 1), n0, -n1);
    lemma_stands_mul(n.c0, n0, n.c0, n0);
    lemma_stands_mul(n.c1, n1, n.c1, n1);
    lemma_stands_add(fmul(n.c0, n.c0), n0 * n0, fmul(n.c1, n.c1), n1 * n1);
    assert(n0 * n0 - n1 * -n1 == n0 * n0 + n1 * n1) by (nonlinear_arith);
    assert(n0 * -n1 + n1 * n0 == 0) by (nonlinear_arith);
    lemma_stands_same2(mul2(n, frob2(n, 1)), ext2(norm2(n), 0), n0 * n0 + n1 * n1, 0);
}

/// Base field elements multiply as such.
pub proof fn lemma_mul2_base(x: nat, y: nat)
    ensures
        mul2(ext2(x, 0), ext2(y, 0)) == ext2(fmul(x, y), 0),
{
    reveal(mul2);
    lemma_constants();
    lemma_fmul_zero(0);
    lemma_fmul_zero(x);
    lemma_fmul_zero(y);
    lemma_fadd_zero(0);
    assert(fmul(x, y) < modulus()) by {
        lemma_stands_mul(x, x as int, y, y as int);
    }
    lemma_fadd_zero(fmul(x, y));
}

/// An element of the quadratic extension that has an inverse times the computed
/// inverse is one.
pub proof fn lemma_inv2(n: Ext2, m: Ext2)
    requires
        mul2(n, m) == one2(),
    ensures
        mul2(n, inv2(n)) == one2(),
{
    reveal(inv2);
    let nn = norm2(n);
    let t = finv(nn);
    let (cn, cm) = (frob2(n, 1), frob2(m, 1));
    lemma_constants();
    lemma_norm2(n);
    lemma_norm2(m);
    lemma_mul2_medial(n, cn, m, cm);
    lemma_frob2_ring(n, m, 1);
    lemma_fneg_neg(0);
    assert(frob2(one2(), 1) == one2()) by {
        reveal(frob2);
    }
    lemma_mul2_one(one2());
    lemma_mul2_base(nn, norm2(m));
    assert(is_inverse(nn, norm2(m)));
    lemma_finv_unique(nn, norm2(m));
    // the computed inverse is the conjugate over the norm
    let (n0, n1, t0) = (n.c0 as int, n.c1 as int, t as int);
    assert(stands2(cn, n0, -n1)) by {
        reveal(frob2);
        lemma_stands_sub(0, 0, n.c1, n1);
    }
    lemma_stands_mul2(cn, n0, -n1, ext2(t, 0), t0, 0);
    lemma_stands_mul(n.c0, n0, t, t0);
    lemma_stands_mul(n.c1, n1, t, t0);
    lemma_stands_sub(0, 0, fmul(n.c1, t), n1 * t0);
    assert(n0 * t0 - -n1 * 0 == n0 * t0) by (nonlinear_arith);
    assert(n0 * 0 + -n1 * t0 == 0 - n1 * t0) by (nonlinear_arith);
    lemma_stands_same2(mul2(cn, ext2(t, 0)), inv2(n), n0 * t0, 0 - n1 * t0);
    lemma_mul2_associates(n, cn, ext2(t, 0));
    lemma_mul2_base(nn, t);
}

/// The norm of an element of the quadratic extension is zero only where the
/// element is, since minus one is no square.
proof fn lemma_norm2_zero(n: Ext2)
    requires
        reduced2(n),
        norm2(n) == 0,
    ensures
        n == zero2(),
{
    let (a, b) = (n.c0 as int, n.c1 as int);
    let (aa, bb) = (fmul(n.c0, n.c0), fmul(n.c1, n.c1));
    lemma_constants();
    reveal(norm2);
    lemma_stands_mul(n.c0, a, n.c0, a);
    lemma_stands_mul(n.c1, b, n.c1, b);
    lemma_stands_add(aa, a * a, bb, b * b);
    lemma_stands_sub(0, 0, bb, b * b);
    // aa is -bb
    lemma_alike(a * a + b * b, 0, b * b, b * b);
    lemma_stands_same(aa, fneg(bb), 0 - b * b);
    if n.c1 != 0 {
        lemma_negative_square(n.c1);
    } else {
        lemma_fmul_zero(0);
        lemma_fneg_neg(0);
        lemma_no_zero_divisors(n.c0, n.c0);
    }
}

/// Each element of the quadratic extension but zero has an inverse.
pub proof fn lemma_field2(n: Ext2)
    requires
        reduced2(n),
        n != zero2(),
    ensures
        reduced2(inv2(n)),
        mul2(n, inv2(n)) == one2(),
{
    let nn = norm2(n);
    let t = finv(nn);
    let cn = frob2(n, 1);
    assert(nn < modulus()) by {
        reveal(norm2);
        lemma_fadd_reduced(fmul(n.c0, n.c0), fmul(n.c1, n.c1));
    }
    if nn == 0 {
        lemma_norm2_zero(n);
    }
    lemma_field(nn);
    // n times the conjugate over the norm
    lemma_norm2(n);
    lemma_mul2_associates(n, cn, ext2(t, 0));
    lemma_mul2_base(nn, t);
    lemma_inv2(n, mul2(cn, ext2(t, 0)));
    assert(reduced2(inv2(n))) by {
        reveal(inv2);
        lemma_fmul_reduced(n.c0, t);
        lemma_fsub_reduced(0, fmul(n.c1, t));
    }
}

/// A product in the quadratic extension is zero only where a factor is.
pub proof fn lemma_no_zero_divisors2(a: Ext2, b: Ext2)
    requires
        reduced2(a),
        reduced2(b),
        mul2(a, b) == zero2(),
    ensures
        a == zero2() || b == zero2(),
{
    if a != zero2() {
        lemma_field2(a);
        // b = (a / a) b = (a b) / a
        lemma_mul2_commutes(a, inv2(a));
        lemma_mul2_associates(inv2(a), a, b);
        lemma_mul2_one(b);
        lemma_mul2_commutes(one2(), b);
        lemma_mul2_zero(inv2(a));
        lemma_mul2_commutes(inv2(a), zero2());
    }
}

/// One and zero in the sextic extension.
pub proof fn lemma_unit6(a: Ext6)
    requires
        reduced6(a),
    ensures
        mul6(a, one6()) == a,
        mul6(one6(), a) == a,
        mul6(a, zero6()) == zero6(),
        mul6(zero6(), a) == zero6(),
        add6(a, zero6()) == a,
        add6(zero6(), a) == a,
{
    lemma_mul6_commutes(a, one6());
    lemma_mul6_commutes(a, zero6());
    reveal(mul6);
    reveal(add6);
    lemma_constants();
    lemma_mul2_one(a.c0);
    lemma_mul2_one(a.c1);
    lemma_mul2_one(a.c2);
    lemma_mul2_zero(a.c0);
    lemma_mul2_zero(a.c1);
    lemma_mul2_zero(a.c2);
    lemma_mul2_zero(xi());
    lemma_add2_zero(zero2());
    lemma_add2_zero(a.c0);
    lemma_add2_zero(a.c1);
    lemma_add2_zero(a.c2);
}

/// One in the extension of degree twelve.
pub proof fn lemma_unit12(a: Ext12)
    requires
        reduced12(a),
    ensures
        mul12(a, one12()) == a,
        mul12(one12(), a) == a,
{
    lemma_mul12_commutes(a, one12());
    reveal(mul12);
    lemma_unit6(a.c0);
    lemma_unit6(a.c1);
    assert(mul_v(zero6()) == zero6()) by {
        reveal(mul_v);
        lemma_mul2_zero(xi());
    }
}

/// The adjugate: what times an element gives its norm.
pub open spec fn adjugate6(a: Ext6) -> Ext6 {
    ext6(
        sub2(sqr2(a.c0), mul_xi(mul2(a.c1, a.c2))),
        sub2(mul_xi(sqr2(a.c2)), mul2(a.c0, a.c1)),
        sub2(sqr2(a.c1), mul2(a.c0, a.c2)),
    )
}

pub open spec fn norm6(a: Ext6) -> Ext2 {
    let s = adjugate6(a);
    add2(mul2(a.c0, s.c0), mul_xi(add2(mul2(a.c2, s.c1), mul2(a.c1, s.c2))))
}

/// A product of three with the nonresidue, in any order.
proof fn lemma_three_factors(x: Ext2, y: Ext2, z: Ext2)
    ensures
        mul2(x, mul2(y, z)) == mul2(y, mul2(x, z)),
        mul2(x, mul_xi(mul2(y, z))) == mul_xi(mul2(x, mul2(y, z))),
{
    lemma_mul2_associates(x, y, z);
    lemma_mul2_commutes(x, y);
    lemma_mul2_associates(y, x, z);
    lemma_mul2_associates(x, mul2(y, z), xi());
}

/// Three differences that cancel.
proof fn lemma_six_terms(s: Ext2, t: Ext2, r: Ext2, a: Ext2, b: Ext2, c: Ext2)
    requires
        stands2(s, a.c0 - b.c0, a.c1 - b.c1),
        stands2(t, b.c0 - c.c0, b.c1 - c.c1),
        stands2(r, c.c0 - a.c0, c.c1 - a.c1),
    ensures
        add2(add2(s, t), r) == zero2(),
{
    lemma_constants();
    let (a0, a1, b0, b1) = (a.c0 as int, a.c1 as int, b.c0 as int, b.c1 as int);
    let (c0, c1) = (c.c0 as int, c.c1 as int);
    lemma_stands_add2(s, a0 - b0, a1 - b1, t, b0 - c0, b1 - c1);
    lemma_stands_add2(add2(s, t), a0 - c0, a1 - c1, r, c0 - a0, c1 - a1);
    lemma_stands_same2(add2(add2(s, t), r), zero2(), 0, 0);
}

/// A product with the nonresidue of a difference.
proof fn lemma_xi_difference(l: Ext2, x: Ext2, y: Ext2)
    ensures
        stands2(
            mul_xi(mul2(l, sub2(x, y))),
            mul_xi(mul2(l, x)).c0 - mul_xi(mul2(l, y)).c0,
            mul_xi(mul2(l, x)).c1 - mul_xi(mul2(l, y)).c1,
        ),
{
    lemma_mul2_commutes(mul2(l, sub2(x, y)), xi());
    lemma_mul2_associates(xi(), l, sub2(x, y));
    lemma_product_of_difference(mul2(xi(), l), x, y);
    lemma_mul2_associates(xi(), l, x);
    lemma_mul2_associates(xi(), l, y);
    lemma_mul2_commutes(mul2(l, x), xi());
    lemma_mul2_commutes(mul2(l, y), xi());
}

/// An element times its adjugate is its norm.
proof fn lemma_adjugate6(a: Ext6)
    ensures
        mul6(a, adjugate6(a)) == ext6(norm6(a), zero2(), zero2()),
{
    reveal(mul6);
    let s = adjugate6(a);
    let (a0, a1, a2) = (a.c0, a.c1, a.c2);
    lemma_add2_commutes(mul2(a1, s.c2), mul2(a2, s.c1));
    // second coefficient
    let u = mul2(a0, mul_xi(sqr2(a2)));
    let v = mul2(a0, mul2(a0, a1));
    let w = mul2(a1, mul_xi(mul2(a1, a2)));
    lemma_product_of_difference(a0, mul_xi(sqr2(a2)), mul2(a0, a1));
    lemma_product_of_difference(a1, sqr2(a0), mul_xi(mul2(a1, a2)));
    lemma_xi_difference(a2, sqr2(a1), mul2(a0, a2));
    lemma_three_factors(a1, a0, a0);
    lemma_mul2_commutes(a1, a0);
    lemma_three_factors(a2, a1, a1);
    lemma_mul2_commutes(a2, a1);
    lemma_three_factors(a1, a1, a2);
    lemma_three_factors(a2, a0, a2);
    lemma_three_factors(a0, a2, a2);
    lemma_six_terms(mul2(a0, s.c1), mul2(a1, s.c0), mul_xi(mul2(a2, s.c2)), u, v, w);
    // third coefficient
    let k = mul2(a0, sqr2(a1));
    let l = mul2(a0, mul2(a0, a2));
    let n = mul2(a1, mul_xi(sqr2(a2)));
    lemma_product_of_difference(a0, sqr2(a1), mul2(a0, a2));
    lemma_product_of_difference(a1, mul_xi(sqr2(a2)), mul2(a0, a1));
    lemma_product_of_difference(a2, sqr2(a0), mul_xi(mul2(a1, a2)));
    lemma_three_factors(a1, a0, a1);
    lemma_three_factors(a2, a0, a0);
    lemma_mul2_commutes(a2, a0);
    lemma_three_factors(a2, a1, a2);
    lemma_three_factors(a1, a2, a2);
    // k - l, n - k, l - n
    let (k0, k1, l0, l1) = (k.c0 as int, k.c1 as int, l.c0 as int, l.c1 as int);
    let (n0, n1) = (n.c0 as int, n.c1 as int);
    lemma_constants();
    lemma_stands_add2(mul2(a0, s.c2), k0 - l0, k1 - l1, mul2(a1, s.c1), n0 - k0, n1 - k1);
    lemma_stands_add2(
        add2(mul2(a0, s.c2), mul2(a1, s.c1)),
        n0 - l0,
        n1 - l1,
        mul2(a2, s.c0),
        l0 - n0,
        l1 - n1,
    );
    lemma_stands_same2(
        add2(add2(mul2(a0, s.c2), mul2(a1, s.c1)), mul2(a2, s.c0)),
        zero2(),
        0,
        0,
    );
}

/// The cube roots of unity.
pub proof fn lemma_cube_roots()
    ensures
        mul2(frob6_c1(2), frob6_c1(2)) == frob6_c2(2),
        mul2(frob6_c2(2), frob6_c2(2)) == frob6_c1(2),
        mul2(frob6_c1(2), frob6_c2(2)) == one2(),
        mul2(frob6_c2(2), frob6_c1(2)) == one2(),
        add2(frob6_c1(2), frob6_c2(2)) == minus_one2(),
        add2(frob6_c2(2), frob6_c1(2)) == minus_one2(),
        reduced2(frob6_c1(2)),
        reduced2(frob6_c2(2)),
{
    lemma_frobenius_constants(2);
    let (a, b) = (frob6_c1(2), frob6_c2(2));
    lemma_constants();
    assert(reduced2(a) && reduced2(b)) by {
        reveal(modulus);
    }
    assert(mul2(a, b) == one2()) by {
        crate::math::frobenius_constants::lemma_frob_cube_2();
    }
    lemma_mul2_commutes(a, b);
    // b b = b (a a) = (b a) a = a
    lemma_mul2_associates(b, a, a);
    lemma_mul2_one(a);
    assert(add2(a, b) == minus_one2()) by {
        reveal(add2);
        reveal(neg2);
        lemma_fneg_neg(1);
        lemma_fneg_neg(0);
        lemma_fadd_zero(0);
        reveal(fadd);
        reveal(modulus);
    }
    lemma_add2_commutes(a, b);
}

/// Two products with the same factors and different multipliers.
pub proof fn lemma_pair(x: Ext2, y: Ext2, a: Ext2, b: Ext2, c: Ext2, d: Ext2)
    ensures
        add2(mul2(mul2(x, a), mul2(y, b)), mul2(mul2(y, c), mul2(x, d))) == mul2(
            mul2(x, y),
            add2(mul2(a, b), mul2(c, d)),
        ),
{
    lemma_mul2_medial(x, a, y, b);
    lemma_mul2_medial(y, c, x, d);
    lemma_mul2_commutes(y, x);
    lemma_mul2_distributes(mul2(a, b), mul2(c, d), mul2(x, y));
}

/// The second power of the Frobenius map of the sextic extension, and its
/// square.
pub proof fn lemma_tau6(a: Ext6)
    ensures
        frob6(a, 2) == ext6(a.c0, mul2(a.c1, frob6_c1(2)), mul2(a.c2, frob6_c2(2))),
        frob6(frob6(a, 2), 2) == ext6(
            a.c0,
            mul2(a.c1, frob6_c2(2)),
            mul2(a.c2, frob6_c1(2)),
        ),
{
    reveal(frob6);
    reveal(frob2);
    lemma_cube_roots();
    lemma_mul2_associates(a.c1, frob6_c1(2), frob6_c1(2));
    lemma_mul2_associates(a.c2, frob6_c2(2), frob6_c2(2));
}

/// The adjugate is the product of the two other conjugates.
proof fn lemma_adjugate6_conjugates(a: Ext6)
    requires
        reduced6(a),
    ensures
        adjugate6(a) == mul6(frob6(a, 2), frob6(frob6(a, 2), 2)),
{
    lemma_tau6(a);
    lemma_cube_roots();
    lemma_constants();
    let (a0, a1, a2) = (a.c0, a.c1, a.c2);
    let (w, z) = (frob6_c1(2), frob6_c2(2));
    let one = one2();
    reveal(mul6);
    lemma_mul2_one(a0);
    lemma_mul2_one(w);
    lemma_mul2_one(z);
    // (a1 w)(a2 w) + (a2 z)(a1 z) = -a1 a2
    lemma_pair(a1, a2, w, w, z, z);
    lemma_neg_is_multiple(mul2(a1, a2));
    lemma_mul2_neg(mul2(a1, a2), xi());
    lemma_sub2(sqr2(a0), mul_xi(mul2(a1, a2)));
    // a0 (a1 z) + (a1 w) a0 = -a0 a1, and (a2 z)(a2 w) = a2^2
    lemma_pair(a0, a1, one, z, w, one);
    lemma_neg_is_multiple(mul2(a0, a1));
    lemma_mul2_medial(a2, z, a2, w);
    assert(reduced2(sqr2(a2)) && reduced2(sqr2(a1))) by {
        broadcast use crate::math::tower::group_reduced2;

    }
    lemma_mul2_one(sqr2(a2));
    lemma_sub2(mul_xi(sqr2(a2)), mul2(a0, a1));
    lemma_add2_commutes(neg2(mul2(a0, a1)), mul_xi(sqr2(a2)));
    // a0 (a2 w) + (a1 w)(a1 z) + (a2 z) a0 = a1^2 - a0 a2
    lemma_pair(a0, a2, one, w, z, one);
    lemma_neg_is_multiple(mul2(a0, a2));
    lemma_mul2_medial(a1, w, a1, z);
    lemma_mul2_one(sqr2(a1));
    lemma_sub2(sqr2(a1), mul2(a0, a2));
    let (p, q) = (mul2(a0, mul2(a2, w)), mul2(mul2(a2, z), a0));
    lemma_add2_commutes(p, sqr2(a1));
    lemma_add2_associates(sqr2(a1), p, q);
}

/// The norm as a product of conjugates.
spec fn conjugates6(a: Ext6) -> Ext6 {
    mul6(a, mul6(frob6(a, 2), frob6(frob6(a, 2), 2)))
}

proof fn lemma_conjugates6_mul(a: Ext6, b: Ext6)
    ensures
        conjugates6(mul6(a, b)) == mul6(conjugates6(a), conjugates6(b)),
{
    let (fa, fb) = (frob6(a, 2), frob6(b, 2));
    let (ga, gb) = (frob6(fa, 2), frob6(fb, 2));
    lemma_frob6_mul(a, b, 2);
    lemma_frob6_mul(fa, fb, 2);
    lemma_mul6_medial(fa, fb, ga, gb);
    lemma_mul6_medial(a, b, mul6(fa, ga), mul6(fb, gb));
}

/// An element of the sextic extension that has an inverse times the computed
/// inverse is one.
pub proof fn lemma_inv6(a: Ext6, b: Ext6)
    requires
        reduced6(a),
        reduced6(b),
        mul6(a, b) == one6(),
    ensures
        mul6(a, inv6(a)) == one6(),
{
    let (n, m) = (norm6(a), norm6(b));
    let s = adjugate6(a);
    let t = inv2(n);
    lemma_constants();
    lemma_adjugate6(a);
    lemma_adjugate6(b);
    lemma_adjugate6_conjugates(a);
    lemma_adjugate6_conjugates(b);
    lemma_conjugates6_mul(a, b);
    // the norm of one
    lemma_tau6(one6());
    lemma_cube_roots();
    lemma_mul2_zero(frob6_c1(2));
    lemma_mul2_zero(frob6_c2(2));
    lemma_unit6(one6());
    assert(conjugates6(one6()) == one6());
    let (e, f) = (ext6(n, zero2(), zero2()), ext6(m, zero2(), zero2()));
    assert(mul6(e, f) == one6());
    assert(mul2(n, m) == one2()) by {
        reveal(mul6);
        lemma_mul2_zero(zero2());
        lemma_mul2_zero(xi());
        lemma_add2_zero(zero2());
        broadcast use crate::math::tower::group_reduced2;

        lemma_add2_zero(mul2(n, m));
    }
    lemma_inv2(n, m);
    // the computed inverse is the adjugate over the norm
    assert(inv6(a) == scale6(s, t)) by {
        reveal(inv6);
        reveal(scale6);
        lemma_mul2_commutes(t, s.c0);
        lemma_mul2_commutes(t, s.c1);
        lemma_mul2_commutes(t, s.c2);
    }
    lemma_mul6_linear(a, s, s, t);
    assert(scale6(e, t) == one6()) by {
        reveal(scale6);
        lemma_mul2_zero(t);
    }
}

/// A difference is a sum with the negative.
proof fn lemma_sub6(a: Ext6, b: Ext6)
    ensures
        sub6(a, b) == add6(a, neg6(b)),
        add6(a, neg6(a)) == zero6(),
        add6(neg6(a), a) == zero6(),
{
    reveal(sub6);
    reveal(add6);
    reveal(neg6);
    lemma_sub2(a.c0, b.c0);
    lemma_sub2(a.c1, b.c1);
    lemma_sub2(a.c2, b.c2);
    lemma_sub2(a.c0, a.c0);
    lemma_sub2(a.c1, a.c1);
    lemma_sub2(a.c2, a.c2);
    lemma_add2_commutes(a.c0, neg2(a.c0));
    lemma_add2_commutes(a.c1, neg2(a.c1));
    lemma_add2_commutes(a.c2, neg2(a.c2));
}

/// A product with a negative.
proof fn lemma_mul6_neg(a: Ext6, b: Ext6)
    ensures
        mul6(a, neg6(b)) == neg6(mul6(a, b)),
        mul_v(neg6(b)) == neg6(mul_v(b)),
{
    lemma_neg6_is_multiple(b);
    lemma_neg6_is_multiple(mul6(a, b));
    lemma_neg6_is_multiple(mul_v(b));
    lemma_mul6_linear(a, b, b, minus_one2());
    crate::math::ring::lemma_mul_v_linear(b, b, minus_one2());
}

/// The norm to the sextic extension.
pub open spec fn norm12(a: Ext12) -> Ext6 {
    sub6(mul6(a.c0, a.c0), mul_v(mul6(a.c1, a.c1)))
}

/// An element times its conjugate is its norm.
pub proof fn lemma_norm12(a: Ext12)
    ensures
        mul12(a, conj12(a)) == ext12(norm12(a), zero6()),
        reduced6(norm12(a)),
{
    reveal(mul12);
    reveal(conj12);
    lemma_mul6_neg(a.c1, a.c1);
    lemma_mul6_neg(a.c0, a.c1);
    lemma_mul6_neg(a.c0, mul6(a.c1, a.c1));
    lemma_sub6(mul6(a.c0, a.c0), mul_v(mul6(a.c1, a.c1)));
    lemma_mul6_commutes(a.c1, a.c0);
    lemma_sub6(mul6(a.c0, a.c1), a.c0);
    lemma_reduced6(mul6(a.c0, a.c0), neg6(mul_v(mul6(a.c1, a.c1))), xi());
}

/// An inverse in the extension of degree twelve, where there is one, is the
/// computed one.
pub proof fn lemma_inv12(a: Ext12, b: Ext12)
    requires
        reduced12(a),
        reduced12(b),
        mul12(a, b) == one12(),
    ensures
        mul12(a, inv12(a)) == one12(),
        inv12(a) == b,
{
    let (n, m) = (norm12(a), norm12(b));
    lemma_constants();
    lemma_norm12(a);
    lemma_norm12(b);
    lemma_mul12_medial(a, conj12(a), b, conj12(b));
    lemma_conj12_mul(a, b);
    assert(conj12(one12()) == one12()) by {
        reveal(conj12);
        reveal(neg6);
        reveal(neg2);
        lemma_fneg_neg(0);
    }
    lemma_unit12(one12());
    assert(mul6(n, m) == one6()) by {
        assert(mul12(ext12(n, zero6()), ext12(m, zero6())) == one12());
        reveal(mul12);
        lemma_unit6(zero6());
        assert(mul_v(zero6()) == zero6()) by {
            reveal(mul_v);
            lemma_mul2_zero(xi());
        }
        lemma_reduced6(n, m, xi());
        lemma_unit6(mul6(n, m));
    }
    lemma_inv6(n, m);
    let t = inv6(n);
    let (x, y) = (mul6(a.c0, t), mul6(a.c1, t));
    assert(inv12(a) == ext12(x, neg6(y))) by {
        reveal(inv12);
    }
    assert(mul12(a, inv12(a)) == one12()) by {
        reveal(mul12);
        // a0 (a0 t) - v (a1 (a1 t)) = (a0^2 - v a1^2) t
        lemma_mul6_associates(a.c0, a.c0, t);
        lemma_mul6_associates(a.c1, a.c1, t);
        lemma_mul6_neg(a.c1, y);
        lemma_mul6_neg(a.c0, mul6(a.c1, y));
        let (p, q) = (mul6(a.c0, a.c0), mul6(a.c1, a.c1));
        lemma_sub6(p, mul_v(q));
        lemma_mul6_commutes(p, t);
        lemma_mul6_commutes(q, t);
        lemma_mul6_commutes(n, t);
        lemma_mul6_linear(t, p, neg6(mul_v(q)), xi());
        lemma_mul6_linear(t, q, q, xi());
        lemma_mul6_neg(t, mul_v(q));
        // a0 (-(a1 t)) + a1 (a0 t) = 0
        lemma_mul6_neg(a.c0, y);
        lemma_mul6_associates(a.c0, a.c1, t);
        lemma_mul6_associates(a.c1, a.c0, t);
        lemma_mul6_commutes(a.c0, a.c1);
        lemma_sub6(mul6(a.c0, y), a.c0);
    }
    // and an inverse is the only one
    let c = inv12(a);
    assert(reduced12(c)) by {
        lemma_reduced6(a.c0, t, xi());
        lemma_reduced6(y, t, xi());
    }
    lemma_unit12(c);
    lemma_unit12(b);
    lemma_mul12_associates(c, a, b);
    lemma_mul12_commutes(c, a);
}

/// Elements of the quadratic extension multiply as such in the sextic one.
proof fn lemma_mul6_base(x: Ext2, y: Ext2)
    ensures
        mul6(ext6(x, zero2(), zero2()), ext6(y, zero2(), zero2())) == ext6(
            mul2(x, y),
            zero2(),
            zero2(),
        ),
{
    reveal(mul6);
    lemma_constants();
    lemma_mul2_zero(x);
    lemma_mul2_zero(y);
    lemma_mul2_zero(zero2());
    lemma_mul2_zero(xi());
    lemma_add2_zero(zero2());
    assert(reduced2(mul2(x, y))) by {
        lemma_stands_mul2(
            x,
            x.c0 as int,
            x.c1 as int,
            y,
            y.c0 as int,
            y.c1 as int,
        );
    }
    lemma_add2_zero(mul2(x, y));
}

/// Elements of the sextic extension multiply as such in that of degree twelve.
proof fn lemma_mul12_base(x: Ext6, y: Ext6)
    requires
        reduced6(x),
        reduced6(y),
    ensures
        mul12(ext12(x, zero6()), ext12(y, zero6())) == ext12(mul6(x, y), zero6()),
{
    reveal(mul12);
    lemma_constants();
    lemma_unit6(x);
    lemma_unit6(y);
    lemma_unit6(zero6());
    assert(mul_v(zero6()) == zero6()) by {
        reveal(mul_v);
        lemma_mul2_zero(xi());
    }
    lemma_reduced6(x, y, xi());
    lemma_unit6(mul6(x, y));
}

/// The computed inverse is an inverse, or it is zero.
pub proof fn lemma_inv12_or_zero(a: Ext12)
    requires
        reduced12(a),
    ensures
        inv12(a) == zero12() || (reduced12(inv12(a)) && mul12(a, inv12(a)) == one12()),
{
    let n = norm12(a);
    let s = adjugate6(n);
    let k = norm6(n);
    let nn = norm2(k);
    let w = finv(nn);
    lemma_constants();
    lemma_norm12(a);
    lemma_norm2(k);
    if exists|v: nat| is_inverse(nn, v) {
        assert(is_inverse(nn, w)) by {
            reveal(finv);
        }
        // an inverse of each norm, one from the other
        let m = mul2(frob2(k, 1), ext2(w, 0));
        lemma_mul2_associates(k, frob2(k, 1), ext2(w, 0));
        lemma_mul2_base(nn, w);
        assert(mul2(k, m) == one2());
        let e = ext6(m, zero2(), zero2());
        let b = mul6(s, e);
        lemma_adjugate6(n);
        lemma_mul6_associates(n, s, e);
        lemma_mul6_base(k, m);
        assert(mul6(n, b) == one6());
        lemma_reduced6(s, e, xi());
        let f = ext12(b, zero6());
        let c = mul12(conj12(a), f);
        lemma_mul12_associates(a, conj12(a), f);
        lemma_mul12_base(n, b);
        assert(mul12(a, c) == one12());
        lemma_reduced12(conj12(a), f);
        lemma_inv12(a, c);
    } else {
        assert(w == 0) by {
            reveal(finv);
        }
        reveal(inv2);
        reveal(inv6);
        reveal(inv12);
        reveal(neg6);
        reveal(neg2);
        lemma_fmul_zero(k.c0);
        lemma_fmul_zero(k.c1);
        lemma_fneg_neg(0);
        assert(inv2(k) == zero2());
        lemma_mul2_zero(s.c0);
        lemma_mul2_zero(s.c1);
        lemma_mul2_zero(s.c2);
        assert(inv6(n) == zero6());
        lemma_mul6_zero(a.c0);
        lemma_mul6_zero(a.c1);
    }
}

proof fn lemma_mul6_zero(a: Ext6)
    ensures
        mul6(a, zero6()) == zero6(),
{
    reveal(mul6);
    lemma_constants();
    lemma_mul2_zero(a.c0);
    lemma_mul2_zero(a.c1);
    lemma_mul2_zero(a.c2);
    lemma_mul2_zero(xi());
    lemma_add2_zero(zero2());
}

} // verus!
