//! The cyclotomic subgroup, its squarings, and powers.

use crate::math::automorphism::{
    lemma_conj12_mul, lemma_frob12_mul, lemma_neg_is_multiple, lemma_reduced12, minus_one2,
};
use crate::math::field::{lemma_constants, lemma_fneg_neg, modulus};
use crate::math::frobenius_constants::{
    lemma_frobenius_constants, lemma_root_product_1, lemma_root_product_2, lemma_root_sum,
};
use crate::math::inverse::{lemma_cube_roots, lemma_inv12, lemma_pair, lemma_tau6, lemma_unit12};
use crate::math::ring::{
    lemma_add2_associates, lemma_add2_commutes, lemma_add2_medial, lemma_mul12_medial,
    lemma_mul2_associates, lemma_mul2_commutes, lemma_mul2_distributes, lemma_mul2_medial,
    lemma_mul2_neg, lemma_stands_add2, lemma_stands_neg2, lemma_stands_same2, lemma_stands_sub2,
};
use crate::math::tower::{
    add2, add6, conj12, cyclotomic_sqr12, dbl2, ext12, ext6, frob12, frob12_c1, frob6_c1, frob6_c2,
    inv12, lemma_mul2_one, lemma_mul2_zero, mul12, mul2, mul6, mul_v, mul_xi, neg2, neg6, one12,
    one2, quartic1, reduced12, reduced2, scale6, sqr12, sqr2, sub2, three_minus_two, three_plus_two,
    xi, Ext12, Ext2,
};
use vstd::prelude::*;

verus! {

/// Whether an element is in the cyclotomic subgroup: the product of its images
/// under the second power of the Frobenius map and its inverse is the element.
pub open spec fn is_cyclotomic(x: Ext12) -> bool {
    reduced12(x) && mul12(frob12(x, 2), conj12(frob12(frob12(x, 2), 2))) == x
}

/// The last of the sixth roots of unity.
spec fn root5() -> Ext2 {
    mul2(frob6_c2(2), frob12_c1(2))
}

/// The sixth roots of unity by their products and sums.
proof fn lemma_sixth_roots()
    ensures
        ({
            let (z, a, m, b, y) = (
                frob12_c1(2),
                frob6_c1(2),
                minus_one2(),
                frob6_c2(2),
                root5(),
            );
            &&& mul2(z, z) == a
            &&& mul2(a, a) == b
            &&& mul2(b, b) == a
            &&& mul2(a, b) == one2()
            &&& mul2(b, a) == one2()
            &&& mul2(m, m) == one2()
            &&& mul2(a, z) == m
            &&& mul2(z, a) == m
            &&& mul2(b, z) == y
            &&& mul2(z, b) == y
            &&& mul2(m, z) == b
            &&& mul2(z, m) == b
            &&& mul2(m, a) == y
            &&& mul2(a, m) == y
            &&& mul2(m, b) == z
            &&& mul2(b, m) == z
            &&& mul2(m, y) == a
            &&& mul2(y, m) == a
            &&& mul2(a, y) == z
            &&& mul2(y, a) == z
            &&& mul2(b, y) == m
            &&& mul2(y, b) == m
            &&& mul2(z, y) == one2()
            &&& mul2(y, z) == one2()
            &&& mul2(y, y) == b
            &&& add2(a, b) == m
            &&& add2(b, a) == m
            &&& add2(z, y) == one2()
            &&& add2(y, z) == one2()
            &&& reduced2(z)
            &&& reduced2(a)
            &&& reduced2(m)
            &&& reduced2(b)
            &&& reduced2(y)
        }),
{
    broadcast use crate::math::tower::group_reduced2;

    let (z, a, m, b, y) = (frob12_c1(2), frob6_c1(2), minus_one2(), frob6_c2(2), root5());
    lemma_constants();
    lemma_frobenius_constants(2);
    lemma_cube_roots();
    lemma_neg_is_multiple(one2());
    lemma_root_product_1();
    lemma_root_product_2();
    lemma_root_sum();
    assert(reduced2(z)) by {
        reveal(modulus);
    }
    assert(mul2(a, z) == m) by {
        reveal(neg2);
        lemma_fneg_neg(1);
        lemma_fneg_neg(0);
        reveal(modulus);
    }
    lemma_mul2_one(z);
    lemma_mul2_commutes(a, z);
    lemma_mul2_commutes(b, z);
    // m z = (a z) z = a (z z)
    lemma_mul2_associates(a, z, z);
    lemma_mul2_commutes(m, z);
    // m a = (z a) a = z (a a)
    lemma_mul2_associates(z, a, a);
    lemma_mul2_commutes(m, a);
    // m b = (z a) b = z (a b)
    lemma_mul2_associates(z, a, b);
    lemma_mul2_commutes(m, b);
    // m y = (m b) z
    lemma_mul2_associates(m, b, z);
    lemma_mul2_commutes(m, y);
    // a y = (a b) z, b y = (b b) z
    lemma_mul2_associates(a, b, z);
    lemma_mul2_commutes(a, y);
    lemma_mul2_associates(b, b, z);
    lemma_mul2_commutes(b, y);
    // z y = (z z) b
    lemma_mul2_associates(z, z, b);
    lemma_mul2_commutes(z, y);
    // y y = (y b) z
    lemma_mul2_associates(y, b, z);
    lemma_add2_commutes(z, y);
}

/// The second power of the Frobenius map by coefficients, and the conjugate of
/// its square.
proof fn lemma_sigma(x: Ext12)
    requires
        reduced12(x),
    ensures
        ({
            let (z, a, m, b, y) = (
                frob12_c1(2),
                frob6_c1(2),
                minus_one2(),
                frob6_c2(2),
                root5(),
            );
            let (c, d) = (x.c0, x.c1);
            &&& frob12(x, 2) == ext12(
                ext6(c.c0, mul2(c.c1, a), mul2(c.c2, b)),
                ext6(mul2(d.c0, z), mul2(d.c1, m), mul2(d.c2, y)),
            )
            &&& conj12(frob12(frob12(x, 2), 2)) == ext12(
                ext6(c.c0, mul2(c.c1, b), mul2(c.c2, a)),
                ext6(mul2(d.c0, y), mul2(d.c1, m), mul2(d.c2, z)),
            )
            &&& frob12(frob12(frob12(x, 2), 2), 2) == conj12(x)
        }),
{
    let (z, a, m, b, y) = (frob12_c1(2), frob6_c1(2), minus_one2(), frob6_c2(2), root5());
    let (c, d) = (x.c0, x.c1);
    lemma_sixth_roots();
    lemma_constants();
    reveal(frob12);
    reveal(scale6);
    lemma_tau6(c);
    lemma_tau6(d);
    lemma_mul2_associates(d.c1, a, z);
    lemma_mul2_associates(d.c2, b, z);
    let s = frob12(x, 2);
    // the square
    lemma_tau6(s.c0);
    lemma_tau6(s.c1);
    lemma_mul2_associates(c.c1, a, a);
    lemma_mul2_associates(c.c2, b, b);
    lemma_mul2_associates(d.c0, z, z);
    lemma_mul2_associates(mul2(d.c1, m), a, z);
    lemma_mul2_associates(d.c1, m, m);
    lemma_mul2_one(d.c1);
    lemma_mul2_associates(mul2(d.c2, y), b, z);
    lemma_mul2_associates(d.c2, y, y);
    let t = frob12(s, 2);
    assert(t == ext12(
        ext6(c.c0, mul2(c.c1, b), mul2(c.c2, a)),
        ext6(mul2(d.c0, a), d.c1, mul2(d.c2, b)),
    ));
    // its conjugate
    reveal(conj12);
    reveal(neg6);
    lemma_neg_is_multiple(mul2(d.c0, a));
    lemma_neg_is_multiple(d.c1);
    lemma_neg_is_multiple(mul2(d.c2, b));
    lemma_mul2_associates(d.c0, a, m);
    lemma_mul2_associates(d.c2, b, m);
    // the cube
    lemma_tau6(t.c0);
    lemma_tau6(t.c1);
    lemma_mul2_associates(c.c1, b, a);
    lemma_mul2_associates(c.c2, a, b);
    lemma_mul2_one(c.c1);
    lemma_mul2_one(c.c2);
    lemma_mul2_associates(d.c0, a, z);
    lemma_mul2_associates(mul2(d.c2, b), b, z);
    lemma_mul2_associates(d.c2, b, y);
    lemma_neg_is_multiple(d.c0);
    lemma_neg_is_multiple(d.c2);
}

/// The terms of one coefficient of a product, by pairs.
proof fn lemma_terms0(s: Ext2, l24: Ext2, l42: Ext2, l15: Ext2, l33: Ext2, l51: Ext2)
    ensures
        add2(add2(s, mul_xi(add2(l24, l42))), mul_xi(add2(add2(l15, l33), l51))) == add2(
            add2(s, mul_xi(l33)),
            add2(mul_xi(add2(l24, l42)), mul_xi(add2(l15, l51))),
        ),
{
    lemma_add2_commutes(l15, l33);
    lemma_add2_associates(l33, l15, l51);
    lemma_mul2_distributes(l33, add2(l15, l51), xi());
    lemma_add2_medial(s, mul_xi(add2(l24, l42)), mul_xi(l33), mul_xi(add2(l15, l51)));
}

proof fn lemma_terms2(l02: Ext2, l20: Ext2, l44: Ext2, l11: Ext2, l35: Ext2, l53: Ext2)
    ensures
        add2(add2(add2(l02, l20), mul_xi(l44)), add2(l11, mul_xi(add2(l35, l53)))) == add2(
            add2(l11, mul_xi(l44)),
            add2(add2(l02, l20), mul_xi(add2(l35, l53))),
        ),
{
    let (m, n) = (add2(l02, l20), mul_xi(add2(l35, l53)));
    lemma_add2_commutes(m, mul_xi(l44));
    lemma_add2_medial(mul_xi(l44), m, l11, n);
    lemma_add2_commutes(mul_xi(l44), l11);
}

proof fn lemma_terms4(l04: Ext2, l22: Ext2, l40: Ext2, l13: Ext2, l31: Ext2, l55: Ext2)
    ensures
        add2(add2(add2(l04, l22), l40), add2(add2(l13, l31), mul_xi(l55))) == add2(
            add2(l22, mul_xi(l55)),
            add2(add2(l04, l40), add2(l13, l31)),
        ),
{
    let (m, n) = (add2(l04, l40), add2(l13, l31));
    lemma_add2_commutes(l04, l22);
    lemma_add2_associates(l22, l04, l40);
    lemma_add2_commutes(n, mul_xi(l55));
    lemma_add2_medial(l22, m, mul_xi(l55), n);
}

proof fn lemma_terms1(l01: Ext2, l25: Ext2, l43: Ext2, l10: Ext2, l34: Ext2, l52: Ext2)
    ensures
        add2(add2(l01, mul_xi(add2(l25, l43))), add2(l10, mul_xi(add2(l34, l52)))) == add2(
            add2(add2(l01, l10), mul_xi(add2(l43, l34))),
            mul_xi(add2(l25, l52)),
        ),
{
    let (a, b) = (add2(l25, l43), add2(l34, l52));
    let (m, n) = (add2(l25, l52), add2(l43, l34));
    lemma_add2_medial(l01, mul_xi(a), l10, mul_xi(b));
    lemma_mul2_distributes(a, b, xi());
    lemma_add2_commutes(l34, l52);
    lemma_add2_medial(l25, l43, l52, l34);
    lemma_mul2_distributes(m, n, xi());
    lemma_add2_commutes(mul_xi(m), mul_xi(n));
    lemma_add2_associates(add2(l01, l10), mul_xi(n), mul_xi(m));
}

proof fn lemma_terms3(l03: Ext2, l21: Ext2, l45: Ext2, l12: Ext2, l30: Ext2, l54: Ext2)
    ensures
        add2(add2(add2(l03, l21), mul_xi(l45)), add2(add2(l12, l30), mul_xi(l54))) == add2(
            add2(add2(l21, l12), mul_xi(add2(l45, l54))),
            add2(l03, l30),
        ),
{
    let (a, b) = (add2(l03, l21), add2(l12, l30));
    let (m, n) = (add2(l21, l12), add2(l03, l30));
    let k = mul_xi(add2(l45, l54));
    lemma_add2_medial(a, mul_xi(l45), b, mul_xi(l54));
    lemma_mul2_distributes(l45, l54, xi());
    lemma_add2_commutes(l12, l30);
    lemma_add2_medial(l03, l21, l30, l12);
    lemma_add2_commutes(n, m);
    lemma_add2_associates(m, n, k);
    lemma_add2_commutes(n, k);
    lemma_add2_associates(m, k, n);
}

proof fn lemma_terms5(l05: Ext2, l23: Ext2, l41: Ext2, l14: Ext2, l32: Ext2, l50: Ext2)
    ensures
        add2(add2(add2(l05, l23), l41), add2(add2(l14, l32), l50)) == add2(
            add2(add2(l05, l50), add2(l23, l32)),
            add2(l41, l14),
        ),
{
    let a = add2(l05, l23);
    let c = add2(l50, l32);
    lemma_add2_commutes(l14, l32);
    lemma_add2_associates(l32, l14, l50);
    lemma_add2_commutes(l14, l50);
    lemma_add2_associates(l32, l50, l14);
    lemma_add2_commutes(l32, l50);
    lemma_add2_medial(a, l41, c, l14);
    lemma_add2_medial(l05, l23, l50, l32);
}

/// A pair of products whose multipliers add up to minus one.
proof fn lemma_pair_minus(x: Ext2, y: Ext2, a: Ext2, b: Ext2, c: Ext2, d: Ext2)
    requires
        add2(mul2(a, b), mul2(c, d)) == minus_one2(),
    ensures
        add2(mul2(mul2(x, a), mul2(y, b)), mul2(mul2(y, c), mul2(x, d))) == neg2(mul2(x, y)),
{
    lemma_pair(x, y, a, b, c, d);
    lemma_neg_is_multiple(mul2(x, y));
}

/// A pair of products whose multipliers add up to one.
proof fn lemma_pair_one(x: Ext2, y: Ext2, a: Ext2, b: Ext2, c: Ext2, d: Ext2)
    requires
        add2(mul2(a, b), mul2(c, d)) == one2(),
    ensures
        add2(mul2(mul2(x, a), mul2(y, b)), mul2(mul2(y, c), mul2(x, d))) == mul2(x, y),
{
    broadcast use crate::math::tower::group_reduced2;

    lemma_pair(x, y, a, b, c, d);
    lemma_mul2_one(mul2(x, y));
}

/// A pair of products whose multipliers are both minus one.
proof fn lemma_pair_two(x: Ext2, y: Ext2, a: Ext2, b: Ext2, c: Ext2, d: Ext2)
    requires
        mul2(a, b) == minus_one2(),
        mul2(c, d) == minus_one2(),
    ensures
        add2(mul2(mul2(x, a), mul2(y, b)), mul2(mul2(y, c), mul2(x, d))) == neg2(
            dbl2(mul2(x, y)),
        ),
{
    let p = mul2(x, y);
    lemma_mul2_medial(x, a, y, b);
    lemma_mul2_medial(y, c, x, d);
    lemma_mul2_commutes(y, x);
    lemma_neg_is_multiple(p);
    lemma_neg_is_multiple(dbl2(p));
    lemma_mul2_distributes(p, p, minus_one2());
}

/// A product of equal factors whose multipliers are inverse.
proof fn lemma_equal_pair(x: Ext2, a: Ext2, b: Ext2)
    requires
        mul2(a, b) == one2(),
    ensures
        mul2(mul2(x, a), mul2(x, b)) == sqr2(x),
{
    broadcast use crate::math::tower::group_reduced2;

    lemma_mul2_medial(x, a, x, b);
    lemma_mul2_one(sqr2(x));
}

/// The squaring of an even coefficient.
proof fn lemma_even(x: Ext2, a: Ext2, c: Ext2, b: Ext2, d: Ext2, sq: Ext2)
    requires
        x == add2(add2(a, c), add2(neg2(b), neg2(d))),
        sq == add2(add2(a, c), add2(dbl2(b), dbl2(d))),
    ensures
        sq == three_minus_two(add2(a, c), x),
{
    let (a0, a1, b0, b1) = (a.c0 as int, a.c1 as int, b.c0 as int, b.c1 as int);
    let (c0, c1, d0, d1) = (c.c0 as int, c.c1 as int, d.c0 as int, d.c1 as int);
    let t = add2(a, c);
    lemma_stands_add2(a, a0, a1, c, c0, c1);
    lemma_stands_neg2(b, b0, b1);
    lemma_stands_neg2(d, d0, d1);
    lemma_stands_add2(neg2(b), -b0, -b1, neg2(d), -d0, -d1);
    lemma_stands_add2(t, a0 + c0, a1 + c1, add2(neg2(b), neg2(d)), -b0 - d0, -b1 - d1);
    lemma_stands_add2(b, b0, b1, b, b0, b1);
    lemma_stands_add2(d, d0, d1, d, d0, d1);
    lemma_stands_add2(dbl2(b), b0 + b0, b1 + b1, dbl2(d), d0 + d0, d1 + d1);
    lemma_stands_add2(
        t,
        a0 + c0,
        a1 + c1,
        add2(dbl2(b), dbl2(d)),
        b0 + b0 + (d0 + d0),
        b1 + b1 + (d1 + d1),
    );
    let (x0, x1) = (a0 + c0 + (-b0 - d0), a1 + c1 + (-b1 - d1));
    let u = sub2(t, x);
    lemma_stands_sub2(t, a0 + c0, a1 + c1, x, x0, x1);
    lemma_stands_add2(u, b0 + d0, b1 + d1, u, b0 + d0, b1 + d1);
    lemma_stands_add2(
        dbl2(u),
        b0 + d0 + (b0 + d0),
        b1 + d1 + (b1 + d1),
        t,
        a0 + c0,
        a1 + c1,
    );
    lemma_stands_same2(
        sq,
        three_minus_two(t, x),
        a0 + c0 + 2 * b0 + 2 * d0,
        a1 + c1 + 2 * b1 + 2 * d1,
    );
}

/// The squaring of an odd coefficient.
proof fn lemma_odd(x: Ext2, p: Ext2, q: Ext2, r: Ext2, sq: Ext2)
    requires
        x == add2(add2(p, q), neg2(dbl2(r))),
        sq == add2(add2(dbl2(p), dbl2(q)), dbl2(r)),
    ensures
        sq == three_plus_two(dbl2(r), x),
{
    let (p0, p1, q0, q1) = (p.c0 as int, p.c1 as int, q.c0 as int, q.c1 as int);
    let (r0, r1) = (r.c0 as int, r.c1 as int);
    let t = dbl2(r);
    lemma_stands_add2(p, p0, p1, q, q0, q1);
    lemma_stands_add2(r, r0, r1, r, r0, r1);
    lemma_stands_neg2(t, r0 + r0, r1 + r1);
    lemma_stands_add2(add2(p, q), p0 + q0, p1 + q1, neg2(t), -(r0 + r0), -(r1 + r1));
    lemma_stands_add2(p, p0, p1, p, p0, p1);
    lemma_stands_add2(q, q0, q1, q, q0, q1);
    lemma_stands_add2(dbl2(p), p0 + p0, p1 + p1, dbl2(q), q0 + q0, q1 + q1);
    lemma_stands_add2(
        add2(dbl2(p), dbl2(q)),
        p0 + p0 + (q0 + q0),
        p1 + p1 + (q1 + q1),
        t,
        r0 + r0,
        r1 + r1,
    );
    let (x0, x1) = (p0 + q0 - (r0 + r0), p1 + q1 - (r1 + r1));
    let u = add2(t, x);
    lemma_stands_add2(t, r0 + r0, r1 + r1, x, x0, x1);
    lemma_stands_add2(u, p0 + q0, p1 + q1, u, p0 + q0, p1 + q1);
    lemma_stands_add2(
        dbl2(u),
        p0 + q0 + (p0 + q0),
        p1 + q1 + (p1 + q1),
        t,
        r0 + r0,
        r1 + r1,
    );
    lemma_stands_same2(
        sq,
        three_plus_two(t, x),
        2 * p0 + 2 * q0 + 2 * r0,
        2 * p1 + 2 * q1 + 2 * r1,
    );
}

/// Products with the nonresidue of doubles and negatives.
proof fn lemma_xi_multiples(p: Ext2)
    ensures
        mul_xi(dbl2(p)) == dbl2(mul_xi(p)),
        mul_xi(neg2(p)) == neg2(mul_xi(p)),
{
    lemma_mul2_distributes(p, p, xi());
    lemma_mul2_neg(p, xi());
}

/// In the cyclotomic subgroup the squaring of Granger and Scott is squaring.
#[verifier::rlimit(40)]
pub proof fn lemma_cyclotomic_square(x: Ext12)
    requires
        is_cyclotomic(x),
    ensures
        cyclotomic_sqr12(x) == sqr12(x),
{
    let (z, a, m, b, y) = (frob12_c1(2), frob6_c1(2), minus_one2(), frob6_c2(2), root5());
    let one = one2();
    let (x0, x2, x4) = (x.c0.c0, x.c0.c1, x.c0.c2);
    let (x1, x3, x5) = (x.c1.c0, x.c1.c1, x.c1.c2);
    let s = frob12(x, 2);
    let t = conj12(frob12(s, 2));
    let sq = sqr12(x);
    lemma_constants();
    lemma_sixth_roots();
    lemma_sigma(x);
    lemma_mul2_one(x0);
    assert(x == mul12(s, t));
    // the coefficients of both products
    assert(sq.c0.c0 == add2(
        add2(mul2(x0, x0), mul_xi(add2(mul2(x2, x4), mul2(x4, x2)))),
        mul_xi(add2(add2(mul2(x1, x5), mul2(x3, x3)), mul2(x5, x1))),
    ) && x0 == add2(
        add2(
            mul2(x0, x0),
            mul_xi(add2(mul2(mul2(x2, a), mul2(x4, a)), mul2(mul2(x4, b), mul2(x2, b)))),
        ),
        mul_xi(
            add2(
                add2(mul2(mul2(x1, z), mul2(x5, z)), mul2(mul2(x3, m), mul2(x3, m))),
                mul2(mul2(x5, y), mul2(x1, y)),
            ),
        ),
    )) by {
        reveal(mul12);
        reveal(add6);
        reveal(mul6);
        reveal(mul_v);
    }
    lemma_mul2_commutes(x4, x2);
    lemma_mul2_commutes(x5, x1);
    lemma_terms0(
        mul2(x0, x0),
        mul2(x2, x4),
        mul2(x4, x2),
        mul2(x1, x5),
        mul2(x3, x3),
        mul2(x5, x1),
    );
    lemma_terms0(
        mul2(x0, x0),
        mul2(mul2(x2, a), mul2(x4, a)),
        mul2(mul2(x4, b), mul2(x2, b)),
        mul2(mul2(x1, z), mul2(x5, z)),
        mul2(mul2(x3, m), mul2(x3, m)),
        mul2(mul2(x5, y), mul2(x1, y)),
    );
    lemma_pair_minus(x2, x4, a, a, b, b);
    lemma_pair_minus(x1, x5, z, z, y, y);
    lemma_equal_pair(x3, m, m);
    lemma_xi_multiples(mul2(x2, x4));
    lemma_xi_multiples(mul2(x1, x5));
    lemma_even(
        x0,
        sqr2(x0),
        mul_xi(sqr2(x3)),
        mul_xi(mul2(x2, x4)),
        mul_xi(mul2(x1, x5)),
        sq.c0.c0,
    );
    assert(sq.c0.c1 == add2(
        add2(add2(mul2(x0, x2), mul2(x2, x0)), mul_xi(mul2(x4, x4))),
        add2(mul2(x1, x1), mul_xi(add2(mul2(x3, x5), mul2(x5, x3)))),
    ) && x2 == add2(
        add2(
            add2(mul2(x0, mul2(x2, b)), mul2(mul2(x2, a), x0)),
            mul_xi(mul2(mul2(x4, b), mul2(x4, a))),
        ),
        add2(
            mul2(mul2(x1, z), mul2(x1, y)),
            mul_xi(add2(mul2(mul2(x3, m), mul2(x5, z)), mul2(mul2(x5, y), mul2(x3, m)))),
        ),
    )) by {
        reveal(mul12);
        reveal(add6);
        reveal(mul6);
        reveal(mul_v);
    }
    lemma_mul2_commutes(x2, x0);
    lemma_mul2_commutes(x5, x3);
    lemma_terms2(
        mul2(x0, x2),
        mul2(x2, x0),
        mul2(x4, x4),
        mul2(x1, x1),
        mul2(x3, x5),
        mul2(x5, x3),
    );
    lemma_terms2(
        mul2(x0, mul2(x2, b)),
        mul2(mul2(x2, a), x0),
        mul2(mul2(x4, b), mul2(x4, a)),
        mul2(mul2(x1, z), mul2(x1, y)),
        mul2(mul2(x3, m), mul2(x5, z)),
        mul2(mul2(x5, y), mul2(x3, m)),
    );
    lemma_mul2_one(a);
    lemma_mul2_one(b);
    lemma_pair_minus(x0, x2, one, b, a, one);
    lemma_pair_minus(x3, x5, m, z, y, m);
    lemma_equal_pair(x4, b, a);
    lemma_equal_pair(x1, z, y);
    lemma_xi_multiples(mul2(x3, x5));
    lemma_even(
        x2,
        sqr2(x1),
        mul_xi(sqr2(x4)),
        mul2(x0, x2),
        mul_xi(mul2(x3, x5)),
        sq.c0.c1,
    );
    assert(sq.c0.c2 == add2(
        add2(add2(mul2(x0, x4), mul2(x2, x2)), mul2(x4, x0)),
        add2(add2(mul2(x1, x3), mul2(x3, x1)), mul_xi(mul2(x5, x5))),
    ) && x4 == add2(
        add2(
            add2(mul2(x0, mul2(x4, a)), mul2(mul2(x2, a), mul2(x2, b))),
            mul2(mul2(x4, b), x0),
        ),
        add2(
            add2(mul2(mul2(x1, z), mul2(x3, m)), mul2(mul2(x3, m), mul2(x1, y))),
            mul_xi(mul2(mul2(x5, y), mul2(x5, z))),
        ),
    )) by {
        reveal(mul12);
        reveal(add6);
        reveal(mul6);
        reveal(mul_v);
    }
    lemma_mul2_commutes(x4, x0);
    lemma_mul2_commutes(x3, x1);
    lemma_terms4(
        mul2(x0, x4),
        mul2(x2, x2),
        mul2(x4, x0),
        mul2(x1, x3),
        mul2(x3, x1),
        mul2(x5, x5),
    );
    lemma_terms4(
        mul2(x0, mul2(x4, a)),
        mul2(mul2(x2, a), mul2(x2, b)),
        mul2(mul2(x4, b), x0),
        mul2(mul2(x1, z), mul2(x3, m)),
        mul2(mul2(x3, m), mul2(x1, y)),
        mul2(mul2(x5, y), mul2(x5, z)),
    );
    lemma_pair_minus(x0, x4, one, a, b, one);
    lemma_pair_minus(x1, x3, z, m, m, y);
    lemma_equal_pair(x2, a, b);
    lemma_equal_pair(x5, y, z);
    lemma_even(
        x4,
        sqr2(x2),
        mul_xi(sqr2(x5)),
        mul2(x0, x4),
        mul2(x1, x3),
        sq.c0.c2,
    );
    lemma_cyclotomic_square_odd(x);
    assert(cyclotomic_sqr12(x) == sq) by {
        reveal(cyclotomic_sqr12);
    }
}

/// The odd coefficients of the squaring.
#[verifier::rlimit(40)]
proof fn lemma_cyclotomic_square_odd(x: Ext12)
    requires
        is_cyclotomic(x),
    ensures
        sqr12(x).c1.c0 == three_plus_two(mul_xi(quartic1(x.c0.c1, x.c1.c2)), x.c1.c0),
        sqr12(x).c1.c1 == three_plus_two(quartic1(x.c0.c0, x.c1.c1), x.c1.c1),
        sqr12(x).c1.c2 == three_plus_two(quartic1(x.c1.c0, x.c0.c2), x.c1.c2),
{
    let (z, a, m, b, y) = (frob12_c1(2), frob6_c1(2), minus_one2(), frob6_c2(2), root5());
    let one = one2();
    let (x0, x2, x4) = (x.c0.c0, x.c0.c1, x.c0.c2);
    let (x1, x3, x5) = (x.c1.c0, x.c1.c1, x.c1.c2);
    let s = frob12(x, 2);
    let t = conj12(frob12(s, 2));
    let sq = sqr12(x);
    lemma_constants();
    lemma_sixth_roots();
    lemma_sigma(x);
    lemma_mul2_one(x0);
    lemma_mul2_one(y);
    lemma_mul2_one(z);
    lemma_mul2_one(m);
    assert(x == mul12(s, t));
    assert(sq.c1.c0 == add2(
        add2(mul2(x0, x1), mul_xi(add2(mul2(x2, x5), mul2(x4, x3)))),
        add2(mul2(x1, x0), mul_xi(add2(mul2(x3, x4), mul2(x5, x2)))),
    ) && x1 == add2(
        add2(
            mul2(x0, mul2(x1, y)),
            mul_xi(add2(mul2(mul2(x2, a), mul2(x5, z)), mul2(mul2(x4, b), mul2(x3, m)))),
        ),
        add2(
            mul2(mul2(x1, z), x0),
            mul_xi(add2(mul2(mul2(x3, m), mul2(x4, a)), mul2(mul2(x5, y), mul2(x2, b)))),
        ),
    )) by {
        reveal(mul12);
        reveal(add6);
        reveal(mul6);
    }
    lemma_mul2_commutes(x1, x0);
    lemma_mul2_commutes(x5, x2);
    lemma_mul2_commutes(x3, x4);
    lemma_terms1(
        mul2(x0, x1),
        mul2(x2, x5),
        mul2(x4, x3),
        mul2(x1, x0),
        mul2(x3, x4),
        mul2(x5, x2),
    );
    lemma_terms1(
        mul2(x0, mul2(x1, y)),
        mul2(mul2(x2, a), mul2(x5, z)),
        mul2(mul2(x4, b), mul2(x3, m)),
        mul2(mul2(x1, z), x0),
        mul2(mul2(x3, m), mul2(x4, a)),
        mul2(mul2(x5, y), mul2(x2, b)),
    );
    lemma_pair_one(x0, x1, one, y, z, one);
    lemma_pair_one(x4, x3, b, m, m, a);
    lemma_pair_two(x2, x5, a, z, y, b);
    lemma_xi_multiples(mul2(x4, x3));
    lemma_xi_multiples(mul2(x2, x5));
    lemma_xi_multiples(dbl2(mul2(x2, x5)));
    lemma_odd(
        x1,
        mul2(x0, x1),
        mul_xi(mul2(x4, x3)),
        mul_xi(mul2(x2, x5)),
        sq.c1.c0,
    );
    assert(sq.c1.c1 == add2(
        add2(add2(mul2(x0, x3), mul2(x2, x1)), mul_xi(mul2(x4, x5))),
        add2(add2(mul2(x1, x2), mul2(x3, x0)), mul_xi(mul2(x5, x4))),
    ) && x3 == add2(
        add2(
            add2(mul2(x0, mul2(x3, m)), mul2(mul2(x2, a), mul2(x1, y))),
            mul_xi(mul2(mul2(x4, b), mul2(x5, z))),
        ),
        add2(
            add2(mul2(mul2(x1, z), mul2(x2, b)), mul2(mul2(x3, m), x0)),
            mul_xi(mul2(mul2(x5, y), mul2(x4, a))),
        ),
    )) by {
        reveal(mul12);
        reveal(add6);
        reveal(mul6);
    }
    lemma_mul2_commutes(x3, x0);
    lemma_mul2_commutes(x1, x2);
    lemma_mul2_commutes(x5, x4);
    lemma_terms3(
        mul2(x0, x3),
        mul2(x2, x1),
        mul2(x4, x5),
        mul2(x1, x2),
        mul2(x3, x0),
        mul2(x5, x4),
    );
    lemma_terms3(
        mul2(x0, mul2(x3, m)),
        mul2(mul2(x2, a), mul2(x1, y)),
        mul2(mul2(x4, b), mul2(x5, z)),
        mul2(mul2(x1, z), mul2(x2, b)),
        mul2(mul2(x3, m), x0),
        mul2(mul2(x5, y), mul2(x4, a)),
    );
    lemma_pair_one(x2, x1, a, y, z, b);
    lemma_pair_one(x4, x5, b, z, y, a);
    lemma_pair_two(x0, x3, one, m, m, one);
    lemma_xi_multiples(mul2(x4, x5));
    lemma_odd(
        x3,
        mul2(x2, x1),
        mul_xi(mul2(x4, x5)),
        mul2(x0, x3),
        sq.c1.c1,
    );
    assert(sq.c1.c2 == add2(
        add2(add2(mul2(x0, x5), mul2(x2, x3)), mul2(x4, x1)),
        add2(add2(mul2(x1, x4), mul2(x3, x2)), mul2(x5, x0)),
    ) && x5 == add2(
        add2(
            add2(mul2(x0, mul2(x5, z)), mul2(mul2(x2, a), mul2(x3, m))),
            mul2(mul2(x4, b), mul2(x1, y)),
        ),
        add2(
            add2(mul2(mul2(x1, z), mul2(x4, a)), mul2(mul2(x3, m), mul2(x2, b))),
            mul2(mul2(x5, y), x0),
        ),
    )) by {
        reveal(mul12);
        reveal(add6);
        reveal(mul6);
    }
    lemma_mul2_commutes(x5, x0);
    lemma_mul2_commutes(x3, x2);
    lemma_mul2_commutes(x4, x1);
    lemma_terms5(
        mul2(x0, x5),
        mul2(x2, x3),
        mul2(x4, x1),
        mul2(x1, x4),
        mul2(x3, x2),
        mul2(x5, x0),
    );
    lemma_terms5(
        mul2(x0, mul2(x5, z)),
        mul2(mul2(x2, a), mul2(x3, m)),
        mul2(mul2(x4, b), mul2(x1, y)),
        mul2(mul2(x1, z), mul2(x4, a)),
        mul2(mul2(x3, m), mul2(x2, b)),
        mul2(mul2(x5, y), x0),
    );
    lemma_pair_one(x0, x5, one, z, y, one);
    lemma_pair_one(x2, x3, a, m, m, b);
    lemma_pair_two(x4, x1, b, y, z, a);
    lemma_odd(
        x5,
        mul2(x0, x5),
        mul2(x2, x3),
        mul2(x4, x1),
        sq.c1.c2,
    );
}

/// The product of the images of an element under the second power of the
/// Frobenius map and its inverse.
spec fn image(x: Ext12) -> Ext12 {
    mul12(frob12(x, 2), conj12(frob12(frob12(x, 2), 2)))
}

proof fn lemma_image_mul(a: Ext12, b: Ext12)
    ensures
        image(mul12(a, b)) == mul12(image(a), image(b)),
        reduced12(image(a)),
{
    let (sa, sb) = (frob12(a, 2), frob12(b, 2));
    let (ta, tb) = (frob12(sa, 2), frob12(sb, 2));
    lemma_frob12_mul(a, b, 2);
    lemma_frob12_mul(sa, sb, 2);
    lemma_conj12_mul(ta, tb);
    lemma_mul12_medial(sa, sb, conj12(ta), conj12(tb));
    lemma_reduced12(sa, conj12(ta));
}

/// One under the maps.
pub proof fn lemma_maps_of_one()
    ensures
        frob12(one12(), 2) == one12(),
        conj12(one12()) == one12(),
        reduced12(one12()),
        is_cyclotomic(one12()),
{
    lemma_constants();
    lemma_sigma(one12());
    lemma_mul2_zero(frob6_c1(2));
    lemma_mul2_zero(frob6_c2(2));
    lemma_mul2_zero(frob12_c1(2));
    lemma_mul2_zero(minus_one2());
    lemma_mul2_zero(root5());
    assert(conj12(one12()) == one12()) by {
        reveal(conj12);
        reveal(neg6);
        reveal(neg2);
        lemma_fneg_neg(0);
    }
    lemma_unit12(one12());
}

/// The maps on reduced elements.
pub proof fn lemma_maps(x: Ext12)
    requires
        reduced12(x),
    ensures
        reduced12(frob12(x, 2)),
        reduced12(conj12(x)),
        frob12(conj12(x), 2) == conj12(frob12(x, 2)),
        frob12(frob12(frob12(x, 2), 2), 2) == conj12(x),
{
    broadcast use crate::math::tower::group_reduced2;

    lemma_sigma(x);
    assert(reduced12(frob12(x, 2)));
    lemma_sigma(frob12(x, 2));
    assert(reduced12(conj12(x))) by {
        reveal(conj12);
        reveal(neg6);
    }
}

/// The product of elements of the cyclotomic subgroup is one.
pub proof fn lemma_cyclotomic_product(a: Ext12, b: Ext12)
    requires
        is_cyclotomic(a),
        is_cyclotomic(b),
    ensures
        is_cyclotomic(mul12(a, b)),
{
    lemma_image_mul(a, b);
    lemma_reduced12(a, b);
}

/// The conjugate of an element of the cyclotomic subgroup is one.
pub proof fn lemma_cyclotomic_conjugate(a: Ext12)
    requires
        is_cyclotomic(a),
    ensures
        is_cyclotomic(conj12(a)),
{
    let s = frob12(a, 2);
    let t = frob12(s, 2);
    lemma_maps(a);
    lemma_maps(s);
    lemma_maps(t);
    lemma_conj12_mul(s, conj12(t));
}

/// The inverse of an element of the cyclotomic subgroup is one.
pub proof fn lemma_cyclotomic_inverse(a: Ext12)
    requires
        is_cyclotomic(a),
        mul12(a, inv12(a)) == one12(),
        reduced12(inv12(a)),
    ensures
        is_cyclotomic(inv12(a)),
{
    let b = inv12(a);
    lemma_image_mul(a, b);
    lemma_image_mul(b, a);
    lemma_maps_of_one();
    lemma_inv12(a, image(b));
}

} // verus!
