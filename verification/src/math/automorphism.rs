//! The Frobenius maps and the conjugation respect sums and products.

use crate::math::field::lemma_constants;
use crate::math::frobenius_constants::lemma_frobenius_constants;
use crate::math::ring::{
    lemma_mul2_associates, lemma_mul2_commutes, lemma_mul2_distributes, lemma_mul2_medial,
    lemma_mul6_commutes, lemma_mul6_linear, lemma_mul_v_linear, lemma_scale6_linear,
    lemma_stands_add2, lemma_stands_mul2, lemma_stands_neg2, lemma_stands_same2, lemma_stands_sub,
    stands2,
};
use crate::math::tower::{
    add2, add6, conj12, ext12, frob12, frob12_c1, frob2, frob6, frob6_c1, frob6_c2, lemma_mul2_one,
    mul12, mul2, mul6, mul_v, mul_xi, neg2, neg6, one2, reduced12, reduced2, reduced6, scale6, xi,
    Ext12, Ext2, Ext6,
};
use vstd::prelude::*;

verus! {

/// Minus one.
pub open spec fn minus_one2() -> Ext2 {
    neg2(one2())
}

proof fn lemma_frob2_stands(a: Ext2, x0: int, x1: int)
    requires
        stands2(a, x0, x1),
    ensures
        stands2(frob2(a, 1), x0, -x1),
        reduced2(a) ==> reduced2(frob2(a, 1)),
{
    reveal(frob2);
    lemma_stands_sub(0, 0, a.c1, x1);
}

proof fn lemma_frob2_parity(a: Ext2, k: nat)
    ensures
        k % 2 == 1 ==> frob2(a, k) == frob2(a, 1),
        k % 2 == 0 ==> frob2(a, k) == a,
{
    reveal(frob2);
}

/// The Frobenius maps of the quadratic extension respect sums and products.
pub proof fn lemma_frob2_ring(a: Ext2, b: Ext2, k: nat)
    ensures
        frob2(add2(a, b), k) == add2(frob2(a, k), frob2(b, k)),
        frob2(mul2(a, b), k) == mul2(frob2(a, k), frob2(b, k)),
{
    lemma_frob2_parity(a, k);
    lemma_frob2_parity(b, k);
    lemma_frob2_parity(add2(a, b), k);
    lemma_frob2_parity(mul2(a, b), k);
    if k % 2 == 1 {
        let (a0, a1, b0, b1) = (a.c0 as int, a.c1 as int, b.c0 as int, b.c1 as int);
        let (fa, fb) = (frob2(a, 1), frob2(b, 1));
        lemma_frob2_stands(a, a0, a1);
        lemma_frob2_stands(b, b0, b1);
        lemma_stands_add2(a, a0, a1, b, b0, b1);
        lemma_stands_mul2(a, a0, a1, b, b0, b1);
        lemma_frob2_stands(add2(a, b), a0 + b0, a1 + b1);
        lemma_frob2_stands(mul2(a, b), a0 * b0 - a1 * b1, a0 * b1 + a1 * b0);
        lemma_stands_add2(fa, a0, -a1, fb, b0, -b1);
        lemma_stands_mul2(fa, a0, -a1, fb, b0, -b1);
        lemma_stands_same2(frob2(add2(a, b), 1), add2(fa, fb), a0 + b0, -(a1 + b1));
        assert(a0 * b0 - -a1 * -b1 == a0 * b0 - a1 * b1) by (nonlinear_arith);
        assert(a0 * -b1 + -a1 * b0 == -(a0 * b1 + a1 * b0)) by (nonlinear_arith);
        lemma_stands_same2(
            frob2(mul2(a, b), 1),
            mul2(fa, fb),
            a0 * b0 - a1 * b1,
            -(a0 * b1 + a1 * b0),
        );
    }
}

/// The Frobenius maps of the sextic extension respect sums and multiples.
proof fn lemma_frob6_linear(a: Ext6, b: Ext6, k: nat)
    requires
        1 <= k <= 3,
    ensures
        frob6(add6(a, b), k) == add6(frob6(a, k), frob6(b, k)),
        frob6(mul_v(a), k) == scale6(mul_v(frob6(a, k)), frob6_c1(k)),
{
    reveal(add6);
    reveal(frob6);
    reveal(mul_v);
    reveal(scale6);
    let (c1, c2) = (frob6_c1(k), frob6_c2(k));
    lemma_frobenius_constants(k);
    lemma_frob2_ring(a.c0, b.c0, k);
    lemma_frob2_ring(a.c1, b.c1, k);
    lemma_frob2_ring(a.c2, b.c2, k);
    lemma_mul2_distributes(frob2(a.c1, k), frob2(b.c1, k), c1);
    lemma_mul2_distributes(frob2(a.c2, k), frob2(b.c2, k), c2);
    // the product with v
    let f2 = frob2(a.c2, k);
    lemma_frob2_ring(a.c2, xi(), k);
    // ((f2 c2) xi) c1 = f2 ((c1 c2) xi)
    lemma_mul2_associates(mul2(f2, c2), xi(), c1);
    lemma_mul2_commutes(xi(), c1);
    lemma_mul2_associates(f2, c2, mul2(c1, xi()));
    lemma_mul2_associates(c2, c1, xi());
    lemma_mul2_commutes(c2, c1);
    // (f1 c1) c1 = f1 c2
    lemma_mul2_associates(frob2(a.c1, k), c1, c1);
}

/// The Frobenius maps of the sextic extension respect products.
pub proof fn lemma_frob6_mul(a: Ext6, b: Ext6, k: nat)
    requires
        1 <= k <= 3,
    ensures
        frob6(mul6(a, b), k) == mul6(frob6(a, k), frob6(b, k)),
{
    reveal(frob6);
    reveal(mul6);
    let (c1, c2) = (frob6_c1(k), frob6_c2(k));
    let (a0, a1, a2) = (frob2(a.c0, k), frob2(a.c1, k), frob2(a.c2, k));
    let (b0, b1, b2) = (frob2(b.c0, k), frob2(b.c1, k), frob2(b.c2, k));
    let fx = frob2(xi(), k);
    lemma_frobenius_constants(k);
    // the coefficients of the product under the map
    lemma_frob2_ring(a.c0, b.c0, k);
    lemma_frob2_ring(a.c0, b.c1, k);
    lemma_frob2_ring(a.c0, b.c2, k);
    lemma_frob2_ring(a.c1, b.c0, k);
    lemma_frob2_ring(a.c1, b.c1, k);
    lemma_frob2_ring(a.c1, b.c2, k);
    lemma_frob2_ring(a.c2, b.c0, k);
    lemma_frob2_ring(a.c2, b.c1, k);
    lemma_frob2_ring(a.c2, b.c2, k);
    let p12 = mul2(a.c1, b.c2);
    let p21 = mul2(a.c2, b.c1);
    lemma_frob2_ring(p12, p21, k);
    lemma_frob2_ring(add2(p12, p21), xi(), k);
    lemma_frob2_ring(mul2(a.c0, b.c0), mul_xi(add2(p12, p21)), k);
    let p01 = mul2(a.c0, b.c1);
    let p10 = mul2(a.c1, b.c0);
    let p22 = mul2(a.c2, b.c2);
    lemma_frob2_ring(p01, p10, k);
    lemma_frob2_ring(p22, xi(), k);
    lemma_frob2_ring(add2(p01, p10), mul_xi(p22), k);
    let p02 = mul2(a.c0, b.c2);
    let p11 = mul2(a.c1, b.c1);
    let p20 = mul2(a.c2, b.c0);
    lemma_frob2_ring(p02, p11, k);
    lemma_frob2_ring(add2(p02, p11), p20, k);
    // first: (a1 c1)(b2 c2) + (a2 c2)(b1 c1) = (a1 b2 + a2 b1)(c1 c2)
    let cc = mul2(c1, c2);
    lemma_mul2_medial(a1, c1, b2, c2);
    lemma_mul2_medial(a2, c2, b1, c1);
    lemma_mul2_commutes(c2, c1);
    lemma_mul2_distributes(mul2(a1, b2), mul2(a2, b1), cc);
    lemma_mul2_associates(add2(mul2(a1, b2), mul2(a2, b1)), cc, xi());
    // second: a0 (b1 c1) + (a1 c1) b0 + (a2 c2)(b2 c2) xi
    lemma_mul2_associates(a0, b1, c1);
    lemma_mul2_associates(a1, c1, b0);
    lemma_mul2_commutes(c1, b0);
    lemma_mul2_associates(a1, b0, c1);
    lemma_mul2_medial(a2, c2, b2, c2);
    let q = mul2(a2, b2);
    // (q (c2 c2)) xi = q (((c1 c1) c2) xi) = (q fx) c1
    lemma_mul2_associates(q, mul2(c2, c2), xi());
    lemma_mul2_associates(c1, c1, c2);
    lemma_mul2_associates(c1, cc, xi());
    lemma_mul2_commutes(c1, fx);
    lemma_mul2_associates(q, fx, c1);
    assert(mul2(mul2(c2, c2), xi()) == mul2(fx, c1));
    lemma_mul2_distributes(mul2(a0, b1), mul2(a1, b0), c1);
    lemma_mul2_distributes(add2(mul2(a0, b1), mul2(a1, b0)), mul2(q, fx), c1);
    // third: a0 (b2 c2) + (a1 c1)(b1 c1) + (a2 c2) b0
    lemma_mul2_associates(a0, b2, c2);
    lemma_mul2_medial(a1, c1, b1, c1);
    lemma_mul2_associates(a2, c2, b0);
    lemma_mul2_commutes(c2, b0);
    lemma_mul2_associates(a2, b0, c2);
    lemma_mul2_distributes(mul2(a0, b2), mul2(a1, b1), c2);
    lemma_mul2_distributes(add2(mul2(a0, b2), mul2(a1, b1)), mul2(a2, b0), c2);
}

/// Twice a multiple is a multiple by the product.
pub proof fn lemma_scale6_twice(a: Ext6, k: Ext2, m: Ext2)
    ensures
        scale6(scale6(a, k), m) == scale6(a, mul2(k, m)),
{
    reveal(scale6);
    lemma_mul2_associates(a.c0, k, m);
    lemma_mul2_associates(a.c1, k, m);
    lemma_mul2_associates(a.c2, k, m);
}

/// A product of multiples.
proof fn lemma_mul6_scaled(a: Ext6, b: Ext6, d: Ext2)
    ensures
        mul6(scale6(a, d), scale6(b, d)) == scale6(mul6(a, b), mul2(d, d)),
        mul6(scale6(a, d), b) == scale6(mul6(a, b), d),
        mul6(a, scale6(b, d)) == scale6(mul6(a, b), d),
{
    lemma_mul6_linear(scale6(a, d), b, b, d);
    lemma_mul6_commutes(scale6(a, d), b);
    lemma_mul6_linear(b, a, a, d);
    lemma_mul6_commutes(b, a);
    lemma_scale6_twice(mul6(a, b), d, d);
    lemma_mul6_linear(a, b, b, d);
}

/// A map that multiplies `v` by `c` and `w` by `d`, where `d^2 = c`, respects
/// products as far as the part of even powers of `w` does.
proof fn lemma_map12_mul(
    a0: Ext6,
    a1: Ext6,
    b0: Ext6,
    b1: Ext6,
    d: Ext2,
    c: Ext2,
)
    requires
        mul2(d, d) == c,
    ensures
        mul12(ext12(a0, scale6(a1, d)), ext12(b0, scale6(b1, d))) == ext12(
            add6(mul6(a0, b0), scale6(mul_v(mul6(a1, b1)), c)),
            scale6(add6(mul6(a0, b1), mul6(a1, b0)), d),
        ),
{
    reveal(mul12);
    lemma_mul6_scaled(a1, b1, d);
    lemma_mul_v_linear(mul6(a1, b1), mul6(a1, b1), c);
    lemma_mul6_scaled(a0, b1, d);
    lemma_mul6_scaled(a1, b0, d);
    lemma_scale6_linear(mul6(a0, b1), mul6(a1, b0), d, d);
}

/// The Frobenius maps respect products.
pub proof fn lemma_frob12_mul(a: Ext12, b: Ext12, k: nat)
    requires
        1 <= k <= 3,
    ensures
        frob12(mul12(a, b), k) == mul12(frob12(a, k), frob12(b, k)),
{
    reveal(frob12);
    let d = frob12_c1(k);
    let c = frob6_c1(k);
    lemma_frobenius_constants(k);
    lemma_map12_mul(frob6(a.c0, k), frob6(a.c1, k), frob6(b.c0, k), frob6(b.c1, k), d, c);
    assert(mul12(a, b) == ext12(
        add6(mul6(a.c0, b.c0), mul_v(mul6(a.c1, b.c1))),
        add6(mul6(a.c0, b.c1), mul6(a.c1, b.c0)),
    )) by {
        reveal(mul12);
    }
    lemma_frob6_linear(mul6(a.c0, b.c0), mul_v(mul6(a.c1, b.c1)), k);
    lemma_frob6_linear(mul6(a.c1, b.c1), a.c0, k);
    lemma_frob6_linear(mul6(a.c0, b.c1), mul6(a.c1, b.c0), k);
    lemma_frob6_mul(a.c0, b.c0, k);
    lemma_frob6_mul(a.c1, b.c1, k);
    lemma_frob6_mul(a.c0, b.c1, k);
    lemma_frob6_mul(a.c1, b.c0, k);
}

/// The negative is the multiple by minus one.
pub proof fn lemma_neg_is_multiple(a: Ext2)
    ensures
        mul2(a, minus_one2()) == neg2(a),
        mul2(minus_one2(), minus_one2()) == one2(),
{
    let (a0, a1) = (a.c0 as int, a.c1 as int);
    lemma_constants();
    lemma_stands_neg2(one2(), 1, 0);
    lemma_stands_mul2(a, a0, a1, minus_one2(), -1, 0);
    lemma_stands_neg2(a, a0, a1);
    assert(a0 * -1 - a1 * 0 == -a0 && a0 * 0 + a1 * -1 == -a1);
    lemma_stands_same2(mul2(a, minus_one2()), neg2(a), -a0, -a1);
    lemma_stands_mul2(minus_one2(), -1, 0, minus_one2(), -1, 0);
    lemma_stands_same2(mul2(minus_one2(), minus_one2()), one2(), 1, 0);
}

pub proof fn lemma_neg6_is_multiple(a: Ext6)
    ensures
        neg6(a) == scale6(a, minus_one2()),
{
    reveal(neg6);
    reveal(scale6);
    lemma_neg_is_multiple(a.c0);
    lemma_neg_is_multiple(a.c1);
    lemma_neg_is_multiple(a.c2);
}

/// The multiple by one.
pub proof fn lemma_scale6_one(a: Ext6)
    requires
        reduced6(a),
    ensures
        scale6(a, one2()) == a,
{
    reveal(scale6);
    lemma_mul2_one(a.c0);
    lemma_mul2_one(a.c1);
    lemma_mul2_one(a.c2);
}

/// Sums, multiples and products are reduced.
pub proof fn lemma_reduced6(a: Ext6, b: Ext6, k: Ext2)
    ensures
        reduced6(add6(a, b)),
        reduced6(scale6(a, k)),
        reduced6(mul6(a, b)),
        reduced6(a) ==> reduced6(mul_v(a)),
        reduced6(neg6(a)),
{
    broadcast use crate::math::tower::group_reduced2;

    reveal(add6);
    reveal(scale6);
    reveal(mul6);
    reveal(mul_v);
    reveal(neg6);
}

pub proof fn lemma_reduced12(a: Ext12, b: Ext12)
    ensures
        reduced12(mul12(a, b)),
{
    reveal(mul12);
    lemma_reduced6(mul6(a.c0, b.c0), mul_v(mul6(a.c1, b.c1)), xi());
    lemma_reduced6(mul6(a.c0, b.c1), mul6(a.c1, b.c0), xi());
}

/// The conjugation respects products.
pub proof fn lemma_conj12_mul(a: Ext12, b: Ext12)
    ensures
        conj12(mul12(a, b)) == mul12(conj12(a), conj12(b)),
{
    reveal(conj12);
    let m = minus_one2();
    lemma_neg6_is_multiple(a.c1);
    lemma_neg6_is_multiple(b.c1);
    lemma_neg_is_multiple(one2());
    lemma_map12_mul(a.c0, a.c1, b.c0, b.c1, m, one2());
    assert(mul12(a, b) == ext12(
        add6(mul6(a.c0, b.c0), mul_v(mul6(a.c1, b.c1))),
        add6(mul6(a.c0, b.c1), mul6(a.c1, b.c0)),
    )) by {
        reveal(mul12);
    }
    lemma_neg6_is_multiple(add6(mul6(a.c0, b.c1), mul6(a.c1, b.c0)));
    lemma_reduced6(a.c1, b.c1, m);
    lemma_reduced6(mul6(a.c1, b.c1), b.c1, m);
    lemma_scale6_one(mul_v(mul6(a.c1, b.c1)));
}

/// Conjugating twice changes nothing.
pub proof fn lemma_conj12_twice(a: Ext12)
    requires
        reduced12(a),
    ensures
        conj12(conj12(a)) == a,
{
    reveal(conj12);
    let m = minus_one2();
    lemma_neg6_is_multiple(a.c1);
    lemma_neg6_is_multiple(neg6(a.c1));
    lemma_scale6_twice(a.c1, m, m);
    lemma_neg_is_multiple(one2());
    lemma_scale6_one(a.c1);
}

} // verus!
