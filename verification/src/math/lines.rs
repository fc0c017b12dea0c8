//! The lines of the pairing pass through the points that they are made of.

use crate::math::curve::{coeff_b2, line_add, line_double, reduced_jac2, secant2, tangent2, Jac2};
use crate::math::field::{lemma_constants, modulus};
use crate::math::ring::{
    lemma_add2_commutes, lemma_add2_medial, lemma_mul2_associates, lemma_mul2_commutes,
    lemma_mul2_distributes, lemma_mul2_neg, lemma_product_of_difference, lemma_stands_add2,
    lemma_stands_neg2, lemma_stands_same2, lemma_stands_sub2, lemma_sub2, stands, stands2,
};
use crate::math::tower::{
    add2, dbl2, inv2, lemma_add2_zero, lemma_mul2_one, mul2, neg2, one2, reduced2, sqr2, sub2,
    triple2, zero2, Ext2, Ext6,
};
use crate::math::twist_addition::{lemma_chord_slope2, lemma_tangent_slope2};
use vstd::arithmetic::div_mod::*;
use vstd::prelude::*;

verus! {

/// The value of the line `c0 Y + c1 X + c2` at an affine point.
pub open spec fn line_at(line: Ext6, x: Ext2, y: Ext2) -> Ext2 {
    add2(add2(mul2(line.c0, y), mul2(line.c1, x)), line.c2)
}

/// The value of the line `c0 Y + c1 X + c2 Z` at a point in homogeneous
/// coordinates.
pub open spec fn line_at_point(line: Ext6, r: Jac2) -> Ext2 {
    add2(add2(mul2(line.c0, r.y), mul2(line.c1, r.x)), mul2(line.c2, r.z))
}

/// Whether a point in homogeneous coordinates is on the twist.
pub open spec fn on_twist(r: Jac2) -> bool {
    mul2(sqr2(r.y), r.z) == add2(
        mul2(sqr2(r.x), r.x),
        mul2(coeff_b2(), mul2(sqr2(r.z), r.z)),
    )
}

/// What stands for two integers with the same difference to others.
proof fn lemma_stands_difference(t: Ext2, a: Ext2, b: Ext2, c: Ext2, d: Ext2)
    requires
        stands2(t, a.c0 - b.c0, a.c1 - b.c1),
        stands2(t, c.c0 - d.c0, c.c1 - d.c1),
    ensures
        stands(0, (a.c0 - b.c0) - (c.c0 - d.c0)),
        stands(0, (a.c1 - b.c1) - (c.c1 - d.c1)),
{
    lemma_constants();
    let p = modulus() as int;
    lemma_mod_equivalence(a.c0 - b.c0, c.c0 - d.c0, p);
    lemma_mod_equivalence(a.c1 - b.c1, c.c1 - d.c1, p);
    lemma_small_mod(0, modulus());
}

/// The line with slope `l` through an affine point passes through it.
proof fn lemma_slope_line(l: Ext2, x: Ext2, y: Ext2)
    requires
        reduced2(y),
    ensures
        line_at(Ext6 { c0: one2(), c1: neg2(l), c2: sub2(mul2(l, x), y) }, x, y) == zero2(),
{
    let m = mul2(l, x);
    lemma_mul2_one(y);
    lemma_mul2_neg(l, x);
    lemma_sub2(m, y);
    lemma_sub2(m, m);
    lemma_sub2(y, y);
    lemma_add2_commutes(m, neg2(y));
    lemma_add2_commutes(neg2(m), m);
    lemma_add2_medial(y, neg2(m), neg2(y), m);
    lemma_constants();
    lemma_add2_zero(zero2());
}

/// The tangent at an affine point passes through it, and has the slope
/// `3 x^2 / (2 y)`.
pub proof fn lemma_tangent_touches(r: Jac2)
    requires
        reduced_jac2(r),
    ensures
        line_at(tangent2(r), r.x, r.y) == zero2(),
        r.y != zero2() ==> mul2(tangent2(r).c1, dbl2(r.y)) == neg2(triple2(sqr2(r.x))),
{
    reveal(tangent2);
    let (t, d) = (triple2(sqr2(r.x)), dbl2(r.y));
    let l = mul2(t, inv2(d));
    lemma_slope_line(l, r.x, r.y);
    if r.y != zero2() {
        lemma_tangent_slope2(r.x, r.y);
        lemma_mul2_neg(l, d);
    }
}

/// The line through two affine points passes through the first, and through the
/// second where their abscissas differ.
pub proof fn lemma_secant_through(r: Jac2, q: Jac2)
    requires
        reduced_jac2(r),
        reduced_jac2(q),
    ensures
        line_at(secant2(r, q), r.x, r.y) == zero2(),
        r.x != q.x ==> line_at(secant2(r, q), q.x, q.y) == zero2(),
{
    reveal(secant2);
    let d = sub2(q.x, r.x);
    let dy = sub2(q.y, r.y);
    let l = mul2(dy, inv2(d));
    lemma_slope_line(l, r.x, r.y);
    if r.x != q.x {
        lemma_chord_slope2(q.x, q.y, r.x, r.y);
        let c = mul2(l, q.x);
        let e = mul2(l, r.x);
        assert(mul2(l, d) == dy);
        lemma_stands_sub2(
            q.y,
            q.y.c0 as int,
            q.y.c1 as int,
            r.y,
            r.y.c0 as int,
            r.y.c1 as int,
        );
        lemma_product_of_difference(l, q.x, r.x);
        lemma_stands_difference(dy, q.y, r.y, c, e);
        lemma_mul2_one(q.y);
        lemma_mul2_neg(l, q.x);
        lemma_four_terms(q.y, c, e, r.y);
    }
}

/// A sum `a - b + (c - d)` whose terms cancel.
proof fn lemma_four_terms(a: Ext2, b: Ext2, c: Ext2, d: Ext2)
    requires
        stands(0, (a.c0 - d.c0) - (b.c0 - c.c0)),
        stands(0, (a.c1 - d.c1) - (b.c1 - c.c1)),
    ensures
        add2(add2(a, neg2(b)), sub2(c, d)) == zero2(),
{
    let (a0, a1, b0, b1) = (a.c0 as int, a.c1 as int, b.c0 as int, b.c1 as int);
    let (c0, c1, d0, d1) = (c.c0 as int, c.c1 as int, d.c0 as int, d.c1 as int);
    lemma_constants();
    lemma_stands_neg2(b, b0, b1);
    lemma_stands_add2(a, a0, a1, neg2(b), -b0, -b1);
    lemma_stands_sub2(c, c0, c1, d, d0, d1);
    lemma_stands_add2(add2(a, neg2(b)), a0 - b0, a1 - b1, sub2(c, d), c0 - d0, c1 - d1);
    lemma_stands_same2(
        add2(add2(a, neg2(b)), sub2(c, d)),
        zero2(),
        a0 - b0 + (c0 - d0),
        a1 - b1 + (c1 - d1),
    );
}

/// The line of an addition passes through both points.
pub proof fn lemma_line_add_through(r: Jac2, x: Ext2, y: Ext2)
    ensures
        line_at(line_add(r, x, y).1, x, y) == zero2(),
        line_at_point(line_add(r, x, y).1, r) == zero2(),
{
    reveal(line_add);
    let theta = sub2(r.y, mul2(y, r.z));
    let lambda = sub2(r.x, mul2(x, r.z));
    let p = mul2(lambda, y);
    let q = mul2(theta, x);
    lemma_constants();
    lemma_mul2_neg(theta, x);
    lemma_small_mod(0, modulus());
    lemma_four_terms(p, q, q, p);
    // at the first point: lambda Y - theta X + theta (x Z) - lambda (y Z), where
    // the outer terms are lambda theta and the inner ones theta lambda
    let a = mul2(lambda, r.y);
    let b = mul2(theta, r.x);
    let c = mul2(theta, mul2(x, r.z));
    let d = mul2(lambda, mul2(y, r.z));
    lemma_mul2_neg(theta, r.x);
    lemma_sub2(q, p);
    lemma_mul2_distributes(q, neg2(p), r.z);
    lemma_mul2_neg(p, r.z);
    lemma_mul2_associates(theta, x, r.z);
    lemma_mul2_associates(lambda, y, r.z);
    lemma_sub2(c, d);
    lemma_product_of_difference(lambda, r.y, mul2(y, r.z));
    lemma_product_of_difference(theta, r.x, mul2(x, r.z));
    lemma_mul2_commutes(lambda, theta);
    lemma_stands_difference(mul2(lambda, theta), a, d, b, c);
    lemma_four_terms(a, b, c, d);
}

/// Twice and three times a product.
pub proof fn lemma_multiples(a: Ext2, b: Ext2)
    ensures
        mul2(dbl2(a), b) == dbl2(mul2(a, b)),
        mul2(triple2(a), b) == triple2(mul2(a, b)),
{
    lemma_mul2_distributes(a, a, b);
    lemma_mul2_distributes(dbl2(a), a, b);
}

/// `(y + z)^2 - (y^2 + z^2)` is twice the product.
pub proof fn lemma_mixed_term(y: Ext2, z: Ext2)
    ensures
        sub2(sqr2(add2(y, z)), add2(sqr2(y), sqr2(z))) == dbl2(mul2(y, z)),
{
    let a = sqr2(y);
    let b = mul2(y, z);
    let c = sqr2(z);
    lemma_mul2_distributes(y, z, add2(y, z));
    lemma_mul2_distributes(y, z, y);
    lemma_mul2_distributes(y, z, z);
    lemma_mul2_commutes(z, y);
    let (a0, a1, b0, b1) = (a.c0 as int, a.c1 as int, b.c0 as int, b.c1 as int);
    let (c0, c1) = (c.c0 as int, c.c1 as int);
    lemma_stands_add2(a, a0, a1, b, b0, b1);
    lemma_stands_add2(b, b0, b1, c, c0, c1);
    lemma_stands_add2(add2(a, b), a0 + b0, a1 + b1, add2(b, c), b0 + c0, b1 + c1);
    lemma_stands_add2(a, a0, a1, c, c0, c1);
    let s = add2(add2(a, b), add2(b, c));
    assert(sqr2(add2(y, z)) == s);
    lemma_stands_sub2(
        s,
        a0 + b0 + (b0 + c0),
        a1 + b1 + (b1 + c1),
        add2(a, c),
        a0 + c0,
        a1 + c1,
    );
    lemma_stands_add2(b, b0, b1, b, b0, b1);
    lemma_stands_same2(sub2(s, add2(a, c)), dbl2(b), b0 + b0, b1 + b1);
}

/// The line of a doubling touches the point, where that is on the twist.
pub proof fn lemma_line_double_touches(r: Jac2)
    requires
        on_twist(r),
    ensures
        line_at_point(line_double(r).1, r) == zero2(),
{
    reveal(line_double);
    let b = sqr2(r.y);
    let c = sqr2(r.z);
    let e = mul2(triple2(c), coeff_b2());
    let h = sub2(sqr2(add2(r.y, r.z)), add2(b, c));
    let j = sqr2(r.x);
    let yz = mul2(r.y, r.z);
    let t = mul2(b, r.z);
    let x3 = mul2(j, r.x);
    let w = mul2(coeff_b2(), mul2(c, r.z));
    // -h Y = -2 Y^2 Z
    lemma_mixed_term(r.y, r.z);
    lemma_mul2_neg(h, r.y);
    lemma_multiples(yz, r.y);
    lemma_mul2_commutes(yz, r.y);
    lemma_mul2_associates(r.y, r.y, r.z);
    assert(mul2(neg2(h), r.y) == neg2(dbl2(t)));
    // 3 X^2 X
    lemma_multiples(j, r.x);
    // e Z = 3 b' Z^3
    lemma_multiples(c, coeff_b2());
    lemma_multiples(mul2(c, coeff_b2()), r.z);
    lemma_mul2_commutes(c, coeff_b2());
    lemma_mul2_associates(coeff_b2(), c, r.z);
    assert(mul2(e, r.z) == triple2(w));
    // (e - b) Z
    lemma_sub2(e, b);
    lemma_mul2_distributes(e, neg2(b), r.z);
    lemma_mul2_neg(b, r.z);
    let (t0, t1) = (t.c0 as int, t.c1 as int);
    let (x0, x1) = (x3.c0 as int, x3.c1 as int);
    let (w0, w1) = (w.c0 as int, w.c1 as int);
    lemma_stands_add2(t, t0, t1, t, t0, t1);
    lemma_stands_neg2(dbl2(t), 2 * t0, 2 * t1);
    lemma_stands_neg2(t, t0, t1);
    lemma_stands_add2(x3, x0, x1, x3, x0, x1);
    lemma_stands_add2(dbl2(x3), 2 * x0, 2 * x1, x3, x0, x1);
    lemma_stands_add2(w, w0, w1, w, w0, w1);
    lemma_stands_add2(dbl2(w), 2 * w0, 2 * w1, w, w0, w1);
    lemma_stands_add2(triple2(w), 3 * w0, 3 * w1, neg2(t), -t0, -t1);
    lemma_stands_add2(neg2(dbl2(t)), -2 * t0, -2 * t1, triple2(x3), 3 * x0, 3 * x1);
    lemma_stands_add2(
        add2(neg2(dbl2(t)), triple2(x3)),
        -2 * t0 + 3 * x0,
        -2 * t1 + 3 * x1,
        add2(triple2(w), neg2(t)),
        3 * w0 - t0,
        3 * w1 - t1,
    );
    // and Y^2 Z = X^3 + b' Z^3
    lemma_stands_add2(x3, x0, x1, w, w0, w1);
    lemma_constants();
    let p = modulus() as int;
    lemma_mod_equivalence(x0 + w0, t0, p);
    lemma_mod_equivalence(x1 + w1, t1, p);
    lemma_small_mod(0, modulus());
    lemma_mul_mod_noop_right(3, x0 + w0 - t0, p);
    lemma_mul_mod_noop_right(3, x1 + w1 - t1, p);
    lemma_stands_same2(
        line_at_point(line_double(r).1, r),
        zero2(),
        -2 * t0 + 3 * x0 + (3 * w0 - t0),
        -2 * t1 + 3 * x1 + (3 * w1 - t1),
    );
}

} // verus!
