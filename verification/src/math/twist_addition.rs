//! What the formulas in Jacobian coordinates are to the addition of the twist's
//! points by chords and tangents.

use crate::math::curve::{
    add_jac2, affine2, chord2, coeff_b2, double_jac2, jac2, on_curve2, reduced_jac2, same_point2,
    to_affine2, Aff2, Jac2,
};
use crate::math::field::{lemma_constants, lemma_fneg_neg, lemma_fsub_zero, lemma_twice};
use crate::math::inverse::{lemma_field2, lemma_no_zero_divisors2};
use crate::math::lines::{lemma_mixed_term, lemma_multiples};
use crate::math::mixture::{
    counts, four_parts, is_mix, lemma_mix_of_mixes, lemma_mix_parts, lemma_mix_product,
    lemma_mix_same, lemma_mix_solved, lemma_mix_sums, lemma_mix_times, parts, three_parts,
    two_parts, Parts,
};
use crate::math::ring::{
    lemma_add2_commutes, lemma_add2_medial, lemma_mul2_associates, lemma_mul2_commutes,
    lemma_mul2_distributes, lemma_mul2_medial, lemma_mul2_neg, lemma_product_of_difference,
    lemma_stands_add2, lemma_stands_neg2, lemma_stands_same2, lemma_stands_sub2,
};
use crate::math::tower::{
    add2, dbl2, inv2, lemma_add2_zero, lemma_mul2_one, lemma_mul2_zero, mul2, neg2, one2, reduced2,
    sqr2, sub2, triple2, zero2, Ext2,
};
use crate::math::twist::{cube2, lemma_cube_product};
use vstd::prelude::*;

verus! {

/// The point of the twist at infinity.
pub open spec fn infinity2() -> Aff2 {
    Aff2 { x: zero2(), y: zero2(), infinity: true }
}

/// The slope of the tangent at `(x, y)`: `3 x^2 / (2 y)`.
pub open spec fn tangent_slope2(x: Ext2, y: Ext2) -> Ext2 {
    mul2(triple2(sqr2(x)), inv2(dbl2(y)))
}

/// The slope of the chord through `(x1, y1)` and `(x2, y2)`:
/// `(y1 - y2) / (x1 - x2)`.
pub open spec fn chord_slope2(x1: Ext2, y1: Ext2, x2: Ext2, y2: Ext2) -> Ext2 {
    mul2(sub2(y1, y2), inv2(sub2(x1, x2)))
}

/// The third point of the line with slope `l` through `(x1, y1)` and a point with
/// the abscissa `x2`, mirrored.
pub open spec fn third_point2(l: Ext2, x1: Ext2, y1: Ext2, x2: Ext2) -> Aff2 {
    let x3 = sub2(sub2(sqr2(l), x1), x2);
    Aff2 { x: x3, y: sub2(mul2(l, sub2(x1, x3)), y1), infinity: false }
}

/// The sum of two points of the twist.
pub open spec fn sum2(p: Aff2, q: Aff2) -> Aff2 {
    if p.infinity {
        q
    } else if q.infinity {
        p
    } else if p.x != q.x {
        third_point2(chord_slope2(p.x, p.y, q.x, q.y), p.x, p.y, q.x)
    } else if p.y == q.y && p.y != zero2() {
        third_point2(tangent_slope2(p.x, p.y), p.x, p.y, q.x)
    } else {
        infinity2()
    }
}

/// A factor that is not zero cancels.
proof fn lemma_cancel2(a: Ext2, b: Ext2, c: Ext2)
    requires
        reduced2(a),
        reduced2(b),
        reduced2(c),
        a != zero2(),
        mul2(b, a) == mul2(c, a),
    ensures
        b == c,
{
    lemma_field2(a);
    lemma_mul2_associates(b, a, inv2(a));
    lemma_mul2_associates(c, a, inv2(a));
    lemma_mul2_one(b);
    lemma_mul2_one(c);
}

/// The powers of what is not zero are not zero.
proof fn lemma_powers_not_zero(z: Ext2)
    requires
        reduced2(z),
        z != zero2(),
    ensures
        sqr2(z) != zero2(),
        cube2(z) != zero2(),
{
    broadcast use crate::math::tower::group_reduced2;

    if sqr2(z) == zero2() {
        lemma_no_zero_divisors2(z, z);
    }
    if cube2(z) == zero2() {
        lemma_no_zero_divisors2(sqr2(z), z);
    }
}

/// The coordinates of a point from those of its affine form.
pub proof fn lemma_affine_multiples2(p: Jac2)
    requires
        reduced_jac2(p),
        p.z != zero2(),
    ensures
        reduced2(affine2(p).x),
        reduced2(affine2(p).y),
        p.x == mul2(affine2(p).x, sqr2(p.z)),
        p.y == mul2(affine2(p).y, cube2(p.z)),
{
    broadcast use crate::math::tower::group_reduced2;

    reveal(affine2);
    let t = inv2(p.z);
    lemma_constants();
    lemma_field2(p.z);
    lemma_mul2_commutes(p.z, t);
    lemma_cube_product(t, p.z);
    lemma_mul2_one(one2());
    lemma_mul2_associates(p.x, sqr2(t), sqr2(p.z));
    lemma_mul2_associates(p.y, cube2(t), cube2(p.z));
    lemma_mul2_one(p.x);
    lemma_mul2_one(p.y);
}

/// The affine form from coordinates that are multiples of it.
proof fn lemma_affine_unique2(p: Jac2, a: Ext2, b: Ext2)
    requires
        reduced2(p.z),
        p.z != zero2(),
        reduced2(a),
        reduced2(b),
        p.x == mul2(a, sqr2(p.z)),
        p.y == mul2(b, cube2(p.z)),
    ensures
        affine2(p) == jac2(a, b, one2()),
{
    reveal(affine2);
    let t = inv2(p.z);
    lemma_constants();
    lemma_field2(p.z);
    lemma_cube_product(p.z, t);
    lemma_mul2_one(one2());
    lemma_mul2_associates(a, sqr2(p.z), sqr2(t));
    lemma_mul2_associates(b, cube2(p.z), cube2(t));
    lemma_mul2_one(a);
    lemma_mul2_one(b);
}

/// A product with a difference.
proof fn lemma_product_with_difference(a: Ext2, b: Ext2, c: Ext2)
    ensures
        mul2(sub2(a, b), c) == sub2(mul2(a, c), mul2(b, c)),
{
    broadcast use crate::math::tower::group_reduced2;

    lemma_mul2_commutes(sub2(a, b), c);
    lemma_mul2_commutes(a, c);
    lemma_mul2_commutes(b, c);
    let (x, y) = (mul2(c, a), mul2(c, b));
    lemma_product_of_difference(c, a, b);
    lemma_stands_sub2(x, x.c0 as int, x.c1 as int, y, y.c0 as int, y.c1 as int);
    lemma_stands_same2(mul2(c, sub2(a, b)), sub2(x, y), x.c0 - y.c0, x.c1 - y.c1);
}

/// What is left of a sum without one of its parts.
proof fn lemma_differences(p: Ext2, q: Ext2, r: Ext2)
    ensures
        reduced2(q) ==> sub2(add2(p, q), p) == q,
        sub2(p, dbl2(q)) == sub2(sub2(p, q), q),
        sub2(add2(p, sub2(q, r)), dbl2(q)) == sub2(sub2(p, q), r),
{
    let (p0, p1) = (p.c0 as int, p.c1 as int);
    let (q0, q1) = (q.c0 as int, q.c1 as int);
    let (r0, r1) = (r.c0 as int, r.c1 as int);
    lemma_stands_add2(p, p0, p1, q, q0, q1);
    lemma_stands_sub2(add2(p, q), p0 + q0, p1 + q1, p, p0, p1);
    if reduced2(q) {
        lemma_stands_same2(sub2(add2(p, q), p), q, q0, q1);
    }
    lemma_stands_add2(q, q0, q1, q, q0, q1);
    lemma_stands_sub2(p, p0, p1, dbl2(q), q0 + q0, q1 + q1);
    lemma_stands_sub2(p, p0, p1, q, q0, q1);
    lemma_stands_sub2(sub2(p, q), p0 - q0, p1 - q1, q, q0, q1);
    lemma_stands_same2(
        sub2(p, dbl2(q)),
        sub2(sub2(p, q), q),
        p0 - q0 - q0,
        p1 - q1 - q1,
    );
    lemma_stands_sub2(q, q0, q1, r, r0, r1);
    lemma_stands_add2(p, p0, p1, sub2(q, r), q0 - r0, q1 - r1);
    lemma_stands_sub2(
        add2(p, sub2(q, r)),
        p0 + (q0 - r0),
        p1 + (q1 - r1),
        dbl2(q),
        q0 + q0,
        q1 + q1,
    );
    lemma_stands_sub2(sub2(p, q), p0 - q0, p1 - q1, r, r0, r1);
    lemma_stands_same2(
        sub2(add2(p, sub2(q, r)), dbl2(q)),
        sub2(sub2(p, q), r),
        p0 - q0 - r0,
        p1 - q1 - r1,
    );
}

/// The ordinate that both formulas compute, where the slope times `z`, the
/// abscissas times `z^2` and the ordinate times `z^3` are given.
proof fn lemma_ordinate(l: Ext2, x1: Ext2, y1: Ext2, x3: Ext2, z: Ext2)
    ensures
        sub2(
            mul2(mul2(l, z), sub2(mul2(x1, sqr2(z)), mul2(x3, sqr2(z)))),
            mul2(y1, cube2(z)),
        ) == mul2(sub2(mul2(l, sub2(x1, x3)), y1), cube2(z)),
{
    let d = sub2(x1, x3);
    lemma_product_with_difference(x1, x3, sqr2(z));
    lemma_mul2_medial(l, z, d, sqr2(z));
    lemma_mul2_commutes(z, sqr2(z));
    lemma_product_with_difference(mul2(l, d), y1, cube2(z));
}

/// The slope of the tangent times `2 y` is `3 x^2`.
pub proof fn lemma_tangent_slope2(x: Ext2, y: Ext2)
    requires
        reduced2(y),
        y != zero2(),
    ensures
        mul2(tangent_slope2(x, y), dbl2(y)) == triple2(sqr2(x)),
{
    broadcast use crate::math::tower::group_reduced2;

    let (t, d) = (triple2(sqr2(x)), dbl2(y));
    assert(d != zero2()) by {
        reveal(add2);
        lemma_twice(y.c0);
        lemma_twice(y.c1);
    }
    lemma_field2(d);
    lemma_mul2_commutes(d, inv2(d));
    lemma_mul2_associates(t, inv2(d), d);
    lemma_mul2_one(t);
}

/// The slope of the chord times the difference of the abscissas is that of the
/// ordinates.
pub proof fn lemma_chord_slope2(x1: Ext2, y1: Ext2, x2: Ext2, y2: Ext2)
    requires
        reduced2(x1),
        reduced2(x2),
        x1 != x2,
    ensures
        sub2(x1, x2) != zero2(),
        mul2(chord_slope2(x1, y1, x2, y2), sub2(x1, x2)) == sub2(y1, y2),
{
    broadcast use crate::math::tower::group_reduced2;

    let (d, r) = (sub2(x1, x2), sub2(y1, y2));
    assert(d != zero2()) by {
        reveal(sub2);
        lemma_fsub_zero(x1.c0, x2.c0);
        lemma_fsub_zero(x1.c1, x2.c1);
    }
    lemma_field2(d);
    lemma_mul2_commutes(d, inv2(d));
    lemma_mul2_associates(r, inv2(d), d);
    lemma_mul2_one(r);
}

/// Of the point `(a z^2, b z^3, z)`, the terms of the doubling formula by the
/// third coordinate `2 y z` of its result: `3 x^2 = l z3`, `4 x y^2 = a z3^2`
/// and `8 y^4 = b z3^3`, where `l` is the slope of the tangent.
proof fn lemma_double_terms(p: Jac2, a: Ext2, b: Ext2, l: Ext2, z3: Ext2)
    requires
        p.x == mul2(a, sqr2(p.z)),
        p.y == mul2(b, cube2(p.z)),
        z3 == dbl2(mul2(p.y, p.z)),
    ensures
        mul2(l, dbl2(b)) == triple2(sqr2(a)) ==> triple2(sqr2(p.x)) == mul2(l, z3),
        dbl2(dbl2(mul2(p.x, sqr2(p.y)))) == mul2(a, sqr2(z3)),
        dbl2(dbl2(dbl2(sqr2(sqr2(p.y))))) == mul2(b, cube2(z3)),
        z3 == mul2(dbl2(b), sqr2(sqr2(p.z))),
{
    let (x, y, z) = (p.x, p.y, p.z);
    let (z2, y2, w) = (sqr2(z), sqr2(y), mul2(y, z));
    let z4 = sqr2(z2);
    // y z = b z^4
    lemma_mul2_associates(b, cube2(z), z);
    lemma_mul2_associates(z2, z, z);
    lemma_multiples(b, z4);
    // l z3 = 3 a^2 z^4
    lemma_mul2_associates(l, dbl2(b), z4);
    lemma_multiples(sqr2(a), z4);
    lemma_cube_product(a, z2);
    // z3^2 = 4 y^2 z^2
    let w2 = sqr2(w);
    lemma_multiples(w, dbl2(w));
    lemma_mul2_commutes(w, dbl2(w));
    lemma_multiples(w, w);
    assert(sqr2(z3) == dbl2(dbl2(w2)));
    lemma_cube_product(y, z);
    lemma_mul2_commutes(a, dbl2(dbl2(w2)));
    lemma_multiples(dbl2(w2), a);
    lemma_multiples(w2, a);
    lemma_mul2_commutes(w2, a);
    // a y^2 z^2 = x y^2
    lemma_mul2_commutes(y2, z2);
    lemma_mul2_associates(a, z2, y2);
    // z3^3 = 8 y^3 z^3
    let w3 = cube2(w);
    lemma_multiples(dbl2(w2), z3);
    lemma_multiples(w2, z3);
    lemma_mul2_commutes(w2, z3);
    lemma_multiples(w, w2);
    lemma_mul2_commutes(w, w2);
    assert(cube2(z3) == dbl2(dbl2(dbl2(w3))));
    lemma_mul2_commutes(b, dbl2(dbl2(dbl2(w3))));
    lemma_multiples(dbl2(dbl2(w3)), b);
    lemma_multiples(dbl2(w3), b);
    lemma_multiples(w3, b);
    // b y^3 z^3 = y^4
    lemma_mul2_associates(cube2(y), cube2(z), b);
    lemma_mul2_commutes(cube2(z), b);
    lemma_mul2_associates(y2, y, y);
}

/// Doubling in Jacobian coordinates adds a point of the twist to itself.
pub proof fn lemma_double_jac2(p: Jac2)
    requires
        reduced_jac2(p),
    ensures
        reduced_jac2(double_jac2(p)),
        to_affine2(double_jac2(p)) == sum2(to_affine2(p), to_affine2(p)),
{
    broadcast use crate::math::tower::group_reduced2;

    reveal(double_jac2);
    lemma_constants();
    let t = double_jac2(p);
    if p.z == zero2() {
        lemma_mul2_zero(p.y);
        lemma_add2_zero(zero2());
    } else {
        let (a, b) = (affine2(p).x, affine2(p).y);
        let z3 = t.z;
        let l = tangent_slope2(a, b);
        lemma_affine_multiples2(p);
        lemma_double_terms(p, a, b, l, z3);
        if b == zero2() {
            lemma_add2_zero(zero2());
            lemma_mul2_zero(sqr2(sqr2(p.z)));
        } else {
            lemma_tangent_slope2(a, b);
            if z3 == zero2() {
                assert(dbl2(b) != zero2()) by {
                    reveal(add2);
                    lemma_twice(b.c0);
                    lemma_twice(b.c1);
                }
                lemma_no_zero_divisors2(dbl2(b), sqr2(sqr2(p.z)));
                lemma_powers_not_zero(p.z);
                lemma_powers_not_zero(sqr2(p.z));
            }
            let s = third_point2(l, a, b, a);
            let zz = sqr2(z3);
            lemma_mixed_term(p.x, sqr2(p.y));
            // x3 = l^2 z3^2 - 2 a z3^2
            lemma_cube_product(l, z3);
            lemma_differences(mul2(sqr2(l), zz), mul2(a, zz), zz);
            lemma_product_with_difference(sub2(sqr2(l), a), a, zz);
            lemma_product_with_difference(sqr2(l), a, zz);
            assert(t.x == mul2(s.x, zz));
            lemma_ordinate(l, a, b, s.x, z3);
            lemma_affine_unique2(t, s.x, s.y);
        }
    }
}

/// Of the points `(a1 z1^2, b1 z1^3, z1)` and `(a2 z2^2, b2 z2^3, z2)`, what
/// makes their abscissas and ordinates comparable, with `z = z1 z2`.
proof fn lemma_shared_terms(p: Jac2, q: Jac2, a1: Ext2, b1: Ext2)
    requires
        p.x == mul2(a1, sqr2(p.z)),
        p.y == mul2(b1, cube2(p.z)),
    ensures
        mul2(p.x, sqr2(q.z)) == mul2(a1, sqr2(mul2(p.z, q.z))),
        mul2(p.y, cube2(q.z)) == mul2(b1, cube2(mul2(p.z, q.z))),
{
    lemma_cube_product(p.z, q.z);
    lemma_mul2_associates(a1, sqr2(p.z), sqr2(q.z));
    lemma_mul2_associates(b1, cube2(p.z), cube2(q.z));
}

/// The terms of the formula of a chord by the third coordinate `z h` of its
/// result, where `h = d z^2` for the difference `d` of the abscissas.
proof fn lemma_chord_terms(a1: Ext2, b1: Ext2, d: Ext2, l: Ext2, z: Ext2, h: Ext2, z3: Ext2)
    requires
        h == mul2(d, sqr2(z)),
        z3 == mul2(z, h),
    ensures
        mul2(mul2(l, d), cube2(z)) == mul2(l, z3),
        mul2(mul2(a1, sqr2(z)), sqr2(h)) == mul2(a1, sqr2(z3)),
        mul2(h, sqr2(h)) == mul2(d, sqr2(z3)),
        mul2(mul2(b1, cube2(z)), mul2(h, sqr2(h))) == mul2(b1, cube2(z3)),
        z3 == mul2(d, cube2(z)),
{
    // z3 = d z^3
    lemma_mul2_commutes(z, h);
    lemma_mul2_associates(d, sqr2(z), z);
    lemma_mul2_associates(l, d, cube2(z));
    // z3^2 = z^2 h^2
    lemma_cube_product(z, h);
    lemma_mul2_associates(a1, sqr2(z), sqr2(h));
    lemma_mul2_associates(d, sqr2(z), sqr2(h));
    // z3^3 = z^3 h^3
    lemma_mul2_commutes(h, sqr2(h));
    lemma_mul2_associates(b1, cube2(z), cube2(h));
}

/// The formula of a chord adds points of the twist that are neither equal nor at
/// infinity.
proof fn lemma_chord2(p: Jac2, q: Jac2)
    requires
        reduced_jac2(p),
        reduced_jac2(q),
        p.z != zero2(),
        q.z != zero2(),
        to_affine2(p) != to_affine2(q),
    ensures
        reduced_jac2(chord2(p, q)),
        to_affine2(chord2(p, q)) == sum2(to_affine2(p), to_affine2(q)),
{
    broadcast use crate::math::tower::group_reduced2;

    reveal(chord2);
    lemma_constants();
    let t = chord2(p, q);
    let (a1, b1, a2, b2) = (affine2(p).x, affine2(p).y, affine2(q).x, affine2(q).y);
    let (z, d, e) = (mul2(p.z, q.z), sub2(a1, a2), sub2(b1, b2));
    let l = chord_slope2(a1, b1, a2, b2);
    let h = mul2(d, sqr2(z));
    let z3 = t.z;
    lemma_affine_multiples2(p);
    lemma_affine_multiples2(q);
    lemma_shared_terms(p, q, a1, b1);
    lemma_shared_terms(q, p, a2, b2);
    lemma_mul2_commutes(p.z, q.z);
    lemma_product_with_difference(a1, a2, sqr2(z));
    lemma_product_with_difference(b1, b2, cube2(z));
    lemma_chord_terms(a1, b1, d, l, z, h, z3);
    if a1 == a2 {
        assert(d == zero2()) by {
            reveal(sub2);
            lemma_fsub_zero(a1.c0, a2.c0);
            lemma_fsub_zero(a1.c1, a2.c1);
        }
        lemma_mul2_zero(cube2(z));
    } else {
        lemma_chord_slope2(a1, b1, a2, b2);
        if z3 == zero2() {
            lemma_no_zero_divisors2(d, cube2(z));
            if z == zero2() {
                lemma_no_zero_divisors2(p.z, q.z);
            }
            lemma_powers_not_zero(z);
        }
        let s = third_point2(l, a1, b1, a2);
        let zz = sqr2(z3);
        // x3 = l^2 z3^2 + (a1 - a2) z3^2 - 2 a1 z3^2
        lemma_cube_product(l, z3);
        lemma_product_with_difference(a1, a2, zz);
        lemma_differences(mul2(sqr2(l), zz), mul2(a1, zz), mul2(a2, zz));
        lemma_product_with_difference(sub2(sqr2(l), a1), a2, zz);
        lemma_product_with_difference(sqr2(l), a1, zz);
        assert(t.x == mul2(s.x, zz));
        lemma_ordinate(l, a1, b1, s.x, z3);
        lemma_affine_unique2(t, s.x, s.y);
    }
}

/// Points of the twist that are not at infinity are equal where their affine
/// forms are.
pub proof fn lemma_same_point2(p: Jac2, q: Jac2)
    requires
        reduced_jac2(p),
        reduced_jac2(q),
        p.z != zero2(),
        q.z != zero2(),
    ensures
        same_point2(p, q) <==> to_affine2(p) == to_affine2(q),
{
    broadcast use crate::math::tower::group_reduced2;

    reveal(same_point2);
    let (a1, b1, a2, b2) = (affine2(p).x, affine2(p).y, affine2(q).x, affine2(q).y);
    let z = mul2(p.z, q.z);
    lemma_affine_multiples2(p);
    lemma_affine_multiples2(q);
    lemma_shared_terms(p, q, a1, b1);
    lemma_shared_terms(q, p, a2, b2);
    lemma_mul2_commutes(p.z, q.z);
    if z == zero2() {
        lemma_no_zero_divisors2(p.z, q.z);
    }
    lemma_powers_not_zero(z);
    if same_point2(p, q) {
        lemma_cancel2(sqr2(z), a1, a2);
        lemma_cancel2(cube2(z), b1, b2);
    }
}

/// Addition in Jacobian coordinates is the addition of the twist's points: the
/// affine form of the sum is `(l^2 - x1 - x2, l (x1 - x3) - y1)`, where `l` is the
/// slope of the chord through two points or of the tangent at one.
pub proof fn lemma_add_jac2(p: Jac2, q: Jac2)
    requires
        reduced_jac2(p),
        reduced_jac2(q),
    ensures
        reduced_jac2(add_jac2(p, q)),
        to_affine2(add_jac2(p, q)) == sum2(to_affine2(p), to_affine2(q)),
{
    if p.z != zero2() && q.z != zero2() {
        lemma_same_point2(p, q);
        if same_point2(p, q) {
            lemma_double_jac2(p);
        } else {
            lemma_chord2(p, q);
        }
    }
}

/// The square of a sum.
proof fn lemma_square_of_sum(a: Ext2, b: Ext2)
    ensures
        sqr2(add2(a, b)) == add2(add2(sqr2(a), sqr2(b)), dbl2(mul2(a, b))),
{
    let m = mul2(a, b);
    lemma_mul2_distributes(a, b, add2(a, b));
    lemma_mul2_distributes(a, b, a);
    lemma_mul2_distributes(a, b, b);
    lemma_mul2_commutes(a, b);
    lemma_add2_commutes(m, sqr2(b));
    lemma_add2_medial(sqr2(a), m, sqr2(b), m);
}

/// The terms of the cube of `a + d`, and one more.
spec fn cubic_terms(a: Ext2, d: Ext2, c: Ext2) -> Parts {
    parts(
        mul2(d, sqr2(d)),
        mul2(a, sqr2(d)),
        mul2(c, sqr2(d)),
        mul2(sqr2(a), d),
        cube2(a),
    )
}

/// `(a^2 + 2 a d + d^2) a`.
proof fn lemma_cubic_first(q: Ext2, a: Ext2, d: Ext2, c: Ext2)
    requires
        is_mix(q, counts(1, 2, 1, 0, 0), three_parts(sqr2(a), mul2(a, d), sqr2(d))),
    ensures
        is_mix(mul2(q, a), counts(0, 1, 0, 2, 1), cubic_terms(a, d, c)),
{
    lemma_mix_times(
        q,
        counts(1, 2, 1, 0, 0),
        three_parts(sqr2(a), mul2(a, d), sqr2(d)),
        a,
    );
    lemma_mul2_commutes(mul2(a, d), a);
    lemma_mul2_associates(a, a, d);
    lemma_mul2_commutes(sqr2(d), a);
}

/// `(a^2 + 2 a d + d^2) d`.
proof fn lemma_cubic_second(q: Ext2, a: Ext2, d: Ext2, c: Ext2)
    requires
        is_mix(q, counts(1, 2, 1, 0, 0), three_parts(sqr2(a), mul2(a, d), sqr2(d))),
    ensures
        is_mix(mul2(q, d), counts(1, 2, 0, 1, 0), cubic_terms(a, d, c)),
{
    lemma_mix_times(
        q,
        counts(1, 2, 1, 0, 0),
        three_parts(sqr2(a), mul2(a, d), sqr2(d)),
        d,
    );
    lemma_mul2_associates(a, d, d);
    lemma_mul2_commutes(sqr2(d), d);
}

/// The cube of a sum: `d^3 + 3 a d^2 + 3 a^2 d + a^3`.
proof fn lemma_cube_of_sum(a: Ext2, d: Ext2, c: Ext2)
    ensures
        is_mix(cube2(add2(a, d)), counts(1, 3, 0, 3, 1), cubic_terms(a, d, c)),
{
    let s = add2(a, d);
    let q = sqr2(s);
    lemma_mix_parts(two_parts(a, d));
    lemma_mix_sums(a, counts(1, 0, 0, 0, 0), d, counts(0, 1, 0, 0, 0), two_parts(a, d));
    lemma_mix_product(s, 1, 1, s, 1, 1, a, d);
    lemma_cubic_first(q, a, d, c);
    lemma_cubic_second(q, a, d, c);
    lemma_mix_sums(
        mul2(q, a),
        counts(0, 1, 0, 2, 1),
        mul2(q, d),
        counts(1, 2, 0, 1, 0),
        cubic_terms(a, d, c),
    );
    lemma_mul2_distributes(a, d, q);
}

/// The square of the slope by `d = x3 - a1`: `d + 2 a1 + a2`.
proof fn lemma_slope_square(l: Ext2, a1: Ext2, a2: Ext2)
    ensures
        ({
            let d = sub2(sub2(sub2(sqr2(l), a1), a2), a1);
            &&& is_mix(d, counts(1, -2, -1, 0, 0), three_parts(sqr2(l), a1, a2))
            &&& is_mix(
                sqr2(l),
                counts(1, 2, 1, 0, 0),
                parts(d, a1, a2, sqr2(l), sqr2(l)),
            )
        }),
{
    let q = sqr2(l);
    let m = three_parts(q, a1, a2);
    let (e, f) = (sub2(q, a1), sub2(sub2(q, a1), a2));
    let d = sub2(f, a1);
    lemma_mix_parts(m);
    lemma_mix_sums(q, counts(1, 0, 0, 0, 0), a1, counts(0, 1, 0, 0, 0), m);
    assert(is_mix(e, counts(1, -1, 0, 0, 0), m));
    lemma_mix_sums(e, counts(1, -1, 0, 0, 0), a2, counts(0, 0, 1, 0, 0), m);
    assert(is_mix(f, counts(1, -1, -1, 0, 0), m));
    lemma_mix_sums(f, counts(1, -1, -1, 0, 0), a1, counts(0, 1, 0, 0, 0), m);
    assert(is_mix(d, counts(1, -2, -1, 0, 0), m));
    lemma_mix_solved(d, counts(1, -2, -1, 0, 0), m);
}

/// Sums in another order.
proof fn lemma_rearranged(u: Ext2, e: Ext2, k: Ext2, n: Ext2)
    ensures
        add2(add2(u, add2(e, k)), n) == add2(add2(add2(u, n), e), k),
{
    let (u0, u1, e0, e1) = (u.c0 as int, u.c1 as int, e.c0 as int, e.c1 as int);
    let (k0, k1, n0, n1) = (k.c0 as int, k.c1 as int, n.c0 as int, n.c1 as int);
    lemma_stands_add2(e, e0, e1, k, k0, k1);
    lemma_stands_add2(u, u0, u1, add2(e, k), e0 + k0, e1 + k1);
    lemma_stands_add2(add2(u, add2(e, k)), u0 + e0 + k0, u1 + e1 + k1, n, n0, n1);
    lemma_stands_add2(u, u0, u1, n, n0, n1);
    lemma_stands_add2(add2(u, n), u0 + n0, u1 + n1, e, e0, e1);
    lemma_stands_add2(add2(add2(u, n), e), u0 + n0 + e0, u1 + n1 + e1, k, k0, k1);
    lemma_stands_same2(
        add2(add2(u, add2(e, k)), n),
        add2(add2(add2(u, n), e), k),
        u0 + e0 + k0 + n0,
        u1 + e1 + k1 + n1,
    );
}

/// The mirrored ordinate is the negative of `l d + b1`, and has the same square.
proof fn lemma_mirrored(l: Ext2, a1: Ext2, b1: Ext2, x: Ext2)
    ensures
        sqr2(sub2(mul2(l, sub2(a1, x)), b1)) == sqr2(add2(mul2(l, sub2(x, a1)), b1)),
{
    broadcast use crate::math::tower::group_reduced2;

    let d = sub2(x, a1);
    let (m, e) = (mul2(l, d), sub2(a1, x));
    let y = add2(m, b1);
    let (x0, x1, a0, c0) = (x.c0 as int, x.c1 as int, a1.c0 as int, a1.c1 as int);
    lemma_stands_sub2(x, x0, x1, a1, a0, c0);
    lemma_stands_sub2(a1, a0, c0, x, x0, x1);
    lemma_stands_neg2(d, x0 - a0, x1 - c0);
    lemma_stands_same2(e, neg2(d), a0 - x0, c0 - x1);
    lemma_mul2_neg(l, d);
    let (m0, m1, b0, d0) = (m.c0 as int, m.c1 as int, b1.c0 as int, b1.c1 as int);
    lemma_stands_neg2(m, m0, m1);
    lemma_stands_sub2(neg2(m), -m0, -m1, b1, b0, d0);
    lemma_stands_add2(m, m0, m1, b1, b0, d0);
    lemma_stands_neg2(y, m0 + b0, m1 + d0);
    lemma_stands_same2(sub2(neg2(m), b1), neg2(y), -m0 - b0, -m1 - d0);
    // the square of the negative
    let q = sqr2(y);
    lemma_mul2_neg(y, neg2(y));
    lemma_mul2_neg(y, y);
    lemma_stands_neg2(q, q.c0 as int, q.c1 as int);
    lemma_stands_neg2(neg2(q), -(q.c0 as int), -(q.c1 as int));
    lemma_stands_same2(neg2(neg2(q)), q, q.c0 as int, q.c1 as int);
}

/// The mirrored third point of a line through a point of `y^2 = x^3 + k` with
/// slope `l` is on the same curve, where what is left of the equation holds:
/// `2 l b1 = 3 a1^2 + (a1 - a2) (x3 - a1)`.
proof fn lemma_third_on_curve(l: Ext2, a1: Ext2, b1: Ext2, a2: Ext2, k: Ext2)
    requires
        sqr2(b1) == add2(cube2(a1), k),
        dbl2(mul2(l, b1)) == add2(
            triple2(sqr2(a1)),
            mul2(sub2(a1, a2), sub2(third_point2(l, a1, b1, a2).x, a1)),
        ),
    ensures
        sqr2(third_point2(l, a1, b1, a2).y) == add2(cube2(third_point2(l, a1, b1, a2).x), k),
{
    broadcast use crate::math::tower::group_reduced2;

    let x = third_point2(l, a1, b1, a2).x;
    let (d, h, ll, aa) = (sub2(x, a1), sub2(a1, a2), sqr2(l), sqr2(a1));
    let (dd, n, e) = (sqr2(d), dbl2(mul2(l, b1)), cube2(a1));
    let m = cubic_terms(a1, d, a2);
    lemma_mix_parts(m);
    // l^2 d^2
    let u = mul2(ll, dd);
    lemma_slope_square(l, a1, a2);
    lemma_mix_times(ll, counts(1, 2, 1, 0, 0), parts(d, a1, a2, ll, ll), dd);
    assert(is_mix(u, counts(1, 2, 1, 0, 0), m));
    // 2 l b1 d
    let (nd, t, g) = (mul2(n, d), triple2(m.d), sub2(m.b, m.c));
    lemma_mul2_distributes(triple2(aa), mul2(h, d), d);
    lemma_multiples(aa, d);
    lemma_mul2_associates(h, d, d);
    lemma_product_with_difference(a1, a2, dd);
    assert(nd == add2(t, g));
    lemma_mix_sums(m.d, counts(0, 0, 0, 1, 0), m.d, counts(0, 0, 0, 1, 0), m);
    assert(is_mix(t, counts(0, 0, 0, 3, 0), m));
    lemma_mix_sums(m.b, counts(0, 1, 0, 0, 0), m.c, counts(0, 0, 1, 0, 0), m);
    assert(is_mix(g, counts(0, 1, -1, 0, 0), m));
    lemma_mix_sums(t, counts(0, 0, 0, 3, 0), g, counts(0, 1, -1, 0, 0), m);
    assert(is_mix(nd, counts(0, 1, -1, 3, 0), m));
    // x3^3
    let w = add2(u, nd);
    lemma_mix_sums(u, counts(1, 2, 1, 0, 0), nd, counts(0, 1, -1, 3, 0), m);
    assert(is_mix(w, counts(1, 3, 0, 3, 0), m));
    lemma_mix_sums(w, counts(1, 3, 0, 3, 0), e, counts(0, 0, 0, 0, 1), m);
    lemma_cube_of_sum(a1, d, a2);
    assert(add2(a1, d) == x) by {
        let (x0, x1, a0, c0) = (x.c0 as int, x.c1 as int, a1.c0 as int, a1.c1 as int);
        lemma_stands_sub2(x, x0, x1, a1, a0, c0);
        lemma_stands_add2(a1, a0, c0, d, x0 - a0, x1 - c0);
        lemma_stands_same2(add2(a1, d), x, x0, x1);
    }
    lemma_mix_same(cube2(x), add2(w, e), counts(1, 3, 0, 3, 1), m);
    // y3^2
    let ld = mul2(l, d);
    lemma_mirrored(l, a1, b1, x);
    lemma_square_of_sum(ld, b1);
    lemma_cube_product(l, d);
    assert(dbl2(mul2(ld, b1)) == nd) by {
        lemma_mul2_associates(l, d, b1);
        lemma_mul2_commutes(d, b1);
        lemma_mul2_associates(l, b1, d);
        lemma_multiples(mul2(l, b1), d);
    }
    lemma_rearranged(u, e, k, nd);
}

/// What the slope of a chord of `y^2 = x^3 + k` is to the ordinates:
/// `(2 l b1 - l^2 h) h = b1^2 - b2^2` for `h = a1 - a2`.
proof fn lemma_chord_left(l: Ext2, h: Ext2, b1: Ext2, b2: Ext2)
    requires
        mul2(l, h) == sub2(b1, b2),
    ensures
        mul2(sub2(dbl2(mul2(l, b1)), mul2(sqr2(l), h)), h) == sub2(sqr2(b1), sqr2(b2)),
{
    broadcast use crate::math::tower::group_reduced2;

    let (n, m, lb) = (dbl2(mul2(l, b1)), mul2(l, h), mul2(l, b1));
    let lh = mul2(sqr2(l), h);
    lemma_product_with_difference(n, lh, h);
    // 2 l b1 h = 2 m b1
    let mb = mul2(m, b1);
    lemma_multiples(lb, h);
    lemma_mul2_associates(l, b1, h);
    lemma_mul2_commutes(b1, h);
    lemma_mul2_associates(l, h, b1);
    // l^2 h h = m^2
    lemma_mul2_associates(sqr2(l), h, h);
    lemma_cube_product(l, h);
    // 2 (b1 - b2) b1 - (b1 - b2)^2 = b1^2 - b2^2
    let two = two_parts(b1, b2);
    let three = three_parts(sqr2(b1), mul2(b1, b2), sqr2(b2));
    lemma_mix_parts(two);
    lemma_mix_parts(three);
    lemma_mix_sums(b1, counts(1, 0, 0, 0, 0), b2, counts(0, 1, 0, 0, 0), two);
    assert(is_mix(m, counts(1, -1, 0, 0, 0), two));
    lemma_mix_product(m, 1, -1, b1, 1, 0, b1, b2);
    lemma_mix_product(m, 1, -1, m, 1, -1, b1, b2);
    assert(is_mix(mb, counts(1, -1, 0, 0, 0), three));
    assert(is_mix(sqr2(m), counts(1, -2, 1, 0, 0), three));
    let c = counts(1, -1, 0, 0, 0);
    lemma_mix_sums(mb, c, mb, c, three);
    assert(is_mix(dbl2(mb), counts(2, -2, 0, 0, 0), three));
    lemma_mix_sums(
        dbl2(mb),
        counts(2, -2, 0, 0, 0),
        sqr2(m),
        counts(1, -2, 1, 0, 0),
        three,
    );
    lemma_mix_sums(
        sqr2(b1),
        counts(1, 0, 0, 0, 0),
        sqr2(b2),
        counts(0, 0, 1, 0, 0),
        three,
    );
    assert(is_mix(sub2(dbl2(mb), sqr2(m)), counts(1, 0, -1, 0, 0), three));
    assert(is_mix(sub2(sqr2(b1), sqr2(b2)), counts(1, 0, -1, 0, 0), three));
    lemma_mix_same(
        sub2(dbl2(mb), sqr2(m)),
        sub2(sqr2(b1), sqr2(b2)),
        counts(1, 0, -1, 0, 0),
        three,
    );
}

/// The difference of two cubes: `(a^2 + a b + b^2) (a - b)`.
proof fn lemma_difference_of_cubes(a: Ext2, b: Ext2)
    ensures
        mul2(add2(add2(sqr2(a), mul2(a, b)), sqr2(b)), sub2(a, b)) == sub2(cube2(a), cube2(b)),
{
    broadcast use crate::math::tower::group_reduced2;

    let (aa, ab, bb) = (sqr2(a), mul2(a, b), sqr2(b));
    let r = add2(add2(aa, ab), bb);
    let m = four_parts(cube2(a), mul2(aa, b), mul2(a, bb), cube2(b));
    let three = three_parts(aa, ab, bb);
    lemma_mix_parts(three);
    lemma_mix_sums(aa, counts(1, 0, 0, 0, 0), ab, counts(0, 1, 0, 0, 0), three);
    assert(is_mix(add2(aa, ab), counts(1, 1, 0, 0, 0), three));
    lemma_mix_sums(add2(aa, ab), counts(1, 1, 0, 0, 0), bb, counts(0, 0, 1, 0, 0), three);
    assert(is_mix(r, counts(1, 1, 1, 0, 0), three));
    let (x, y) = (mul2(r, a), mul2(r, b));
    lemma_mix_times(r, counts(1, 1, 1, 0, 0), three, a);
    lemma_mix_times(r, counts(1, 1, 1, 0, 0), three, b);
    // the products of the parts
    lemma_mul2_commutes(ab, a);
    lemma_mul2_associates(a, a, b);
    lemma_mul2_commutes(bb, a);
    lemma_mul2_associates(a, b, b);
    assert(is_mix(x, counts(1, 1, 1, 0, 0), m));
    assert(is_mix(y, counts(0, 1, 1, 1, 0), m));
    lemma_mix_sums(x, counts(1, 1, 1, 0, 0), y, counts(0, 1, 1, 1, 0), m);
    assert(is_mix(sub2(x, y), counts(1, 0, 0, -1, 0), m));
    lemma_mul2_commutes(r, sub2(a, b));
    lemma_product_with_difference(a, b, r);
    lemma_mul2_commutes(a, r);
    lemma_mul2_commutes(b, r);
    lemma_mix_parts(m);
    lemma_mix_sums(m.a, counts(1, 0, 0, 0, 0), m.d, counts(0, 0, 0, 1, 0), m);
    assert(is_mix(sub2(m.a, m.d), counts(1, 0, 0, -1, 0), m));
    lemma_mix_same(sub2(x, y), sub2(m.a, m.d), counts(1, 0, 0, -1, 0), m);
}

/// A constant that is added on both sides drops out of the difference.
proof fn lemma_shared_constant(a: Ext2, b: Ext2, k: Ext2)
    ensures
        sub2(add2(a, k), add2(b, k)) == sub2(a, b),
{
    let (a0, a1, b0, b1) = (a.c0 as int, a.c1 as int, b.c0 as int, b.c1 as int);
    let (k0, k1) = (k.c0 as int, k.c1 as int);
    lemma_stands_add2(a, a0, a1, k, k0, k1);
    lemma_stands_add2(b, b0, b1, k, k0, k1);
    lemma_stands_sub2(add2(a, k), a0 + k0, a1 + k1, add2(b, k), b0 + k0, b1 + k1);
    lemma_stands_sub2(a, a0, a1, b, b0, b1);
    lemma_stands_same2(sub2(add2(a, k), add2(b, k)), sub2(a, b), a0 - b0, a1 - b1);
}

/// What is left of the equation for a chord.
proof fn lemma_chord_on_curve(l: Ext2, a1: Ext2, b1: Ext2, a2: Ext2, b2: Ext2, k: Ext2)
    requires
        sub2(a1, a2) != zero2(),
        mul2(l, sub2(a1, a2)) == sub2(b1, b2),
        sqr2(b1) == add2(cube2(a1), k),
        sqr2(b2) == add2(cube2(a2), k),
    ensures
        dbl2(mul2(l, b1)) == add2(
            triple2(sqr2(a1)),
            mul2(sub2(a1, a2), sub2(third_point2(l, a1, b1, a2).x, a1)),
        ),
{
    broadcast use crate::math::tower::group_reduced2;

    let (h, n, lh) = (sub2(a1, a2), dbl2(mul2(l, b1)), mul2(sqr2(l), sub2(a1, a2)));
    let (aa, ac, cc) = (sqr2(a1), mul2(a1, a2), sqr2(a2));
    let (left, right) = (sub2(n, lh), add2(add2(aa, ac), cc));
    lemma_chord_left(l, h, b1, b2);
    lemma_shared_constant(cube2(a1), cube2(a2), k);
    lemma_difference_of_cubes(a1, a2);
    lemma_cancel2(h, left, right);
    // n = right + l^2 h
    assert(n == add2(right, lh)) by {
        let (n0, n1, c0, c1) = (n.c0 as int, n.c1 as int, lh.c0 as int, lh.c1 as int);
        lemma_stands_sub2(n, n0, n1, lh, c0, c1);
        lemma_stands_add2(left, n0 - c0, n1 - c1, lh, c0, c1);
        lemma_stands_same2(n, add2(left, lh), n0, n1);
    }
    // h (l^2 - 2 a1 - a2) = l^2 h - 2 a1^2 + a1 a2 + a2^2
    let m = four_parts(lh, aa, ac, cc);
    let d = sub2(third_point2(l, a1, b1, a2).x, a1);
    let (p, q) = (mul2(a1, h), mul2(a2, h));
    lemma_slope_square(l, a1, a2);
    lemma_mix_times(d, counts(1, -2, -1, 0, 0), three_parts(sqr2(l), a1, a2), h);
    lemma_mix_parts(m);
    lemma_mul2_commutes(a1, h);
    lemma_mul2_commutes(a2, h);
    lemma_product_with_difference(a1, a2, a1);
    lemma_product_with_difference(a1, a2, a2);
    lemma_mul2_commutes(a2, a1);
    lemma_mix_sums(aa, counts(0, 1, 0, 0, 0), ac, counts(0, 0, 1, 0, 0), m);
    assert(is_mix(p, counts(0, 1, -1, 0, 0), m));
    lemma_mix_sums(ac, counts(0, 0, 1, 0, 0), cc, counts(0, 0, 0, 1, 0), m);
    assert(is_mix(q, counts(0, 0, 1, -1, 0), m));
    let one = counts(1, 0, 0, 0, 0);
    lemma_mix_of_mixes(
        mul2(d, h),
        counts(1, -2, -1, 0, 0),
        three_parts(lh, p, q),
        m,
        one,
        counts(0, 1, -1, 0, 0),
        counts(0, 0, 1, -1, 0),
        one,
        one,
    );
    assert(is_mix(mul2(d, h), counts(1, -2, 1, 1, 0), m));
    lemma_mul2_commutes(d, h);
    let ca = counts(0, 1, 0, 0, 0);
    lemma_mix_sums(aa, ca, aa, ca, m);
    assert(is_mix(triple2(aa), counts(0, 3, 0, 0, 0), m));
    lemma_mix_sums(triple2(aa), counts(0, 3, 0, 0, 0), mul2(h, d), counts(1, -2, 1, 1, 0), m);
    let sum = add2(triple2(aa), mul2(h, d));
    assert(is_mix(sum, counts(1, 1, 1, 1, 0), m));
    assert(is_mix(add2(aa, ac), counts(0, 1, 1, 0, 0), m));
    lemma_mix_sums(add2(aa, ac), counts(0, 1, 1, 0, 0), cc, counts(0, 0, 0, 1, 0), m);
    assert(is_mix(right, counts(0, 1, 1, 1, 0), m));
    lemma_mix_sums(right, counts(0, 1, 1, 1, 0), lh, one, m);
    assert(is_mix(n, counts(1, 1, 1, 1, 0), m));
    lemma_mix_same(n, sum, counts(1, 1, 1, 1, 0), m);
}

/// Whether an affine point is on the curve `y^2 = x^3 + k`, or at infinity.
pub open spec fn is_on(p: Aff2, k: Ext2) -> bool {
    p.infinity || sqr2(p.y) == add2(cube2(p.x), k)
}

pub open spec fn reduced_aff2(p: Aff2) -> bool {
    reduced2(p.x) && reduced2(p.y)
}

/// The sum of two points of a curve `y^2 = x^3 + k` is one of its points.
pub proof fn lemma_sum_stays(p: Aff2, q: Aff2, k: Ext2)
    requires
        reduced_aff2(p),
        reduced_aff2(q),
        is_on(p, k),
        is_on(q, k),
    ensures
        reduced_aff2(sum2(p, q)),
        is_on(sum2(p, q), k),
{
    broadcast use crate::math::tower::group_reduced2;

    lemma_constants();
    if !p.infinity && !q.infinity {
        if p.x != q.x {
            let l = chord_slope2(p.x, p.y, q.x, q.y);
            lemma_chord_slope2(p.x, p.y, q.x, q.y);
            lemma_chord_on_curve(l, p.x, p.y, q.x, q.y, k);
            lemma_third_on_curve(l, p.x, p.y, q.x, k);
        } else if p.y == q.y && p.y != zero2() {
            let l = tangent_slope2(p.x, p.y);
            let t = triple2(sqr2(p.x));
            let d = sub2(third_point2(l, p.x, p.y, p.x).x, p.x);
            lemma_tangent_slope2(p.x, p.y);
            lemma_mul2_commutes(l, p.y);
            lemma_mul2_commutes(l, dbl2(p.y));
            lemma_multiples(p.y, l);
            assert(sub2(p.x, p.x) == zero2()) by {
                reveal(sub2);
                lemma_fsub_zero(p.x.c0, p.x.c0);
                lemma_fsub_zero(p.x.c1, p.x.c1);
            }
            lemma_mul2_zero(d);
            lemma_add2_zero(t);
            lemma_third_on_curve(l, p.x, p.y, p.x, k);
        }
    }
}

/// The sum of two points of the twist is one of its points.
pub proof fn lemma_sum_on_twist(p: Aff2, q: Aff2)
    requires
        reduced_aff2(p),
        reduced_aff2(q),
        p.infinity || on_curve2(p),
        q.infinity || on_curve2(q),
    ensures
        reduced_aff2(sum2(p, q)),
        sum2(p, q).infinity || on_curve2(sum2(p, q)),
{
    lemma_sum_stays(p, q, coeff_b2());
}

/// The order of the two points of a sum makes no difference.
pub proof fn lemma_sum_commutes2(p: Aff2, q: Aff2)
    requires
        reduced_aff2(p),
        reduced_aff2(q),
        !p.infinity || !q.infinity,
    ensures
        sum2(p, q) == sum2(q, p),
{
    broadcast use crate::math::tower::group_reduced2;

    if !p.infinity && !q.infinity && p.x != q.x {
        let (a1, b1, a2, b2) = (p.x, p.y, q.x, q.y);
        let (l, m) = (chord_slope2(a1, b1, a2, b2), chord_slope2(a2, b2, a1, b1));
        let (h, r) = (sub2(a1, a2), sub2(b1, b2));
        lemma_chord_slope2(a1, b1, a2, b2);
        lemma_chord_slope2(a2, b2, a1, b1);
        // both slopes times a1 - a2 are b1 - b2
        lemma_opposite_difference(a1, a2);
        lemma_opposite_difference(b1, b2);
        lemma_mul2_neg(m, h);
        lemma_negatives(mul2(m, h), r);
        lemma_cancel2(h, l, m);
        // l (a1 - x) - b1 = l (a2 - x) - b2
        let (s, t) = (third_point2(l, a1, b1, a2), third_point2(l, a2, b2, a1));
        lemma_swapped(sqr2(l), a1, a2);
        let x = s.x;
        lemma_mul2_commutes(l, h);
        lemma_mul2_commutes(l, sub2(a1, x));
        lemma_mul2_commutes(l, sub2(a2, x));
        lemma_product_with_difference(a1, a2, l);
        lemma_product_with_difference(a1, x, l);
        lemma_product_with_difference(a2, x, l);
        lemma_balanced(mul2(a1, l), mul2(a2, l), mul2(x, l), b1, b2);
    }
}

proof fn lemma_opposite_difference(a: Ext2, b: Ext2)
    ensures
        sub2(b, a) == neg2(sub2(a, b)),
{
    let (a0, a1, b0, b1) = (a.c0 as int, a.c1 as int, b.c0 as int, b.c1 as int);
    lemma_stands_sub2(a, a0, a1, b, b0, b1);
    lemma_stands_sub2(b, b0, b1, a, a0, a1);
    lemma_stands_neg2(sub2(a, b), a0 - b0, a1 - b1);
    lemma_stands_same2(sub2(b, a), neg2(sub2(a, b)), b0 - a0, b1 - a1);
}

/// Elements with the same negative.
proof fn lemma_negatives(a: Ext2, b: Ext2)
    requires
        reduced2(a),
        reduced2(b),
        neg2(a) == neg2(b),
    ensures
        a == b,
{
    reveal(neg2);
    lemma_fneg_neg(a.c0);
    lemma_fneg_neg(a.c1);
    lemma_fneg_neg(b.c0);
    lemma_fneg_neg(b.c1);
}

proof fn lemma_swapped(q: Ext2, a: Ext2, b: Ext2)
    ensures
        sub2(sub2(q, a), b) == sub2(sub2(q, b), a),
{
    let (a0, a1, b0, b1) = (a.c0 as int, a.c1 as int, b.c0 as int, b.c1 as int);
    let (q0, q1) = (q.c0 as int, q.c1 as int);
    lemma_stands_sub2(q, q0, q1, a, a0, a1);
    lemma_stands_sub2(q, q0, q1, b, b0, b1);
    lemma_stands_sub2(sub2(q, a), q0 - a0, q1 - a1, b, b0, b1);
    lemma_stands_sub2(sub2(q, b), q0 - b0, q1 - b1, a, a0, a1);
    lemma_stands_same2(
        sub2(sub2(q, a), b),
        sub2(sub2(q, b), a),
        q0 - a0 - b0,
        q1 - a1 - b1,
    );
}

/// Of `u - v = b - c`, the same differences.
proof fn lemma_balanced(u: Ext2, v: Ext2, x: Ext2, b: Ext2, c: Ext2)
    requires
        sub2(u, v) == sub2(b, c),
    ensures
        sub2(sub2(u, x), b) == sub2(sub2(v, x), c),
{
    let m = parts(u, v, x, b, c);
    let (d, e) = (sub2(u, v), sub2(b, c));
    lemma_mix_parts(m);
    lemma_mix_sums(u, counts(1, 0, 0, 0, 0), v, counts(0, 1, 0, 0, 0), m);
    lemma_mix_sums(b, counts(0, 0, 0, 1, 0), c, counts(0, 0, 0, 0, 1), m);
    assert(is_mix(d, counts(1, -1, 0, 0, 0), m));
    assert(is_mix(e, counts(0, 0, 0, 1, -1), m));
    lemma_mix_sums(u, counts(1, 0, 0, 0, 0), x, counts(0, 0, 1, 0, 0), m);
    let ux = sub2(u, x);
    assert(is_mix(ux, counts(1, 0, -1, 0, 0), m));
    lemma_mix_sums(ux, counts(1, 0, -1, 0, 0), d, counts(1, -1, 0, 0, 0), m);
    lemma_mix_sums(ux, counts(1, 0, -1, 0, 0), b, counts(0, 0, 0, 1, 0), m);
    lemma_mix_sums(v, counts(0, 1, 0, 0, 0), x, counts(0, 0, 1, 0, 0), m);
    let vx = sub2(v, x);
    assert(is_mix(vx, counts(0, 1, -1, 0, 0), m));
    lemma_mix_sums(vx, counts(0, 1, -1, 0, 0), c, counts(0, 0, 0, 0, 1), m);
    let (left, right) = (sub2(ux, b), sub2(vx, c));
    assert(is_mix(left, counts(1, 0, -1, -1, 0), m));
    assert(is_mix(right, counts(0, 1, -1, 0, -1), m));
    // left - right = d - e = 0
    lemma_mix_sums(left, counts(1, 0, -1, -1, 0), right, counts(0, 1, -1, 0, -1), m);
    lemma_mix_sums(d, counts(1, -1, 0, 0, 0), e, counts(0, 0, 0, 1, -1), m);
    let z = sub2(left, right);
    assert(is_mix(z, counts(1, -1, 0, -1, 1), m));
    assert(is_mix(sub2(d, e), counts(1, -1, 0, -1, 1), m));
    assert(z == zero2() && left == right) by {
        broadcast use crate::math::tower::group_reduced2;

        lemma_mix_same(z, sub2(d, e), counts(1, -1, 0, -1, 1), m);
        reveal(sub2);
        lemma_fsub_zero(d.c0, e.c0);
        lemma_fsub_zero(d.c1, e.c1);
        lemma_fsub_zero(left.c0, right.c0);
        lemma_fsub_zero(left.c1, right.c1);
    }
}

/// A line with slope `l = e / d` through `(x1, y1)` meets the twist again where the
/// slope says.
proof fn lemma_third_point2(l: Ext2, d: Ext2, e: Ext2, x1: Ext2, y1: Ext2, x2: Ext2)
    requires
        mul2(l, d) == e,
    ensures
        ({
            let s = third_point2(l, x1, y1, x2);
            &&& mul2(add2(add2(s.x, x1), x2), sqr2(d)) == sqr2(e)
            &&& mul2(add2(s.y, y1), d) == mul2(e, sub2(x1, s.x))
        }),
{
    broadcast use crate::math::tower::group_reduced2;

    let s = third_point2(l, x1, y1, x2);
    let (q, t) = (sqr2(l), sub2(x1, s.x));
    lemma_back(q, x1);
    lemma_back(sub2(q, x1), x2);
    lemma_add_swapped(s.x, x1, x2);
    lemma_mul2_medial(l, l, d, d);
    lemma_back(mul2(l, t), y1);
    lemma_mul2_associates(l, t, d);
    lemma_mul2_commutes(t, d);
    lemma_mul2_associates(l, d, t);
}

/// What is taken away and added again changes nothing.
proof fn lemma_back(a: Ext2, b: Ext2)
    requires
        reduced2(a),
    ensures
        add2(sub2(a, b), b) == a,
{
    let (a0, a1, b0, b1) = (a.c0 as int, a.c1 as int, b.c0 as int, b.c1 as int);
    lemma_stands_sub2(a, a0, a1, b, b0, b1);
    lemma_stands_add2(sub2(a, b), a0 - b0, a1 - b1, b, b0, b1);
    let s = add2(sub2(a, b), b);
    lemma_stands_same2(s, a, a0, a1);
}

proof fn lemma_add_swapped(a: Ext2, b: Ext2, c: Ext2)
    ensures
        add2(add2(a, b), c) == add2(add2(a, c), b),
{
    let (a0, a1, b0, b1) = (a.c0 as int, a.c1 as int, b.c0 as int, b.c1 as int);
    let (c0, c1) = (c.c0 as int, c.c1 as int);
    lemma_stands_add2(a, a0, a1, b, b0, b1);
    lemma_stands_add2(add2(a, b), a0 + b0, a1 + b1, c, c0, c1);
    lemma_stands_add2(a, a0, a1, c, c0, c1);
    lemma_stands_add2(add2(a, c), a0 + c0, a1 + c1, b, b0, b1);
    let (x, y) = (add2(add2(a, b), c), add2(add2(a, c), b));
    lemma_stands_same2(x, y, a0 + b0 + c0, a1 + b1 + c1);
}

/// The sum of two points of the twist, without division, as for the curve.
pub proof fn lemma_sum2(p: Aff2, q: Aff2)
    requires
        reduced2(p.x),
        reduced2(p.y),
        reduced2(q.x),
    ensures
        p.infinity ==> sum2(p, q) == q,
        q.infinity && !p.infinity ==> sum2(p, q) == p,
        !p.infinity && !q.infinity && p.x != q.x ==> ({
            let s = sum2(p, q);
            let (d, e) = (sub2(p.x, q.x), sub2(p.y, q.y));
            &&& !s.infinity
            &&& mul2(add2(add2(s.x, p.x), q.x), sqr2(d)) == sqr2(e)
            &&& mul2(add2(s.y, p.y), d) == mul2(e, sub2(p.x, s.x))
        }),
        !p.infinity && !q.infinity && p.x == q.x && p.y == q.y && p.y != zero2() ==> ({
            let s = sum2(p, q);
            let (d, e) = (dbl2(p.y), triple2(sqr2(p.x)));
            &&& !s.infinity
            &&& mul2(add2(add2(s.x, p.x), q.x), sqr2(d)) == sqr2(e)
            &&& mul2(add2(s.y, p.y), d) == mul2(e, sub2(p.x, s.x))
        }),
        !p.infinity && !q.infinity && p.x == q.x && (p.y != q.y || p.y == zero2()) ==> sum2(
            p,
            q,
        ).infinity,
{
    if !p.infinity && !q.infinity {
        if p.x != q.x {
            lemma_chord_slope2(p.x, p.y, q.x, q.y);
            lemma_third_point2(
                chord_slope2(p.x, p.y, q.x, q.y),
                sub2(p.x, q.x),
                sub2(p.y, q.y),
                p.x,
                p.y,
                q.x,
            );
        } else if p.y == q.y && p.y != zero2() {
            lemma_tangent_slope2(p.x, p.y);
            lemma_third_point2(
                tangent_slope2(p.x, p.y),
                dbl2(p.y),
                triple2(sqr2(p.x)),
                p.x,
                p.y,
                q.x,
            );
        }
    }
}

/// The third coordinate of a sum of points of the twist, as for the curve.
pub proof fn lemma_third_coordinate2(p: Jac2, q: Jac2)
    requires
        reduced_jac2(p),
        reduced_jac2(q),
    ensures
        p.z == zero2() ==> add_jac2(p, q) == q,
        p.z != zero2() && q.z == zero2() ==> add_jac2(p, q) == p,
        p.z != zero2() && q.z != zero2() && to_affine2(p) == to_affine2(q) ==> add_jac2(p, q)
            == double_jac2(p),
        p.z != zero2() && q.z != zero2() && to_affine2(p) != to_affine2(q) ==> add_jac2(p, q).z
            == mul2(
            mul2(p.z, q.z),
            sub2(mul2(p.x, sqr2(q.z)), mul2(q.x, sqr2(p.z))),
        ),
        double_jac2(p).z == dbl2(mul2(p.y, p.z)),
{
    reveal(chord2);
    reveal(double_jac2);
    if p.z != zero2() && q.z != zero2() {
        lemma_same_point2(p, q);
    }
}

} // verus!
