//! The points that the pairing's lines are made of stay on the twist.

use crate::math::automorphism::lemma_frob2_ring;
use crate::math::curve::{
    ate_digits, coeff_b2, jac2, line_add, line_double, line_walk, twist_q_x, twist_q_y, twist_x,
    twist_y, Jac2,
};
use crate::math::field::{fadd, fmul, lemma_constants, modulus, one_half};
use crate::math::frobenius_constants::lemma_twist_constants;
use crate::math::lines::{
    lemma_line_add_through, lemma_line_double_touches, lemma_mixed_term, lemma_multiples, line_at,
    line_at_point, on_twist,
};
use crate::math::mixture::{
    counts, counts_times, four_parts, is_mix, lemma_mix_of_mixes, lemma_mix_parts,
    lemma_mix_product, lemma_mix_quadratics, lemma_mix_same, lemma_mix_solved, lemma_mix_sums,
    lemma_mix_times, parts, parts_times, three_parts, total, two_parts,
};
use crate::math::ring::{
    lemma_mul2_associates, lemma_mul2_commutes, lemma_mul2_distributes, lemma_mul2_medial,
    lemma_mul2_neg, lemma_stands_add, lemma_stands_add2, lemma_stands_mul, lemma_stands_mul2,
    lemma_stands_neg2, lemma_stands_same, lemma_stands_same2, lemma_stands_sub2,
};
use crate::math::tower::{
    add2, dbl2, frob2, half2, lemma_mul2_one, mul2, neg2, one2, reduced2, scale2, sqr2, sub2,
    triple2, zero2, Ext2,
};
use vstd::arithmetic::div_mod::*;
use vstd::arithmetic::mul::*;
use vstd::prelude::*;

verus! {

/// The cube.
pub open spec fn cube2(a: Ext2) -> Ext2 {
    mul2(sqr2(a), a)
}

/// The square and the cube of a product.
pub proof fn lemma_cube_product(a: Ext2, b: Ext2)
    ensures
        sqr2(mul2(a, b)) == mul2(sqr2(a), sqr2(b)),
        cube2(mul2(a, b)) == mul2(cube2(a), cube2(b)),
{
    lemma_mul2_medial(a, b, a, b);
    lemma_mul2_medial(sqr2(a), sqr2(b), a, b);
}

proof fn lemma_halves(a: nat)
    requires
        a < modulus(),
    ensures
        fadd(fmul(a, one_half()), fmul(a, one_half())) == a,
{
    lemma_constants();
    let (x, h, p) = (a as int, one_half() as int, modulus() as int);
    lemma_stands_mul(a, x, one_half(), h);
    lemma_stands_add(fmul(a, one_half()), x * h, fmul(a, one_half()), x * h);
    assert(x * h + x * h == x * p + x) by (nonlinear_arith)
        requires
            2 * h == p + 1,
    ;
    lemma_mod_multiples_vanish(x, x, p);
    lemma_mul_is_commutative(x, p);
    lemma_stands_same(fadd(fmul(a, one_half()), fmul(a, one_half())), a, x);
}

/// Twice the half.
proof fn lemma_half2(a: Ext2)
    requires
        reduced2(a),
    ensures
        dbl2(half2(a)) == a,
{
    reveal(add2);
    reveal(scale2);
    lemma_halves(a.c0);
    lemma_halves(a.c1);
}

proof fn lemma_same_doubles(a: nat, b: nat)
    requires
        a < modulus(),
        b < modulus(),
        fadd(a, a) == fadd(b, b),
    ensures
        a == b,
{
    lemma_constants();
    let (h, p) = (one_half() as int, modulus() as int);
    let (x, y) = (a as int, b as int);
    lemma_stands_add(a, x, a, x);
    lemma_stands_add(b, y, b, y);
    lemma_stands_mul(fadd(a, a), x + x, one_half(), h);
    lemma_stands_mul(fadd(b, b), y + y, one_half(), h);
    assert((x + x) * h == x * p + x) by (nonlinear_arith)
        requires
            2 * h == p + 1,
    ;
    assert((y + y) * h == y * p + y) by (nonlinear_arith)
        requires
            2 * h == p + 1,
    ;
    lemma_mul_is_commutative(x, p);
    lemma_mul_is_commutative(y, p);
    lemma_mod_multiples_vanish(x, x, p);
    lemma_mod_multiples_vanish(y, y, p);
    lemma_small_mod(a, modulus());
    lemma_small_mod(b, modulus());
}

/// What has the same double is the same.
proof fn lemma_same_doubles2(a: Ext2, b: Ext2)
    requires
        reduced2(a),
        reduced2(b),
        dbl2(a) == dbl2(b),
    ensures
        a == b,
{
    reveal(add2);
    lemma_same_doubles(a.c0, b.c0);
    lemma_same_doubles(a.c1, b.c1);
}

proof fn lemma_reduced(a: Ext2, b: Ext2)
    ensures
        reduced2(add2(a, b)),
        reduced2(sub2(a, b)),
        reduced2(mul2(a, b)),
{
    let (a0, a1, b0, b1) = (a.c0 as int, a.c1 as int, b.c0 as int, b.c1 as int);
    lemma_stands_add2(a, a0, a1, b, b0, b1);
    lemma_stands_sub2(a, a0, a1, b, b0, b1);
    lemma_stands_mul2(a, a0, a1, b, b0, b1);
}

/// The square of `b^2 + 18 b u - 27 u^2` is `(b - u) (b - 9 u)^3 + 64 b^3 u`.
proof fn lemma_quartics(b: Ext2, u: Ext2, v: Ext2, s: Ext2, w: Ext2)
    requires
        is_mix(v, counts(1, 18, -27, 0, 0), three_parts(sqr2(b), mul2(b, u), sqr2(u))),
        is_mix(s, counts(1, -1, 0, 0, 0), two_parts(b, u)),
        is_mix(w, counts(1, -9, 0, 0, 0), two_parts(b, u)),
    ensures
        is_mix(
            sqr2(v),
            counts(1, 64, 0, 0, 0),
            two_parts(mul2(mul2(s, w), sqr2(w)), mul2(sqr2(b), mul2(b, u))),
        ),
{
    let (bb, bu, uu) = (sqr2(b), mul2(b, u), sqr2(u));
    let (q, r) = (mul2(s, w), sqr2(w));
    let n = mul2(q, r);
    let x = parts(sqr2(bb), mul2(bb, bu), mul2(bb, uu), mul2(bu, uu), sqr2(uu));
    let y = parts(n, x.b, x.c, x.d, x.e);
    lemma_mix_product(s, 1, -1, w, 1, -9, b, u);
    lemma_mix_product(w, 1, -9, w, 1, -9, b, u);
    lemma_mix_quadratics(q, 1, -10, 9, r, 1, -18, 81, b, u);
    lemma_mix_quadratics(v, 1, 18, -27, v, 1, 18, -27, b, u);
    assert(is_mix(n, counts(1, -28, 270, -972, 729), x));
    assert(is_mix(sqr2(v), counts(1, 36, 270, -972, 729), x));
    lemma_mix_solved(n, counts(1, -28, 270, -972, 729), x);
    lemma_mix_parts(y);
    lemma_mix_of_mixes(
        sqr2(v),
        counts(1, 36, 270, -972, 729),
        x,
        y,
        counts(1, 28, -270, 972, -729),
        counts(0, 1, 0, 0, 0),
        counts(0, 0, 1, 0, 0),
        counts(0, 0, 0, 1, 0),
        counts(0, 0, 0, 0, 1),
    );
    assert(is_mix(sqr2(v), counts(1, 64, 0, 0, 0), y));
}

/// Doubling respects sums and differences.
proof fn lemma_dbl2_linear(a: Ext2, b: Ext2)
    ensures
        dbl2(sub2(a, b)) == sub2(dbl2(a), dbl2(b)),
        dbl2(add2(a, b)) == add2(dbl2(a), dbl2(b)),
{
    let m = two_parts(a, b);
    let (k, l) = (counts(1, 0, 0, 0, 0), counts(0, 1, 0, 0, 0));
    let (difference, sum) = (sub2(a, b), add2(a, b));
    lemma_mix_parts(m);
    lemma_mix_sums(a, k, b, l, m);
    lemma_mix_sums(b, l, a, k, m);
    lemma_mix_sums(dbl2(a), counts_times(k, 2), dbl2(b), counts_times(l, 2), m);
    lemma_mix_sums(difference, counts(1, -1, 0, 0, 0), a, k, m);
    lemma_mix_sums(sum, counts(1, 1, 0, 0, 0), a, k, m);
    lemma_reduced(difference, difference);
    lemma_reduced(sum, sum);
    lemma_reduced(dbl2(a), dbl2(b));
    lemma_mix_same(dbl2(difference), sub2(dbl2(a), dbl2(b)), counts(2, -2, 0, 0, 0), m);
    lemma_mix_same(dbl2(sum), add2(dbl2(a), dbl2(b)), counts(2, 2, 0, 0, 0), m);
}

/// The second coordinate after a doubling, four times, and the factor of the
/// first.
proof fn lemma_double_coordinates(b: Ext2, u: Ext2)
    ensures
        ({
            let f = triple2(triple2(u));
            let g = half2(add2(b, f));
            let y = sub2(sqr2(g), triple2(sqr2(triple2(u))));
            &&& is_mix(
                dbl2(dbl2(y)),
                counts(1, 18, -27, 0, 0),
                three_parts(sqr2(b), mul2(b, u), sqr2(u)),
            )
            &&& is_mix(sub2(b, f), counts(1, -9, 0, 0, 0), two_parts(b, u))
        }),
{
    let m = two_parts(b, u);
    let x = three_parts(sqr2(b), mul2(b, u), sqr2(u));
    let e = triple2(u);
    let f = triple2(e);
    let q = add2(b, f);
    let g = half2(q);
    let t = triple2(sqr2(e));
    let only = counts(1, 0, 0, 0, 0);
    lemma_mix_parts(m);
    lemma_mix_sums(u, counts(0, 1, 0, 0, 0), u, counts(0, 1, 0, 0, 0), m);
    lemma_mix_sums(e, counts(0, 3, 0, 0, 0), e, counts(0, 3, 0, 0, 0), m);
    lemma_mix_sums(b, only, f, counts(0, 9, 0, 0, 0), m);
    // (2 g)^2 = (b + 9 u)^2
    lemma_reduced(b, f);
    lemma_half2(q);
    lemma_mix_product(q, 1, 9, q, 1, 9, b, u);
    lemma_multiples(g, dbl2(g));
    lemma_mul2_commutes(g, dbl2(g));
    lemma_multiples(g, g);
    // 12 e^2 = 108 u^2
    lemma_mix_product(e, 0, 3, e, 0, 3, b, u);
    let k = counts(0, 0, 9, 0, 0);
    lemma_mix_sums(sqr2(e), k, sqr2(e), k, x);
    let k = counts(0, 0, 27, 0, 0);
    lemma_mix_sums(t, k, t, k, x);
    let k = counts(0, 0, 54, 0, 0);
    lemma_mix_sums(dbl2(t), k, dbl2(t), k, x);
    lemma_dbl2_linear(sqr2(g), t);
    lemma_dbl2_linear(dbl2(sqr2(g)), dbl2(t));
    lemma_mix_sums(
        sqr2(q),
        counts(1, 18, 81, 0, 0),
        dbl2(dbl2(t)),
        counts(0, 0, 108, 0, 0),
        x,
    );
}

spec fn eight(a: Ext2) -> Ext2 {
    dbl2(dbl2(dbl2(a)))
}

/// Eight times: of a sum, of a product, and of equal elements.
proof fn lemma_eight(a: Ext2, b: Ext2)
    ensures
        eight(add2(a, b)) == add2(eight(a), eight(b)),
        mul2(eight(a), b) == eight(mul2(a, b)),
        mul2(b, eight(a)) == eight(mul2(b, a)),
        reduced2(a) && reduced2(b) && eight(a) == eight(b) ==> a == b,
{
    lemma_dbl2_linear(a, b);
    lemma_dbl2_linear(dbl2(a), dbl2(b));
    lemma_dbl2_linear(dbl2(dbl2(a)), dbl2(dbl2(b)));
    lemma_multiples(a, b);
    lemma_multiples(dbl2(a), b);
    lemma_multiples(dbl2(dbl2(a)), b);
    lemma_mul2_commutes(a, b);
    lemma_mul2_commutes(eight(a), b);
    lemma_reduced(a, a);
    lemma_reduced(b, b);
    lemma_reduced(dbl2(a), dbl2(a));
    lemma_reduced(dbl2(b), dbl2(b));
    if reduced2(a) && reduced2(b) && eight(a) == eight(b) {
        lemma_same_doubles2(dbl2(dbl2(a)), dbl2(dbl2(b)));
        lemma_same_doubles2(dbl2(a), dbl2(b));
        lemma_same_doubles2(a, b);
    }
}

/// The cube of the double.
proof fn lemma_cube_double(a: Ext2)
    ensures
        sqr2(dbl2(a)) == dbl2(dbl2(sqr2(a))),
        cube2(dbl2(a)) == eight(cube2(a)),
{
    let s = sqr2(a);
    lemma_multiples(a, dbl2(a));
    lemma_mul2_commutes(a, dbl2(a));
    lemma_multiples(a, a);
    lemma_multiples(dbl2(s), dbl2(a));
    lemma_multiples(s, dbl2(a));
    lemma_mul2_commutes(s, dbl2(a));
    lemma_multiples(a, s);
    lemma_mul2_commutes(a, s);
}

/// The cube of the first coordinate of a point on the twist.
proof fn lemma_cube_on_twist(r: Jac2)
    requires
        on_twist(r),
    ensures
        cube2(r.x) == mul2(sub2(sqr2(r.y), mul2(sqr2(r.z), coeff_b2())), r.z),
{
    let (b, c, k) = (sqr2(r.y), sqr2(r.z), coeff_b2());
    let u = mul2(c, k);
    let (bz, uz) = (mul2(b, r.z), mul2(u, r.z));
    let m = two_parts(b, u);
    let n = two_parts(bz, uz);
    let x = cube2(r.x);
    lemma_mul2_associates(k, c, r.z);
    lemma_mul2_commutes(k, c);
    lemma_mix_parts(two_parts(x, uz));
    lemma_mix_sums(
        x,
        counts(1, 0, 0, 0, 0),
        uz,
        counts(0, 1, 0, 0, 0),
        two_parts(x, uz),
    );
    lemma_mix_solved(bz, counts(1, 1, 0, 0, 0), two_parts(x, uz));
    lemma_mix_parts(m);
    lemma_mix_sums(b, counts(1, 0, 0, 0, 0), u, counts(0, 1, 0, 0, 0), m);
    lemma_mix_times(sub2(b, u), counts(1, -1, 0, 0, 0), m, r.z);
    lemma_reduced(sqr2(r.x), r.x);
    lemma_reduced(sub2(b, u), r.z);
    lemma_mix_same(x, mul2(sub2(b, u), r.z), counts(1, -1, 0, 0, 0), n);
}

/// A doubling stays on the twist.
pub proof fn lemma_double_on_twist(r: Jac2)
    requires
        on_twist(r),
    ensures
        on_twist(line_double(r).0),
{
    reveal(line_double);
    let (x, y, z, k) = (r.x, r.y, r.z, coeff_b2());
    let (b, c) = (sqr2(y), sqr2(z));
    let u = mul2(c, k);
    let f = triple2(triple2(u));
    let h = sub2(sqr2(add2(y, z)), add2(b, c));
    let a = half2(mul2(x, y));
    let (s, w) = (sub2(b, u), sub2(b, f));
    let yz = mul2(y, z);
    let t = mul2(b, yz);
    let to = line_double(r).0;
    let v = dbl2(dbl2(to.y));
    lemma_multiples(c, k);
    lemma_double_coordinates(b, u);
    lemma_mix_parts(two_parts(b, u));
    lemma_mix_sums(b, counts(1, 0, 0, 0, 0), u, counts(0, 1, 0, 0, 0), two_parts(b, u));
    lemma_quartics(b, u, v, s, w);
    let n = mul2(mul2(s, w), sqr2(w));
    let m = mul2(sqr2(b), mul2(b, u));
    // twice the first coordinate is x y w, with the cube t n
    assert(eight(cube2(to.x)) == mul2(n, t)) by {
        lemma_reduced(x, y);
        lemma_half2(mul2(x, y));
        lemma_multiples(a, w);
        lemma_cube_double(to.x);
        lemma_cube_product(mul2(x, y), w);
        lemma_cube_product(x, y);
        lemma_cube_on_twist(r);
        lemma_mul2_medial(s, z, b, y);
        lemma_mul2_commutes(z, y);
        lemma_mul2_associates(s, b, yz);
        lemma_mul2_commutes(s, t);
        lemma_mul2_associates(t, s, cube2(w));
        lemma_mul2_commutes(sqr2(w), w);
        lemma_mul2_associates(s, w, sqr2(w));
        lemma_mul2_commutes(t, n);
    }
    // the third coordinate is 2 t, and b' t^2 is m
    assert(to.z == dbl2(t)) by {
        lemma_mixed_term(y, z);
        lemma_multiples(yz, b);
        lemma_mul2_commutes(b, yz);
        lemma_mul2_commutes(b, dbl2(yz));
    }
    assert(mul2(k, cube2(to.z)) == eight(mul2(m, t))) by {
        lemma_cube_double(t);
        lemma_eight(cube2(t), k);
        lemma_mul2_associates(k, sqr2(t), t);
        lemma_cube_product(b, yz);
        lemma_cube_product(y, z);
        lemma_mul2_commutes(k, sqr2(t));
        lemma_mul2_associates(sqr2(b), mul2(b, c), k);
        lemma_mul2_associates(b, c, k);
    }
    // sixteen times either side
    let left = mul2(sqr2(to.y), to.z);
    let right = add2(cube2(to.x), mul2(k, cube2(to.z)));
    let p = two_parts(mul2(n, t), mul2(m, t));
    assert(dbl2(eight(left)) == dbl2(mul2(sqr2(v), t))) by {
        lemma_cube_double(dbl2(to.y));
        lemma_cube_double(to.y);
        lemma_eight(sqr2(to.y), to.z);
        lemma_multiples(eight(sqr2(to.y)), to.z);
        lemma_multiples(t, sqr2(v));
        lemma_mul2_commutes(t, sqr2(v));
        lemma_mul2_commutes(to.z, sqr2(v));
    }
    assert(dbl2(eight(right)) == dbl2(mul2(sqr2(v), t))) by {
        lemma_mix_times(
            sqr2(v),
            counts(1, 64, 0, 0, 0),
            two_parts(n, m),
            t,
        );
        lemma_mix_parts(p);
        lemma_eight(cube2(to.x), mul2(k, cube2(to.z)));
        let mt = mul2(m, t);
        let e = counts(0, 1, 0, 0, 0);
        lemma_mix_sums(mt, e, mt, e, p);
        let e = counts(0, 2, 0, 0, 0);
        lemma_mix_sums(dbl2(mt), e, dbl2(mt), e, p);
        let e = counts(0, 4, 0, 0, 0);
        lemma_mix_sums(dbl2(dbl2(mt)), e, dbl2(dbl2(mt)), e, p);
        let e = counts(0, 8, 0, 0, 0);
        let q = eight(mt);
        lemma_mix_sums(q, e, q, e, p);
        let e = counts(0, 16, 0, 0, 0);
        lemma_mix_sums(dbl2(q), e, dbl2(q), e, p);
        let e = counts(0, 32, 0, 0, 0);
        lemma_mix_sums(dbl2(dbl2(q)), e, dbl2(dbl2(q)), e, p);
        lemma_mix_sums(mul2(n, t), counts(1, 0, 0, 0, 0), eight(q), counts(0, 64, 0, 0, 0), p);
        lemma_reduced(mul2(n, t), eight(q));
        lemma_reduced(sqr2(v), t);
        lemma_mix_same(eight(right), mul2(sqr2(v), t), counts(1, 64, 0, 0, 0), p);
    }
    lemma_reduced(sqr2(to.y), to.z);
    lemma_reduced(cube2(to.x), mul2(k, cube2(to.z)));
    lemma_reduced(dbl2(dbl2(left)), dbl2(dbl2(left)));
    lemma_reduced(dbl2(dbl2(right)), dbl2(dbl2(right)));
    lemma_same_doubles2(eight(left), eight(right));
    lemma_eight(left, right);
}

/// Whether an affine point is on the twist.
pub open spec fn on_twist_affine(x: Ext2, y: Ext2) -> bool {
    sqr2(y) == add2(cube2(x), coeff_b2())
}

/// The cube of a sum.
proof fn lemma_cube_of_sum(s: Ext2, a: Ext2, b: Ext2)
    requires
        is_mix(s, counts(1, 1, 0, 0, 0), two_parts(a, b)),
    ensures
        is_mix(
            cube2(s),
            counts(1, 3, 3, 1, 0),
            four_parts(cube2(a), mul2(sqr2(a), b), mul2(sqr2(b), a), cube2(b)),
        ),
{
    let (aa, ab, bb) = (sqr2(a), mul2(a, b), sqr2(b));
    let m = two_parts(a, b);
    let n = four_parts(cube2(a), mul2(aa, b), mul2(bb, a), cube2(b));
    let k = counts(1, 1, 0, 0, 0);
    lemma_mix_product(s, 1, 1, s, 1, 1, a, b);
    lemma_mix_times(sqr2(s), counts(1, 2, 1, 0, 0), three_parts(aa, ab, bb), s);
    lemma_mix_times(s, k, m, aa);
    lemma_mix_times(s, k, m, ab);
    lemma_mix_times(s, k, m, bb);
    lemma_mul2_commutes(s, aa);
    lemma_mul2_commutes(s, ab);
    lemma_mul2_commutes(s, bb);
    lemma_mul2_commutes(a, aa);
    lemma_mul2_commutes(b, aa);
    lemma_mul2_associates(a, a, b);
    lemma_mul2_commutes(b, ab);
    lemma_mul2_associates(a, b, b);
    lemma_mul2_commutes(a, bb);
    lemma_mul2_commutes(b, bb);
    let ka = counts(1, 1, 0, 0, 0);
    let kb = counts(0, 1, 1, 0, 0);
    let kc = counts(0, 0, 1, 1, 0);
    assert(is_mix(mul2(aa, s), ka, n));
    assert(is_mix(mul2(ab, s), kb, n));
    assert(is_mix(mul2(bb, s), kc, n));
    lemma_mix_of_mixes(
        cube2(s),
        counts(1, 2, 1, 0, 0),
        parts_times(three_parts(aa, ab, bb), s),
        n,
        ka,
        kb,
        kc,
        ka,
        ka,
    );
}

/// The slopes `theta` and `lambda` of an addition, and the term `w` that makes
/// `theta^2 Z` out of them.
spec fn theta_of(r: Jac2, y: Ext2) -> Ext2 {
    sub2(r.y, mul2(y, r.z))
}

spec fn lambda_of(r: Jac2, x: Ext2) -> Ext2 {
    sub2(r.x, mul2(x, r.z))
}

spec fn w_of(r: Jac2, x: Ext2, y: Ext2) -> Ext2 {
    sub2(
        triple2(mul2(lambda_of(r, x), sqr2(x))),
        dbl2(mul2(theta_of(r, y), y)),
    )
}

/// A difference solved for its first term.
proof fn lemma_difference_solved(a: Ext2, b: Ext2)
    ensures
        is_mix(a, counts(1, 1, 0, 0, 0), two_parts(sub2(a, b), b)),
{
    let m = two_parts(a, b);
    lemma_mix_parts(m);
    lemma_mix_sums(a, counts(1, 0, 0, 0, 0), b, counts(0, 1, 0, 0, 0), m);
    lemma_mix_solved(sub2(a, b), counts(1, -1, 0, 0, 0), m);
}

/// The term `w` by its parts.
proof fn lemma_w(r: Jac2, x: Ext2, y: Ext2)
    ensures
        is_mix(
            w_of(r, x, y),
            counts(3, -2, 0, 0, 0),
            two_parts(mul2(lambda_of(r, x), sqr2(x)), mul2(theta_of(r, y), y)),
        ),
{
    let a = mul2(lambda_of(r, x), sqr2(x));
    let b = mul2(theta_of(r, y), y);
    let m = two_parts(a, b);
    lemma_mix_parts(m);
    lemma_mix_sums(a, counts(1, 0, 0, 0, 0), a, counts(1, 0, 0, 0, 0), m);
    lemma_mix_sums(b, counts(0, 1, 0, 0, 0), b, counts(0, 1, 0, 0, 0), m);
    lemma_mix_sums(triple2(a), counts(3, 0, 0, 0, 0), dbl2(b), counts(0, 2, 0, 0, 0), m);
}

/// `a + 2 b` being a mixture of three others, so is `a`.
proof fn lemma_less_twice(f: Ext2, a: Ext2, b: Ext2, x: Ext2, y: Ext2, z: Ext2)
    requires
        is_mix(f, counts(1, 2, 0, 0, 0), two_parts(a, b)),
        is_mix(f, counts(1, 3, 3, 0, 0), three_parts(x, y, z)),
    ensures
        is_mix(a, counts(1, 3, 3, -2, 0), four_parts(x, y, z, b)),
{
    let q = four_parts(x, y, z, b);
    lemma_mix_parts(q);
    lemma_mix_solved(f, counts(1, 2, 0, 0, 0), two_parts(a, b));
    let k = counts(1, 3, 3, 0, 0);
    let l = counts(0, 0, 0, 1, 0);
    assert(is_mix(f, k, q));
    assert(is_mix(a, counts(1, -2, 0, 0, 0), two_parts(f, b)));
    lemma_mix_of_mixes(a, counts(1, -2, 0, 0, 0), two_parts(f, b), q, k, l, k, k, k);
    assert(total(counts(1, -2, 0, 0, 0), k, l, k, k, k) == counts(1, 3, 3, -2, 0))
        by (nonlinear_arith)
        requires
            k == counts(1, 3, 3, 0, 0),
            l == counts(0, 0, 0, 1, 0),
    ;
}

/// The equation at the first point less that at the second, in the slopes.
proof fn lemma_equations(r: Jac2, x: Ext2, y: Ext2)
    requires
        on_twist(r),
        on_twist_affine(x, y),
    ensures
        ({
            let (theta, lambda) = (theta_of(r, y), lambda_of(r, x));
            let (a, e) = (mul2(y, r.z), mul2(x, r.z));
            is_mix(
                mul2(sqr2(theta), r.z),
                counts(1, 3, 3, -2, 0),
                four_parts(
                    cube2(lambda),
                    mul2(sqr2(lambda), e),
                    mul2(sqr2(e), lambda),
                    mul2(mul2(theta, a), r.z),
                ),
            )
        }),
{
    let (theta, lambda) = (theta_of(r, y), lambda_of(r, x));
    let (z, k) = (r.z, coeff_b2());
    let (a, e) = (mul2(y, z), mul2(x, z));
    let kz = mul2(k, cube2(z));
    let t = mul2(sqr2(r.y), z);
    let tt = mul2(sqr2(theta), z);
    let ta = mul2(mul2(theta, a), z);
    let ya = mul2(sqr2(a), z);
    let m = three_parts(tt, ta, ya);
    let n = parts(cube2(lambda), mul2(sqr2(lambda), e), mul2(sqr2(e), lambda), cube2(e), kz);
    let f = sub2(t, ya);
    assert(is_mix(f, counts(1, 2, 0, 0, 0), two_parts(tt, ta))) by {
        lemma_difference_solved(r.y, a);
        lemma_mix_product(r.y, 1, 1, r.y, 1, 1, theta, a);
        lemma_mix_times(
            sqr2(r.y),
            counts(1, 2, 1, 0, 0),
            three_parts(sqr2(theta), mul2(theta, a), sqr2(a)),
            z,
        );
        lemma_mix_parts(m);
        lemma_mix_sums(t, counts(1, 2, 1, 0, 0), ya, counts(0, 0, 1, 0, 0), m);
    }
    assert(is_mix(t, counts(1, 3, 3, 1, 1), n)) by {
        lemma_difference_solved(r.x, e);
        lemma_cube_of_sum(r.x, lambda, e);
        lemma_mix_parts(n);
        lemma_mix_sums(cube2(r.x), counts(1, 3, 3, 1, 0), kz, counts(0, 0, 0, 0, 1), n);
    }
    assert(ya == add2(cube2(e), kz)) by {
        lemma_cube_product(y, z);
        lemma_mul2_associates(sqr2(y), sqr2(z), z);
        lemma_mul2_distributes(cube2(x), k, cube2(z));
        lemma_cube_product(x, z);
    }
    assert(is_mix(f, counts(1, 3, 3, 0, 0), three_parts(n.a, n.b, n.c))) by {
        lemma_mix_parts(n);
        lemma_mix_sums(cube2(e), counts(0, 0, 0, 1, 0), kz, counts(0, 0, 0, 0, 1), n);
        lemma_mix_sums(t, counts(1, 3, 3, 1, 1), ya, counts(0, 0, 0, 1, 1), n);
    }
    lemma_less_twice(f, tt, ta, n.a, n.b, n.c);
}

/// `x + 3 y + (3 z - 2 b)` by its three terms.
proof fn lemma_last_two_terms(
    a: Ext2,
    wc: Ext2,
    x: Ext2,
    y: Ext2,
    z: Ext2,
    b: Ext2,
)
    requires
        reduced2(a),
        is_mix(a, counts(1, 3, 3, -2, 0), four_parts(x, y, z, b)),
        is_mix(wc, counts(3, -2, 0, 0, 0), two_parts(z, b)),
    ensures
        is_mix(a, counts(1, 3, 1, 0, 0), three_parts(x, y, wc)),
{
    let q = four_parts(x, y, z, b);
    let o = three_parts(x, y, wc);
    let s = add2(add2(x, triple2(y)), wc);
    let only = counts(1, 0, 0, 0, 0);
    let l = counts(0, 1, 0, 0, 0);
    lemma_mix_parts(q);
    lemma_mix_sums(y, l, y, l, q);
    lemma_mix_sums(x, only, triple2(y), counts(0, 3, 0, 0, 0), q);
    assert(is_mix(wc, counts(0, 0, 3, -2, 0), q));
    lemma_mix_sums(
        add2(x, triple2(y)),
        counts(1, 3, 0, 0, 0),
        wc,
        counts(0, 0, 3, -2, 0),
        q,
    );
    lemma_reduced(add2(x, triple2(y)), wc);
    lemma_mix_same(a, s, counts(1, 3, 3, -2, 0), q);
    lemma_mix_parts(o);
    lemma_mix_sums(y, l, y, l, o);
    lemma_mix_sums(x, only, triple2(y), counts(0, 3, 0, 0, 0), o);
    lemma_mix_sums(
        add2(x, triple2(y)),
        counts(1, 3, 0, 0, 0),
        wc,
        counts(0, 0, 1, 0, 0),
        o,
    );
}

/// What the two points being on the twist says of the slopes:
/// `theta^2 Z = lambda^3 + 3 lambda^2 x Z + w Z^2`.
proof fn lemma_slopes(r: Jac2, x: Ext2, y: Ext2)
    requires
        on_twist(r),
        on_twist_affine(x, y),
    ensures
        is_mix(
            mul2(sqr2(theta_of(r, y)), r.z),
            counts(1, 3, 1, 0, 0),
            three_parts(
                cube2(lambda_of(r, x)),
                mul2(sqr2(lambda_of(r, x)), mul2(x, r.z)),
                mul2(w_of(r, x, y), sqr2(r.z)),
            ),
        ),
{
    let (theta, lambda, w) = (theta_of(r, y), lambda_of(r, x), w_of(r, x, y));
    let (z, c) = (r.z, sqr2(r.z));
    let (a, e) = (mul2(y, z), mul2(x, z));
    let (g, h) = (mul2(lambda, sqr2(x)), mul2(theta, y));
    lemma_equations(r, x, y);
    lemma_w(r, x, y);
    lemma_mix_times(w, counts(3, -2, 0, 0, 0), two_parts(g, h), c);
    assert(mul2(g, c) == mul2(sqr2(e), lambda)) by {
        lemma_mul2_associates(lambda, sqr2(x), c);
        lemma_cube_product(x, z);
        lemma_mul2_commutes(lambda, sqr2(e));
    }
    assert(mul2(h, c) == mul2(mul2(theta, a), z)) by {
        lemma_mul2_associates(theta, y, c);
        lemma_mul2_associates(y, z, z);
        lemma_mul2_associates(theta, a, z);
    }
    lemma_reduced(sqr2(theta), z);
    lemma_last_two_terms(
        mul2(sqr2(theta), z),
        mul2(w, c),
        cube2(lambda),
        mul2(sqr2(lambda), e),
        mul2(g, c),
        mul2(h, c),
    );
}

/// The second term of the new first coordinate, `x lambda^2 + w Z`, and that of
/// the second, `theta w Z + lambda^3 y`, both without their common factors.
spec fn h_of(r: Jac2, x: Ext2, y: Ext2) -> Ext2 {
    add2(mul2(x, sqr2(lambda_of(r, x))), mul2(r.z, w_of(r, x, y)))
}

spec fn k_of(r: Jac2, x: Ext2, y: Ext2) -> Ext2 {
    let lambda = lambda_of(r, x);
    add2(
        mul2(theta_of(r, y), mul2(r.z, w_of(r, x, y))),
        mul2(mul2(lambda, sqr2(lambda)), y),
    )
}

/// The first coordinate after an addition by its factors, and what enters the
/// second.
proof fn lemma_add_first(r: Jac2, x: Ext2, y: Ext2)
    requires
        on_twist(r),
        on_twist_affine(x, y),
    ensures
        ({
            let lambda = lambda_of(r, x);
            let d = sqr2(lambda);
            let e = mul2(lambda, d);
            let g = mul2(r.x, d);
            let h = sub2(add2(e, mul2(r.z, sqr2(theta_of(r, y)))), dbl2(g));
            &&& h == mul2(r.z, h_of(r, x, y))
            &&& is_mix(
                sub2(g, h),
                counts(1, -1, 0, 0, 0),
                two_parts(e, mul2(w_of(r, x, y), sqr2(r.z))),
            )
        }),
{
    let (theta, lambda, w) = (theta_of(r, y), lambda_of(r, x), w_of(r, x, y));
    let (z, d, e) = (r.z, sqr2(lambda), mul2(x, r.z));
    let e3 = mul2(lambda, d);
    let f = mul2(z, sqr2(theta));
    let g = mul2(r.x, d);
    let h = sub2(add2(e3, f), dbl2(g));
    let (de, wc, delta) = (mul2(d, e), mul2(w, sqr2(z)), mul2(z, w));
    let m = three_parts(e3, de, wc);
    lemma_slopes(r, x, y);
    lemma_mul2_commutes(lambda, d);
    lemma_mul2_commutes(z, sqr2(theta));
    assert(is_mix(f, counts(1, 3, 1, 0, 0), m));
    lemma_difference_solved(r.x, e);
    lemma_mix_times(r.x, counts(1, 1, 0, 0, 0), two_parts(lambda, e), d);
    lemma_mul2_commutes(e, d);
    assert(is_mix(g, counts(1, 1, 0, 0, 0), m));
    lemma_mix_parts(m);
    lemma_mix_sums(e3, counts(1, 0, 0, 0, 0), f, counts(1, 3, 1, 0, 0), m);
    lemma_mix_sums(g, counts(1, 1, 0, 0, 0), g, counts(1, 1, 0, 0, 0), m);
    lemma_mix_sums(
        add2(e3, f),
        counts(2, 3, 1, 0, 0),
        dbl2(g),
        counts(2, 2, 0, 0, 0),
        m,
    );
    let k = counts(0, 1, 1, 0, 0);
    assert(is_mix(h, k, m));
    assert(mul2(z, delta) == wc) by {
        lemma_mul2_associates(z, z, w);
        lemma_mul2_commutes(sqr2(z), w);
    }
    assert(mul2(z, mul2(x, d)) == de) by {
        lemma_mul2_associates(z, x, d);
        lemma_mul2_commutes(z, x);
    }
    lemma_mul2_distributes(mul2(x, d), delta, z);
    lemma_mix_sums(de, counts(0, 1, 0, 0, 0), wc, counts(0, 0, 1, 0, 0), m);
    lemma_reduced(add2(e3, f), dbl2(g));
    lemma_reduced(z, h_of(r, x, y));
    lemma_mix_same(h, mul2(z, h_of(r, x, y)), k, m);
    lemma_mix_sums(g, counts(1, 1, 0, 0, 0), h, k, m);
    assert(is_mix(sub2(g, h), counts(1, 0, -1, 0, 0), m));
}

/// `theta (e - w Z^2) - e Y` is `-(theta w Z^2 + e y Z)`.
proof fn lemma_add_second(r: Jac2, y: Ext2, s: Ext2, e: Ext2, w: Ext2)
    requires
        is_mix(s, counts(1, -1, 0, 0, 0), two_parts(e, mul2(w, sqr2(r.z)))),
    ensures
        sub2(mul2(theta_of(r, y), s), mul2(e, r.y)) == neg2(
            mul2(r.z, add2(mul2(theta_of(r, y), mul2(r.z, w)), mul2(e, y))),
        ),
{
    let (theta, z, a) = (theta_of(r, y), r.z, mul2(y, r.z));
    let (wc, delta) = (mul2(w, sqr2(z)), mul2(z, w));
    let (te, tw, ae) = (mul2(theta, e), mul2(theta, wc), mul2(a, e));
    let n = three_parts(te, tw, ae);
    lemma_mix_times(s, counts(1, -1, 0, 0, 0), two_parts(e, wc), theta);
    lemma_mul2_commutes(s, theta);
    lemma_mul2_commutes(e, theta);
    lemma_mul2_commutes(wc, theta);
    assert(is_mix(mul2(theta, s), counts(1, -1, 0, 0, 0), n));
    lemma_difference_solved(r.y, a);
    lemma_mix_times(r.y, counts(1, 1, 0, 0, 0), two_parts(theta, a), e);
    lemma_mul2_commutes(r.y, e);
    assert(is_mix(mul2(e, r.y), counts(1, 0, 1, 0, 0), n));
    lemma_mix_sums(
        mul2(theta, s),
        counts(1, -1, 0, 0, 0),
        mul2(e, r.y),
        counts(1, 0, 1, 0, 0),
        n,
    );
    let (p, q) = (mul2(theta, delta), mul2(e, y));
    assert(mul2(z, p) == tw) by {
        lemma_mul2_associates(z, theta, delta);
        lemma_mul2_commutes(z, theta);
        lemma_mul2_associates(theta, z, delta);
        lemma_mul2_associates(z, z, w);
        lemma_mul2_commutes(sqr2(z), w);
    }
    assert(mul2(z, q) == ae) by {
        lemma_mul2_commutes(z, q);
        lemma_mul2_associates(e, y, z);
        lemma_mul2_commutes(e, a);
    }
    lemma_mul2_distributes(p, q, z);
    lemma_mix_parts(n);
    lemma_mix_sums(tw, counts(0, 1, 0, 0, 0), ae, counts(0, 0, 1, 0, 0), n);
    let zk = mul2(z, add2(p, q));
    lemma_mix_sums(zk, counts(0, 1, 1, 0, 0), zk, counts(0, 1, 1, 0, 0), n);
    lemma_reduced(mul2(theta, s), mul2(e, r.y));
    lemma_stands_neg2(zk, zk.c0 as int, zk.c1 as int);
    lemma_mix_same(
        sub2(mul2(theta, s), mul2(e, r.y)),
        neg2(zk),
        counts(0, -1, -1, 0, 0),
        n,
    );
}

/// `theta^2 w Z + 2 theta e y` with `e = lambda^3` and `g = x lambda^2` is
/// `3 g^2 + 3 g w Z + (w Z)^2`.
proof fn lemma_add_bracket(r: Jac2, x: Ext2, y: Ext2)
    requires
        on_twist(r),
        on_twist_affine(x, y),
    ensures
        ({
            let (theta, lambda) = (theta_of(r, y), lambda_of(r, x));
            let e = mul2(lambda, sqr2(lambda));
            let g = mul2(x, sqr2(lambda));
            let delta = mul2(r.z, w_of(r, x, y));
            is_mix(
                add2(mul2(sqr2(theta), delta), dbl2(mul2(theta, mul2(e, y)))),
                counts(3, 3, 1, 0, 0),
                three_parts(sqr2(g), mul2(g, delta), sqr2(delta)),
            )
        }),
{
    let (theta, lambda, w) = (theta_of(r, y), lambda_of(r, x), w_of(r, x, y));
    let (z, d) = (r.z, sqr2(lambda));
    let (e, g, delta) = (mul2(lambda, d), mul2(x, d), mul2(z, w));
    let (gg, gd, dd) = (sqr2(g), mul2(g, delta), sqr2(delta));
    let ty = mul2(theta, mul2(e, y));
    let n = four_parts(gg, gd, dd, ty);
    let td = mul2(sqr2(theta), delta);
    // e w
    let ew = mul2(e, w);
    let (p, q) = (mul2(lambda, sqr2(x)), mul2(theta, y));
    assert(mul2(p, e) == gg) by {
        lemma_mul2_commutes(lambda, sqr2(x));
        lemma_mul2_associates(sqr2(x), lambda, e);
        lemma_mul2_associates(lambda, lambda, d);
        lemma_cube_product(x, d);
    }
    assert(mul2(q, e) == ty) by {
        lemma_mul2_associates(theta, y, e);
        lemma_mul2_commutes(y, e);
    }
    assert(is_mix(ew, counts(3, 0, 0, -2, 0), n)) by {
        lemma_w(r, x, y);
        lemma_mix_times(w, counts(3, -2, 0, 0, 0), two_parts(p, q), e);
        lemma_mul2_commutes(w, e);
    }
    // theta^2 Z w
    let c = sqr2(z);
    let de = mul2(d, mul2(x, z));
    assert(mul2(de, w) == gd) by {
        lemma_mul2_associates(d, x, z);
        lemma_mul2_commutes(d, x);
        lemma_mul2_associates(g, z, w);
    }
    assert(mul2(mul2(w, c), w) == dd) by {
        lemma_mul2_commutes(w, c);
        lemma_mul2_associates(c, w, w);
        lemma_cube_product(z, w);
    }
    assert(mul2(mul2(sqr2(theta), z), w) == td) by {
        lemma_mul2_associates(sqr2(theta), z, w);
    }
    assert(cube2(lambda) == e) by {
        lemma_mul2_commutes(lambda, d);
    }
    lemma_slopes(r, x, y);
    lemma_mix_times(
        mul2(sqr2(theta), z),
        counts(1, 3, 1, 0, 0),
        three_parts(e, de, mul2(w, c)),
        w,
    );
    lemma_mix_parts(n);
    lemma_add_bracket_total(td, ew, ty, gg, gd, dd);
}

/// The terms of the bracket.
proof fn lemma_add_bracket_total(td: Ext2, ew: Ext2, ty: Ext2, gg: Ext2, gd: Ext2, dd: Ext2)
    requires
        is_mix(td, counts(1, 3, 1, 0, 0), three_parts(ew, gd, dd)),
        is_mix(ew, counts(3, 0, 0, -2, 0), four_parts(gg, gd, dd, ty)),
    ensures
        is_mix(add2(td, dbl2(ty)), counts(3, 3, 1, 0, 0), three_parts(gg, gd, dd)),
{
    let n = four_parts(gg, gd, dd, ty);
    let (k, l, m) = (counts(3, 0, 0, -2, 0), counts(0, 1, 0, 0, 0), counts(0, 0, 1, 0, 0));
    lemma_mix_parts(n);
    lemma_mix_of_mixes(td, counts(1, 3, 1, 0, 0), three_parts(ew, gd, dd), n, k, l, m, k, k);
    assert(total(counts(1, 3, 1, 0, 0), k, l, m, k, k) == counts(3, 3, 1, -2, 0))
        by (nonlinear_arith)
        requires
            k == counts(3, 0, 0, -2, 0),
            l == counts(0, 1, 0, 0, 0),
            m == counts(0, 0, 1, 0, 0),
    ;
    lemma_mix_sums(ty, counts(0, 0, 0, 1, 0), ty, counts(0, 0, 0, 1, 0), n);
    lemma_mix_sums(td, counts(3, 3, 1, -2, 0), dbl2(ty), counts(0, 0, 0, 2, 0), n);
}

/// The equation of the twist at the sum of two points, without the common
/// factors of its coordinates.
proof fn lemma_add_equation(r: Jac2, x: Ext2, y: Ext2)
    requires
        on_twist(r),
        on_twist_affine(x, y),
    ensures
        ({
            let e = mul2(lambda_of(r, x), sqr2(lambda_of(r, x)));
            sqr2(k_of(r, x, y)) == add2(cube2(h_of(r, x, y)), mul2(coeff_b2(), sqr2(e)))
        }),
{
    let (theta, lambda) = (theta_of(r, y), lambda_of(r, x));
    let d = sqr2(lambda);
    let (e, g, delta) = (mul2(lambda, d), mul2(x, d), mul2(r.z, w_of(r, x, y)));
    let b = coeff_b2();
    let ke = mul2(b, sqr2(e));
    let (p, q) = (mul2(theta, delta), mul2(e, y));
    let (h, k) = (h_of(r, x, y), k_of(r, x, y));
    let (gg, gd, dd) = (sqr2(g), mul2(g, delta), sqr2(delta));
    let n = parts(cube2(g), mul2(gg, delta), mul2(dd, g), cube2(delta), ke);
    // the square of theta delta + e y
    let (pp, pq, qq) = (sqr2(p), mul2(p, q), sqr2(q));
    let s = add2(pp, dbl2(pq));
    assert(sqr2(k) == add2(s, qq)) by {
        let m = two_parts(p, q);
        let o = three_parts(pp, pq, qq);
        lemma_mix_parts(m);
        lemma_mix_sums(p, counts(1, 0, 0, 0, 0), q, counts(0, 1, 0, 0, 0), m);
        lemma_mix_product(k, 1, 1, k, 1, 1, p, q);
        lemma_mix_parts(o);
        lemma_mix_sums(pq, counts(0, 1, 0, 0, 0), pq, counts(0, 1, 0, 0, 0), o);
        lemma_mix_sums(pp, counts(1, 0, 0, 0, 0), dbl2(pq), counts(0, 2, 0, 0, 0), o);
        lemma_mix_sums(s, counts(1, 2, 0, 0, 0), qq, counts(0, 0, 1, 0, 0), o);
        lemma_reduced(k, k);
        lemma_reduced(s, qq);
        lemma_mix_same(sqr2(k), add2(s, qq), counts(1, 2, 1, 0, 0), o);
    }
    // its first two terms have the factor delta
    let (td, ty) = (mul2(sqr2(theta), delta), mul2(theta, q));
    let bracket = add2(td, dbl2(ty));
    assert(s == mul2(bracket, delta)) by {
        lemma_mul2_distributes(td, dbl2(ty), delta);
        lemma_cube_product(theta, delta);
        lemma_mul2_associates(sqr2(theta), delta, delta);
        lemma_multiples(ty, delta);
        lemma_mul2_associates(theta, q, delta);
        lemma_mul2_commutes(q, delta);
        lemma_mul2_associates(theta, delta, q);
    }
    assert(is_mix(s, counts(0, 3, 3, 1, 0), n)) by {
        lemma_add_bracket(r, x, y);
        lemma_mix_times(bracket, counts(3, 3, 1, 0, 0), three_parts(gg, gd, dd), delta);
        lemma_mul2_associates(g, delta, delta);
        lemma_mul2_commutes(g, dd);
    }
    // the third is that of the second point
    assert(qq == add2(cube2(g), ke)) by {
        lemma_cube_product(e, y);
        lemma_mul2_distributes(cube2(x), b, sqr2(e));
        lemma_mul2_commutes(b, sqr2(e));
        lemma_mul2_commutes(sqr2(e), cube2(x));
        lemma_cube_product(x, d);
        lemma_cube_product(lambda, d);
        lemma_mul2_commutes(d, sqr2(d));
    }
    assert(is_mix(add2(s, qq), counts(1, 3, 3, 1, 1), n)) by {
        lemma_mix_parts(n);
        lemma_mix_sums(cube2(g), counts(1, 0, 0, 0, 0), ke, counts(0, 0, 0, 0, 1), n);
        lemma_mix_sums(s, counts(0, 3, 3, 1, 0), qq, counts(1, 0, 0, 0, 1), n);
    }
    assert(is_mix(add2(cube2(h), ke), counts(1, 3, 3, 1, 1), n)) by {
        lemma_mix_parts(two_parts(g, delta));
        lemma_mix_sums(
            g,
            counts(1, 0, 0, 0, 0),
            delta,
            counts(0, 1, 0, 0, 0),
            two_parts(g, delta),
        );
        lemma_cube_of_sum(h, g, delta);
        lemma_mix_parts(n);
        lemma_mix_sums(cube2(h), counts(1, 3, 3, 1, 0), ke, counts(0, 0, 0, 0, 1), n);
    }
    lemma_reduced(s, qq);
    lemma_reduced(cube2(h), ke);
    lemma_mix_same(add2(s, qq), add2(cube2(h), ke), counts(1, 3, 3, 1, 1), n);
}

/// An addition stays on the twist.
pub proof fn lemma_add_on_twist(r: Jac2, x: Ext2, y: Ext2)
    requires
        on_twist(r),
        on_twist_affine(x, y),
    ensures
        on_twist(line_add(r, x, y).0),
{
    reveal(line_add);
    let lambda = lambda_of(r, x);
    let (z, b, d) = (r.z, coeff_b2(), sqr2(lambda));
    let e = mul2(lambda, d);
    let g = mul2(r.x, d);
    let f = mul2(z, sqr2(theta_of(r, y)));
    let (h, k) = (h_of(r, x, y), k_of(r, x, y));
    let (z3, e3) = (cube2(z), cube2(e));
    let to = line_add(r, x, y).0;
    lemma_add_first(r, x, y);
    lemma_add_second(r, y, sub2(g, sub2(add2(e, f), dbl2(g))), e, w_of(r, x, y));
    assert(to.x == mul2(lambda, mul2(z, h)));
    assert(to.y == neg2(mul2(z, k)));
    assert(to.z == mul2(z, e));
    assert(mul2(sqr2(to.y), to.z) == mul2(z3, mul2(sqr2(k), e))) by {
        let zk = mul2(z, k);
        lemma_mul2_neg(zk, neg2(zk));
        lemma_mul2_neg(zk, zk);
        lemma_reduced(zk, zk);
        lemma_neg2_twice(sqr2(zk));
        lemma_cube_product(z, k);
        lemma_mul2_medial(sqr2(z), sqr2(k), z, e);
    }
    assert(cube2(to.x) == mul2(z3, mul2(cube2(h), e))) by {
        lemma_cube_product(lambda, mul2(z, h));
        lemma_cube_product(z, h);
        lemma_mul2_commutes(lambda, d);
        lemma_mul2_commutes(e, mul2(z3, cube2(h)));
        lemma_mul2_associates(z3, cube2(h), e);
    }
    assert(mul2(b, cube2(to.z)) == mul2(z3, mul2(mul2(b, sqr2(e)), e))) by {
        lemma_cube_product(z, e);
        lemma_mul2_associates(b, z3, e3);
        lemma_mul2_commutes(b, z3);
        lemma_mul2_associates(z3, b, e3);
        lemma_mul2_associates(b, sqr2(e), e);
    }
    lemma_add_equation(r, x, y);
    lemma_mul2_distributes(cube2(h), mul2(b, sqr2(e)), e);
    lemma_mul2_distributes(mul2(cube2(h), e), mul2(mul2(b, sqr2(e)), e), z3);
}

proof fn lemma_neg2_twice(a: Ext2)
    requires
        reduced2(a),
    ensures
        neg2(neg2(a)) == a,
{
    let (a0, a1) = (a.c0 as int, a.c1 as int);
    lemma_stands_neg2(a, a0, a1);
    lemma_stands_neg2(neg2(a), -a0, -a1);
    lemma_stands_same2(neg2(neg2(a)), a, a0, a1);
}

/// The negative of an affine point is on the twist with it.
proof fn lemma_negative_on_twist(x: Ext2, y: Ext2)
    requires
        on_twist_affine(x, y),
    ensures
        on_twist_affine(x, neg2(y)),
{
    lemma_mul2_neg(y, neg2(y));
    lemma_mul2_neg(y, y);
    lemma_reduced(y, y);
    lemma_neg2_twice(sqr2(y));
}

/// The Frobenius map carried to the twist takes points on the twist to such.
pub proof fn lemma_frobenius_on_twist(x: Ext2, y: Ext2)
    requires
        on_twist_affine(x, y),
    ensures
        on_twist_affine(twist_x(x), twist_y(y)),
        on_twist_affine(twist_x(x), neg2(twist_y(y))),
{
    let (fx, fy, fb) = (frob2(x, 1), frob2(y, 1), frob2(coeff_b2(), 1));
    lemma_twist_constants();
    lemma_cube_product(fy, twist_q_y());
    lemma_cube_product(fx, twist_q_x());
    lemma_frob2_ring(y, y, 1);
    lemma_frob2_ring(x, x, 1);
    lemma_frob2_ring(sqr2(x), x, 1);
    lemma_frob2_ring(cube2(x), coeff_b2(), 1);
    lemma_mul2_distributes(cube2(fx), fb, sqr2(twist_q_y()));
    lemma_negative_on_twist(twist_x(x), twist_y(y));
}

/// An affine point on the twist is so in homogeneous coordinates.
pub proof fn lemma_affine_on_twist(x: Ext2, y: Ext2)
    requires
        on_twist_affine(x, y),
    ensures
        on_twist(jac2(x, y, one2())),
{
    lemma_constants();
    lemma_reduced(y, y);
    lemma_mul2_one(sqr2(y));
    lemma_mul2_one(one2());
    assert(reduced2(coeff_b2())) by {
        reveal(modulus);
    }
    lemma_mul2_one(coeff_b2());
}

/// The running point of the loop stays on the twist, and each line that is
/// taken passes through it: those of doublings touch it, and those of additions
/// pass through it and through the point added.
pub proof fn lemma_walk_on_twist(r: Jac2, x: Ext2, y: Ext2, k: int)
    requires
        on_twist(r),
        on_twist_affine(x, y),
    ensures
        on_twist(line_walk(r, x, y, k).0),
        k < 64 ==> ({
            let before = line_walk(r, x, y, k + 1).0;
            let doubled = line_double(before);
            let y = if ate_digits()[k] == 1 {
                y
            } else {
                neg2(y)
            };
            let added = line_add(doubled.0, x, y);
            &&& on_twist(doubled.0)
            &&& line_at_point(doubled.1, before) == zero2()
            &&& line_at_point(added.1, doubled.0) == zero2()
            &&& line_at(added.1, x, y) == zero2()
        }),
    decreases 64 - k,
{
    if k < 64 {
        lemma_walk_on_twist(r, x, y, k + 1);
        let before = line_walk(r, x, y, k + 1).0;
        let doubled = line_double(before).0;
        lemma_double_on_twist(before);
        lemma_line_double_touches(before);
        lemma_negative_on_twist(x, y);
        lemma_add_on_twist(doubled, x, y);
        lemma_add_on_twist(doubled, x, neg2(y));
        lemma_line_add_through(doubled, x, y);
        lemma_line_add_through(doubled, x, neg2(y));
    }
}

/// The points of the two last additions are on the twist, and their lines pass
/// through the points that they add.
pub proof fn lemma_last_lines_on_twist(x: Ext2, y: Ext2)
    requires
        on_twist_affine(x, y),
    ensures
        ({
            let r = line_walk(jac2(x, y, one2()), x, y, 0).0;
            let (x1, y1) = (twist_x(x), twist_y(y));
            let (x2, y2) = (twist_x(x1), neg2(twist_y(y1)));
            let first = line_add(r, x1, y1);
            let second = line_add(first.0, x2, y2);
            &&& on_twist(r) && on_twist(first.0) && on_twist(second.0)
            &&& line_at_point(first.1, r) == zero2()
            &&& line_at(first.1, x1, y1) == zero2()
            &&& line_at_point(second.1, first.0) == zero2()
            &&& line_at(second.1, x2, y2) == zero2()
        }),
{
    let r = line_walk(jac2(x, y, one2()), x, y, 0).0;
    let (x1, y1) = (twist_x(x), twist_y(y));
    let (x2, y2) = (twist_x(x1), neg2(twist_y(y1)));
    let first = line_add(r, x1, y1);
    lemma_affine_on_twist(x, y);
    lemma_walk_on_twist(jac2(x, y, one2()), x, y, 0);
    lemma_frobenius_on_twist(x, y);
    lemma_frobenius_on_twist(x1, y1);
    lemma_add_on_twist(r, x1, y1);
    lemma_add_on_twist(first.0, x2, y2);
    lemma_line_add_through(r, x1, y1);
    lemma_line_add_through(first.0, x2, y2);
}

} // verus!
