//! Square roots in the quadratic extension.

use crate::math::field::{
    fadd, finv, fmul, fneg, fpow, fsub, lemma_constants, lemma_finv_unique, lemma_finv_zero,
    lemma_fmul_associates, lemma_fmul_commutes, lemma_fmul_one, lemma_fmul_reduced, lemma_fmul_zero,
    lemma_fneg_neg, lemma_fpow_reduced, modulus, one_half, sqrt_exponent,
};
use crate::math::prime_modulus::{lemma_field, lemma_no_zero_divisors};
use crate::math::residues::{lemma_negative_square, lemma_nonresidue, lemma_root, lemma_stands_pow};
use crate::math::ring::{
    alike, lemma_alike, lemma_stands_add, lemma_stands_mul, lemma_stands_mul2, lemma_stands_same,
    lemma_stands_sub, stands,
};
use crate::math::tower::{
    ext2, is_nonresidue, mul2, neg2, norm2, reduced2, sqr2, sqrt2_complex, Ext2,
};
use vstd::arithmetic::div_mod::{
    lemma_add_mod_noop, lemma_mod_multiples_vanish, lemma_small_mod,
};
use vstd::prelude::*;

verus! {

/// The root of an element without imaginary part: that of the real part, or
/// else `u` times that of its negative.
pub open spec fn sqrt2_real(c0: nat) -> Ext2 {
    let s = fpow(c0, sqrt_exponent());
    if c0 != 0 && fmul(s, s) == c0 {
        ext2(s, 0)
    } else {
        ext2(0, fpow(fneg(c0), sqrt_exponent()))
    }
}

/// The root that is computed of an element that has one.
pub open spec fn sqrt2(a: Ext2) -> Ext2 {
    if a.c1 == 0 {
        sqrt2_real(a.c0)
    } else {
        sqrt2_complex(a)
    }
}

/// The parts of a square, `(u^2 - v^2) + 2 u v i`.
proof fn lemma_square_parts(y: Ext2)
    ensures
        reduced2(sqr2(y)),
        sqr2(y).c0 == fsub(fmul(y.c0, y.c0), fmul(y.c1, y.c1)),
        stands(sqr2(y).c1, 2 * (y.c0 as int * y.c1 as int)),
{
    reveal(mul2);
    let (u, v) = (y.c0 as int, y.c1 as int);
    lemma_stands_mul2(y, u, v, y, u, v);
    assert(u * v + v * u == 2 * (u * v)) by (nonlinear_arith);
}

/// Twice the half.
proof fn lemma_doubled(a: nat, x: int)
    requires
        stands(a, 2 * x),
    ensures
        stands(fmul(a, one_half()), x),
        fmul(a, one_half()) < modulus(),
{
    let (h, p) = (one_half() as int, modulus() as int);
    lemma_constants();
    lemma_stands_mul(a, 2 * x, one_half(), h);
    assert(2 * x * h == p * x + x) by (nonlinear_arith)
        requires
            2 * h == p + 1,
    ;
    lemma_mod_multiples_vanish(x, x, p);
}

/// The computed root of the square of an element with a part that is zero.
proof fn lemma_root_of_real(y: Ext2)
    requires
        reduced2(y),
        y.c0 == 0 || y.c1 == 0,
    ensures
        sqr2(y).c1 == 0,
        sqrt2(sqr2(y)) == y || sqrt2(sqr2(y)) == neg2(y),
{
    reveal(neg2);
    let (u, v) = (y.c0, y.c1);
    let c0 = sqr2(y).c0;
    lemma_constants();
    lemma_square_parts(y);
    lemma_fmul_zero(0);
    lemma_fneg_neg(0);
    assert(2 * (u as int * v as int) == 0) by (nonlinear_arith)
        requires
            u == 0 || v == 0,
    ;
    lemma_stands_same(sqr2(y).c1, 0, 0);
    lemma_root(u);
    lemma_root(v);
    if v == 0 {
        let uu = fmul(u, u);
        assert(c0 == uu) by {
            lemma_stands_mul(u, u as int, u, u as int);
            lemma_stands_sub(uu, u as int * u as int, 0, 0);
            lemma_stands_same(c0, uu, u as int * u as int);
        }
        if uu == 0 {
            lemma_no_zero_divisors(u, u);
        }
    } else {
        // the square is that of v, negated, which has no root
        lemma_negative_square(v);
        lemma_fmul_reduced(v, v);
        lemma_fneg_neg(fmul(v, v));
        lemma_fpow_reduced(c0, sqrt_exponent());
        assert(c0 == fneg(fmul(v, v)));
    }
}

/// The norm of a square is a square.
proof fn lemma_norm_of_square(y: Ext2)
    requires
        reduced2(y),
    ensures
        norm2(sqr2(y)) == fmul(
            fadd(fmul(y.c0, y.c0), fmul(y.c1, y.c1)),
            fadd(fmul(y.c0, y.c0), fmul(y.c1, y.c1)),
        ),
{
    reveal(norm2);
    let (u, v) = (y.c0 as int, y.c1 as int);
    let (uu, vv) = (fmul(y.c0, y.c0), fmul(y.c1, y.c1));
    let (a, w) = (sqr2(y), fadd(uu, vv));
    let (p, q) = (u * u, v * v);
    lemma_square_parts(y);
    lemma_stands_mul(y.c0, u, y.c0, u);
    lemma_stands_mul(y.c1, v, y.c1, v);
    lemma_stands_sub(uu, p, vv, q);
    lemma_stands_add(uu, p, vv, q);
    lemma_stands_mul(a.c0, p - q, a.c0, p - q);
    let m = 2 * (u * v);
    lemma_stands_mul(a.c1, m, a.c1, m);
    lemma_stands_add(fmul(a.c0, a.c0), (p - q) * (p - q), fmul(a.c1, a.c1), m * m);
    lemma_stands_mul(w, p + q, w, p + q);
    assert(m * m == 4 * (p * q)) by (nonlinear_arith)
        requires
            m == 2 * (u * v),
            p == u * u,
            q == v * v,
    ;
    assert((p - q) * (p - q) + 4 * (p * q) == (p + q) * (p + q)) by (nonlinear_arith);
    lemma_stands_same(norm2(a), fmul(w, w), (p + q) * (p + q));
}

/// What the complex method takes the root of for its first part is the square of
/// the first part.
proof fn lemma_first_part(y: Ext2)
    requires
        reduced2(y),
        y.c0 != 0,
        y.c1 != 0,
    ensures
        ({
            let a = sqr2(y);
            let alpha = fpow(norm2(a), sqrt_exponent());
            let plus = fmul(fadd(alpha, a.c0), one_half());
            (if is_nonresidue(plus) {
                fsub(plus, alpha)
            } else {
                plus
            }) == fmul(y.c0, y.c0)
        }),
{
    let (u, v) = (y.c0 as int, y.c1 as int);
    let (uu, vv) = (fmul(y.c0, y.c0), fmul(y.c1, y.c1));
    let (a, w) = (sqr2(y), fadd(uu, vv));
    let (p, q) = (u * u, v * v);
    let alpha = fpow(norm2(a), sqrt_exponent());
    let plus = fmul(fadd(alpha, a.c0), one_half());
    lemma_constants();
    lemma_square_parts(y);
    lemma_norm_of_square(y);
    lemma_stands_mul(y.c0, u, y.c0, u);
    lemma_stands_mul(y.c1, v, y.c1, v);
    lemma_stands_sub(uu, p, vv, q);
    lemma_stands_add(uu, p, vv, q);
    lemma_root(w);
    lemma_negative_square(y.c0);
    lemma_negative_square(y.c1);
    if alpha == w {
        lemma_stands_add(alpha, p + q, a.c0, p - q);
        lemma_doubled(fadd(alpha, a.c0), p);
        lemma_stands_same(plus, uu, p);
    } else {
        lemma_stands_sub(0, 0, w, p + q);
        lemma_stands_add(alpha, 0 - (p + q), a.c0, p - q);
        lemma_doubled(fadd(alpha, a.c0), 0 - q);
        lemma_stands_sub(0, 0, vv, q);
        lemma_stands_same(plus, fneg(vv), 0 - q);
        lemma_stands_sub(plus, 0 - q, alpha, 0 - (p + q));
        lemma_stands_same(fsub(plus, alpha), uu, p);
    }
}

/// The computed root of the square of an element none of whose parts is zero.
proof fn lemma_root_of_complex(y: Ext2)
    requires
        reduced2(y),
        y.c0 != 0,
        y.c1 != 0,
    ensures
        sqr2(y).c1 != 0,
        sqrt2(sqr2(y)) == y || sqrt2(sqr2(y)) == neg2(y),
{
    reveal(sqrt2_complex);
    reveal(neg2);
    let (u, v) = (y.c0 as int, y.c1 as int);
    let a = sqr2(y);
    lemma_constants();
    lemma_square_parts(y);
    lemma_first_part(y);
    lemma_root(y.c0);
    // the half of the second part is u v
    let m = fmul(a.c1, one_half());
    lemma_doubled(a.c1, u * v);
    lemma_stands_mul(y.c0, u, y.c1, v);
    lemma_stands_same(m, fmul(y.c0, y.c1), u * v);
    if a.c1 == 0 {
        lemma_fmul_zero(one_half());
        lemma_no_zero_divisors(y.c0, y.c1);
    }
    let s = fpow(fmul(y.c0, y.c0), sqrt_exponent());
    lemma_field(y.c0);
    let t = finv(y.c0);
    lemma_stands_mul(y.c0, u, t, t as int);
    let n = u * t;
    assert(alike(n, 1));
    if s == y.c0 {
        lemma_stands_mul(m, u * v, t, t as int);
        assert(u * v * t == n * v) by (nonlinear_arith)
            requires
                n == u * t,
        ;
        lemma_alike(n, 1, v, v);
        lemma_stands_same(fmul(m, t), y.c1, v);
    } else {
        let r = fneg(t);
        lemma_stands_sub(0, 0, t, t as int);
        lemma_stands_sub(0, 0, y.c0, u);
        lemma_stands_mul(s, 0 - u, r, 0 - t);
        assert((0 - u) * (0 - t) == n) by (nonlinear_arith)
            requires
                n == u * t,
        ;
        lemma_stands_same(fmul(s, r), 1, 1);
        lemma_finv_unique(s, r);
        lemma_stands_mul(m, u * v, r, 0 - t);
        assert(u * v * (0 - t) == n * (0 - v)) by (nonlinear_arith)
            requires
                n == u * t,
        ;
        lemma_alike(n, 1, 0 - v, 0 - v);
        lemma_stands_sub(0, 0, y.c1, v);
        lemma_stands_same(fmul(m, r), fneg(y.c1), 0 - v);
    }
}

/// The computed root of a square is what was squared or its negative.
pub proof fn lemma_root2(y: Ext2)
    requires
        reduced2(y),
    ensures
        sqrt2(sqr2(y)) == y || sqrt2(sqr2(y)) == neg2(y),
{
    if y.c0 != 0 && y.c1 != 0 {
        lemma_root_of_complex(y);
    } else {
        lemma_root_of_real(y);
    }
}

/// Half a number, twice.
pub proof fn lemma_half_twice(x: nat)
    requires
        x < modulus(),
    ensures
        fadd(fmul(x, one_half()), fmul(x, one_half())) == x,
{
    let (h, p, y) = (one_half() as int, modulus() as int, x as int);
    lemma_constants();
    reveal(fadd);
    reveal(fmul);
    lemma_add_mod_noop(y * h, y * h, p);
    assert(y * h + y * h == p * y + y) by (nonlinear_arith)
        requires
            2 * h == p + 1,
    ;
    lemma_mod_multiples_vanish(y, y, p);
    lemma_small_mod(x, modulus());
}

/// The root that is computed of any element without imaginary part, whether it has
/// one or not: the power `(p + 1) / 4` where that is a root, and else `u` times that
/// power of the negative.
pub proof fn lemma_computed_root_of_real(c: nat, n: nat)
    requires
        4 * n == modulus() + 1,
    ensures
        c != 0 && fmul(fpow(c, n), fpow(c, n)) == c ==> sqrt2(ext2(c, 0)) == ext2(fpow(c, n), 0),
        c == 0 || fmul(fpow(c, n), fpow(c, n)) != c ==> sqrt2(ext2(c, 0)) == ext2(
            0,
            fpow(fneg(c), n),
        ),
{
    lemma_constants();
}

/// The root that is computed of any other element, whether it has one or not. Its
/// real part is the power `(p + 1) / 4` of half the sum of the real part and the
/// norm's root, or, where that half is no square, of the half less the norm's root.
/// Twice the product of its parts is the imaginary part, unless its real part is
/// zero.
pub proof fn lemma_computed_root(a: Ext2, n: nat, alpha: nat, plus: nat)
    requires
        reduced2(a),
        a.c1 != 0,
        4 * n == modulus() + 1,
        alpha == fpow(fadd(fmul(a.c0, a.c0), fmul(a.c1, a.c1)), n),
        plus < modulus(),
        fadd(plus, plus) == fadd(alpha, a.c0),
    ensures
        (exists|s: nat| s < modulus() && #[trigger] fmul(s, s) == plus) ==> sqrt2(a).c0 == fpow(
            plus,
            n,
        ),
        (forall|s: nat| s < modulus() ==> #[trigger] fmul(s, s) != plus) ==> sqrt2(a).c0 == fpow(
            fsub(plus, alpha),
            n,
        ),
        sqrt2(a).c0 == 0 ==> sqrt2(a).c1 == 0,
        sqrt2(a).c0 != 0 ==> fadd(
            fmul(sqrt2(a).c0, sqrt2(a).c1),
            fmul(sqrt2(a).c0, sqrt2(a).c1),
        ) == a.c1,
{
    reveal(sqrt2_complex);
    reveal(norm2);
    let r = sqrt2(a);
    let pi = plus as int;
    lemma_constants();
    lemma_stands_add(plus, pi, plus, pi);
    assert(pi + pi == 2 * pi);
    lemma_doubled(fadd(plus, plus), pi);
    lemma_stands_same(fmul(fadd(plus, plus), one_half()), plus, pi);
    lemma_nonresidue(plus);
    lemma_stands_pow(plus, pi, n);
    lemma_stands_pow(fsub(plus, alpha), fsub(plus, alpha) as int, n);
    let h = fmul(a.c1, one_half());
    if r.c0 == 0 {
        lemma_finv_zero();
        lemma_fmul_zero(h);
    } else {
        // r0 (h / r0) = h, and twice that is c1
        lemma_field(r.c0);
        lemma_fmul_commutes(h, finv(r.c0));
        lemma_fmul_associates(r.c0, finv(r.c0), h);
        lemma_fmul_reduced(a.c1, one_half());
        lemma_fmul_one(h);
        lemma_half_twice(a.c1);
    }
}

} // verus!
