//! What the formulas in Jacobian coordinates are to the addition of the curve's
//! points by chords and tangents. The base field is part of the quadratic
//! extension, where the same is shown of the twist.

use crate::math::curve::{
    add1, affine1, affine2, chord1, chord2, coeff_b1, double1, double_jac2, into_group1, jac1, jac2,
    lemma_to_affine1_normal, msm1, on_curve1, reduced_jac1, same_point1, same_point2, times1,
    to_affine1, to_affine2, Aff1, Aff2, Jac1, Jac2,
};
use crate::math::field::{
    fadd, finv, fmul, fneg, fsub, lemma_constants, lemma_fadd_reduced, lemma_fadd_zero,
    lemma_finv_unique, lemma_finv_zero, lemma_fmul_associates, lemma_fmul_commutes, lemma_fmul_one,
    lemma_fmul_reduced, lemma_fmul_zero, lemma_fsub_reduced, lemma_fsub_zero, lemma_twice, modulus,
};
use crate::math::inverse::lemma_mul2_base;
use crate::math::prime_modulus::{lemma_field, lemma_no_zero_divisors};
use crate::math::residues::lemma_same_squares;
use crate::math::ring::{lemma_stands_add, lemma_stands_mul, lemma_stands_same, lemma_stands_sub};
use crate::math::tower::{add2, dbl2, ext2, inv2, mul2, norm2, sub2, triple2, Ext2};
use crate::math::twist_addition::{
    is_on, lemma_add_jac2, lemma_double_jac2, lemma_same_point2, lemma_sum_commutes2,
    lemma_sum_stays, sum2, third_point2,
};
use vstd::prelude::*;

verus! {

/// The point at infinity.
pub open spec fn infinity1() -> Aff1 {
    Aff1 { x: 0, y: 0, infinity: true }
}

/// The slope of the tangent at `(x, y)`: `3 x^2 / (2 y)`.
pub open spec fn tangent_slope(x: nat, y: nat) -> nat {
    fmul(fmul(3, fmul(x, x)), finv(fadd(y, y)))
}

/// The slope of the chord through `(x1, y1)` and `(x2, y2)`:
/// `(y1 - y2) / (x1 - x2)`.
pub open spec fn chord_slope(x1: nat, y1: nat, x2: nat, y2: nat) -> nat {
    fmul(fsub(y1, y2), finv(fsub(x1, x2)))
}

/// The third point of the line with slope `l` through `(x1, y1)` and a point with
/// the abscissa `x2`, mirrored: `x3 = l^2 - x1 - x2` and
/// `y3 = l (x1 - x3) - y1`.
pub open spec fn third_point(l: nat, x1: nat, y1: nat, x2: nat) -> Aff1 {
    let x3 = fsub(fsub(fmul(l, l), x1), x2);
    Aff1 { x: x3, y: fsub(fmul(l, fsub(x1, x3)), y1), infinity: false }
}

/// The sum of two points of the curve.
pub open spec fn sum1(p: Aff1, q: Aff1) -> Aff1 {
    if p.infinity {
        q
    } else if q.infinity {
        p
    } else if p.x != q.x {
        third_point(chord_slope(p.x, p.y, q.x, q.y), p.x, p.y, q.x)
    } else if p.y == q.y && p.y != 0 {
        third_point(tangent_slope(p.x, p.y), p.x, p.y, q.x)
    } else {
        infinity1()
    }
}

pub open spec fn reduced_aff1(p: Aff1) -> bool {
    p.x < modulus() && p.y < modulus()
}

/// A number as an element of the quadratic extension.
spec fn base(x: nat) -> Ext2 {
    ext2(x, 0)
}

spec fn base_point(p: Jac1) -> Jac2 {
    jac2(base(p.x), base(p.y), base(p.z))
}

spec fn base_affine(p: Aff1) -> Aff2 {
    Aff2 { x: base(p.x), y: base(p.y), infinity: p.infinity }
}

/// Sums, differences and products of numbers.
proof fn lemma_base(x: nat, y: nat)
    ensures
        add2(base(x), base(y)) == base(fadd(x, y)),
        sub2(base(x), base(y)) == base(fsub(x, y)),
        mul2(base(x), base(y)) == base(fmul(x, y)),
        dbl2(base(x)) == base(fadd(x, x)),
        triple2(base(x)) == base(fadd(fadd(x, x), x)),
{
    reveal(add2);
    reveal(sub2);
    lemma_constants();
    lemma_fadd_zero(0);
    lemma_fsub_zero(0, 0);
    lemma_mul2_base(x, y);
}

/// The inverse of a number.
proof fn lemma_base_inverse(x: nat)
    requires
        x < modulus(),
    ensures
        inv2(base(x)) == base(finv(x)),
{
    reveal(inv2);
    reveal(norm2);
    let n = fmul(x, x);
    lemma_constants();
    lemma_fmul_zero(0);
    lemma_fmul_reduced(x, x);
    lemma_fadd_zero(n);
    let t = finv(n);
    lemma_fmul_zero(t);
    lemma_fsub_zero(0, 0);
    if x == 0 {
        lemma_finv_zero();
    } else {
        if n == 0 {
            lemma_no_zero_divisors(x, x);
        }
        lemma_field(n);
        // x (x t) = 1
        lemma_fmul_associates(x, x, t);
        lemma_fmul_reduced(x, t);
        lemma_finv_unique(x, fmul(x, t));
    }
}

/// Both doubling formulas agree.
proof fn lemma_base_double(p: Jac1)
    ensures
        double_jac2(base_point(p)) == base_point(double1(p)),
{
    reveal(double1);
    reveal(double_jac2);
    let a = fmul(p.x, p.x);
    let b = fmul(p.y, p.y);
    let c = fmul(b, b);
    let xb = fadd(p.x, b);
    let d0 = fsub(fmul(xb, xb), fadd(a, c));
    let d = fadd(d0, d0);
    let e = fadd(fadd(a, a), a);
    let x3 = fsub(fmul(e, e), fadd(d, d));
    let c2 = fadd(c, c);
    let c4 = fadd(c2, c2);
    lemma_base(p.x, p.x);
    lemma_base(p.y, p.y);
    lemma_base(b, b);
    lemma_base(p.x, b);
    lemma_base(xb, xb);
    lemma_base(a, c);
    lemma_base(fmul(xb, xb), fadd(a, c));
    lemma_base(d0, d0);
    lemma_base(a, a);
    lemma_base(e, e);
    lemma_base(d, d);
    lemma_base(fmul(e, e), fadd(d, d));
    lemma_base(d, x3);
    lemma_base(e, fsub(d, x3));
    lemma_base(c, c);
    lemma_base(c2, c2);
    lemma_base(c4, c4);
    lemma_base(fmul(e, fsub(d, x3)), fadd(c4, c4));
    lemma_base(p.y, p.z);
    lemma_base(fmul(p.y, p.z), fmul(p.y, p.z));
}

/// Both formulas of a chord agree.
proof fn lemma_base_chord(p: Jac1, q: Jac1)
    ensures
        chord2(base_point(p), base_point(q)) == base_point(chord1(p, q)),
        same_point2(base_point(p), base_point(q)) == same_point1(p, q),
{
    reveal(chord1);
    reveal(chord2);
    reveal(same_point1);
    reveal(same_point2);
    let pz2 = fmul(p.z, p.z);
    let qz2 = fmul(q.z, q.z);
    let u1 = fmul(p.x, qz2);
    let u2 = fmul(q.x, pz2);
    let s1 = fmul(p.y, fmul(qz2, q.z));
    let s2 = fmul(q.y, fmul(pz2, p.z));
    let r = fsub(s1, s2);
    let h = fsub(u1, u2);
    let h2 = fmul(h, h);
    let g = fmul(h, h2);
    let v = fmul(u1, h2);
    let x3 = fsub(fadd(fmul(r, r), g), fadd(v, v));
    lemma_base(p.z, p.z);
    lemma_base(q.z, q.z);
    lemma_base(p.x, qz2);
    lemma_base(q.x, pz2);
    lemma_base(qz2, q.z);
    lemma_base(pz2, p.z);
    lemma_base(p.y, fmul(qz2, q.z));
    lemma_base(q.y, fmul(pz2, p.z));
    lemma_base(s1, s2);
    lemma_base(u1, u2);
    lemma_base(h, h);
    lemma_base(h, h2);
    lemma_base(u1, h2);
    lemma_base(r, r);
    lemma_base(fmul(r, r), g);
    lemma_base(v, v);
    lemma_base(fadd(fmul(r, r), g), fadd(v, v));
    lemma_base(v, x3);
    lemma_base(r, fsub(v, x3));
    lemma_base(s1, g);
    lemma_base(fmul(r, fsub(v, x3)), fmul(s1, g));
    lemma_base(p.z, q.z);
    lemma_base(fmul(p.z, q.z), h);
}

/// Both affine forms agree.
proof fn lemma_base_affine(p: Jac1)
    requires
        reduced_jac1(p),
    ensures
        to_affine2(base_point(p)) == base_affine(to_affine1(p)),
{
    reveal(affine1);
    reveal(affine2);
    let t = finv(p.z);
    let t2 = fmul(t, t);
    lemma_base_inverse(p.z);
    lemma_base(t, t);
    lemma_base(p.x, t2);
    lemma_base(t2, t);
    lemma_base(p.y, fmul(t2, t));
}

/// The affine form of reduced coordinates is reduced.
pub proof fn lemma_affine_reduced(p: Jac1)
    ensures
        reduced_aff1(to_affine1(p)),
{
    reveal(affine1);
    let t = finv(p.z);
    let t2 = fmul(t, t);
    lemma_constants();
    lemma_fmul_reduced(p.x, t2);
    lemma_fmul_reduced(p.y, fmul(t2, t));
}

proof fn lemma_base_third(l: nat, x1: nat, y1: nat, x2: nat)
    ensures
        third_point2(base(l), base(x1), base(y1), base(x2)) == base_affine(
            third_point(l, x1, y1, x2),
        ),
{
    let x3 = fsub(fsub(fmul(l, l), x1), x2);
    lemma_base(l, l);
    lemma_base(fmul(l, l), x1);
    lemma_base(fsub(fmul(l, l), x1), x2);
    lemma_base(x1, x3);
    lemma_base(l, fsub(x1, x3));
    lemma_base(fmul(l, fsub(x1, x3)), y1);
}

/// Both sums agree.
proof fn lemma_base_sum(p: Aff1, q: Aff1)
    requires
        reduced_aff1(p),
        reduced_aff1(q),
    ensures
        sum2(base_affine(p), base_affine(q)) == base_affine(sum1(p, q)),
{
    lemma_constants();
    if p.infinity || q.infinity {
    } else if p.x != q.x {
        let (d, e) = (fsub(p.x, q.x), fsub(p.y, q.y));
        lemma_base(p.x, q.x);
        lemma_base(p.y, q.y);
        lemma_fsub_reduced(p.x, q.x);
        lemma_base_inverse(d);
        lemma_base(e, finv(d));
        lemma_base_third(chord_slope(p.x, p.y, q.x, q.y), p.x, p.y, q.x);
    } else if p.y == q.y && p.y != 0 {
        let (n, d) = (fmul(p.x, p.x), fadd(p.y, p.y));
        lemma_base(p.x, p.x);
        lemma_base(n, n);
        lemma_base(p.y, p.y);
        lemma_fadd_reduced(p.y, p.y);
        lemma_base_inverse(d);
        // 3 n = n + n + n
        let ni = n as int;
        lemma_stands_mul(3, 3, n, ni);
        lemma_stands_add(n, ni, n, ni);
        lemma_stands_add(fadd(n, n), ni + ni, n, ni);
        lemma_stands_same(fmul(3, n), fadd(fadd(n, n), n), 3 * ni);
        lemma_base(fmul(3, n), finv(d));
        lemma_base_third(tangent_slope(p.x, p.y), p.x, p.y, q.x);
    }
}

/// Doubling in Jacobian coordinates adds the point to itself.
pub proof fn lemma_double1(p: Jac1)
    requires
        reduced_jac1(p),
    ensures
        reduced_jac1(double1(p)),
        to_affine1(double1(p)) == sum1(to_affine1(p), to_affine1(p)),
{
    lemma_constants();
    lemma_base_double(p);
    lemma_double_jac2(base_point(p));
    lemma_base_affine(p);
    lemma_base_affine(double1(p));
    lemma_affine_reduced(p);
    lemma_base_sum(to_affine1(p), to_affine1(p));
}

/// Points that are not at infinity are equal where their affine forms are.
pub proof fn lemma_same_point1(p: Jac1, q: Jac1)
    requires
        reduced_jac1(p),
        reduced_jac1(q),
        p.z != 0,
        q.z != 0,
    ensures
        same_point1(p, q) <==> to_affine1(p) == to_affine1(q),
{
    lemma_constants();
    lemma_base_chord(p, q);
    lemma_same_point2(base_point(p), base_point(q));
    lemma_base_affine(p);
    lemma_base_affine(q);
}

/// Addition in Jacobian coordinates is the addition of the curve's points: the
/// affine form of the sum is `(l^2 - x1 - x2, l (x1 - x3) - y1)`, where `l` is the
/// slope of the chord through two points or of the tangent at one.
pub proof fn lemma_add1(p: Jac1, q: Jac1)
    requires
        reduced_jac1(p),
        reduced_jac1(q),
    ensures
        reduced_jac1(add1(p, q)),
        to_affine1(add1(p, q)) == sum1(to_affine1(p), to_affine1(q)),
{
    lemma_constants();
    lemma_base_double(p);
    lemma_base_chord(p, q);
    lemma_add_jac2(base_point(p), base_point(q));
    lemma_base_affine(p);
    lemma_base_affine(q);
    lemma_base_affine(add1(p, q));
    lemma_affine_reduced(p);
    lemma_affine_reduced(q);
    lemma_base_sum(to_affine1(p), to_affine1(q));
}

/// Whether an affine point is one of the curve's.
pub open spec fn is_point1(p: Aff1) -> bool {
    p.infinity || on_curve1(p)
}

/// Both equations agree.
proof fn lemma_base_equation(p: Aff1)
    ensures
        is_on(base_affine(p), base(coeff_b1())) == is_point1(p),
{
    let n = fmul(p.x, p.x);
    lemma_base(p.y, p.y);
    lemma_base(p.x, p.x);
    lemma_base(n, p.x);
    lemma_base(fmul(n, p.x), coeff_b1());
}

/// The sum of two points of the curve is one of its points.
pub proof fn lemma_sum_on_curve(p: Aff1, q: Aff1)
    requires
        reduced_aff1(p),
        reduced_aff1(q),
        is_point1(p),
        is_point1(q),
    ensures
        reduced_aff1(sum1(p, q)),
        is_point1(sum1(p, q)),
{
    lemma_constants();
    lemma_base_equation(p);
    lemma_base_equation(q);
    lemma_base_equation(sum1(p, q));
    lemma_base_sum(p, q);
    lemma_sum_stays(base_affine(p), base_affine(q), base(coeff_b1()));
}

/// Points of the curve with the same abscissa are equal or opposite.
pub proof fn lemma_opposite(p: Aff1, q: Aff1)
    requires
        reduced_aff1(p),
        reduced_aff1(q),
        on_curve1(p),
        on_curve1(q),
        p.x == q.x,
        p.y != q.y,
    ensures
        fadd(p.y, q.y) == 0,
{
    let y = p.y as int;
    lemma_constants();
    lemma_same_squares(p.y, q.y);
    lemma_stands_sub(0, 0, p.y, y);
    lemma_stands_add(p.y, y, fneg(p.y), 0 - y);
    lemma_stands_same(fadd(p.y, q.y), 0, 0);
}

/// The order of the two points of a sum makes no difference.
pub proof fn lemma_sum_commutes(p: Aff1, q: Aff1)
    requires
        reduced_aff1(p),
        reduced_aff1(q),
        !p.infinity || !q.infinity,
    ensures
        sum1(p, q) == sum1(q, p),
{
    lemma_constants();
    lemma_base_sum(p, q);
    lemma_base_sum(q, p);
    lemma_sum_commutes2(base_affine(p), base_affine(q));
}

/// The `n`-fold of a point of the curve, by doubling and adding.
pub open spec fn multiple1(p: Aff1, n: nat) -> Aff1
    decreases n,
{
    if n == 0 {
        infinity1()
    } else {
        let h = multiple1(p, n / 2);
        if n % 2 == 1 {
            sum1(sum1(h, h), p)
        } else {
            sum1(h, h)
        }
    }
}

/// The sum of the first `n` points of the curve, each times its scalar.
pub open spec fn combination1(scalars: Seq<nat>, points: Seq<Aff1>, n: nat) -> Aff1
    decreases n,
{
    if n == 0 {
        infinity1()
    } else {
        sum1(
            combination1(scalars, points, (n - 1) as nat),
            multiple1(points[n - 1], scalars[n - 1]),
        )
    }
}

/// The affine form of a point times a number is the affine form times it.
pub proof fn lemma_times1(p: Jac1, n: nat)
    requires
        reduced_jac1(p),
    ensures
        reduced_jac1(times1(p, n)),
        to_affine1(times1(p, n)) == multiple1(to_affine1(p), n),
    decreases n,
{
    lemma_constants();
    if n != 0 {
        let h = times1(p, n / 2);
        lemma_times1(p, n / 2);
        lemma_double1(h);
        if n % 2 == 1 {
            lemma_add1(double1(h), p);
        }
    }
}

/// An affine point is the affine form of its three coordinates.
pub proof fn lemma_into_group1(p: Aff1)
    requires
        reduced_aff1(p),
    ensures
        reduced_jac1(into_group1(p)),
        to_affine1(into_group1(p)) == (if p.infinity {
            infinity1()
        } else {
            p
        }),
{
    lemma_constants();
    if !p.infinity {
        lemma_to_affine1_normal(into_group1(p));
    }
}

/// The affine forms of points.
pub open spec fn affine_points(ps: Seq<Jac1>) -> Seq<Aff1> {
    Seq::new(ps.len(), |i: int| to_affine1(ps[i]))
}

/// The affine form of a sum of multiples is the sum of the multiples of the
/// affine forms.
pub proof fn lemma_msm1(scalars: Seq<nat>, bases: Seq<Jac1>, n: nat)
    requires
        n <= scalars.len(),
        n <= bases.len(),
        forall|i: int| 0 <= i < n ==> reduced_jac1(#[trigger] bases[i]),
    ensures
        reduced_jac1(msm1(scalars, bases, n)),
        to_affine1(msm1(scalars, bases, n)) == combination1(scalars, affine_points(bases), n),
    decreases n,
{
    lemma_constants();
    if n != 0 {
        lemma_msm1(scalars, bases, (n - 1) as nat);
        lemma_times1(bases[n - 1], scalars[n - 1]);
        lemma_add1(
            msm1(scalars, bases, (n - 1) as nat),
            times1(bases[n - 1], scalars[n - 1]),
        );
    }
}

/// The multiples of a point of the curve are points of the curve.
pub proof fn lemma_multiple_on_curve(p: Aff1, n: nat)
    requires
        reduced_aff1(p),
        is_point1(p),
    ensures
        reduced_aff1(multiple1(p, n)),
        is_point1(multiple1(p, n)),
    decreases n,
{
    lemma_constants();
    if n != 0 {
        let h = multiple1(p, n / 2);
        lemma_multiple_on_curve(p, n / 2);
        lemma_sum_on_curve(h, h);
        lemma_sum_on_curve(sum1(h, h), p);
    }
}

/// A sum of multiples of points of the curve is a point of the curve.
pub proof fn lemma_combination_on_curve(scalars: Seq<nat>, points: Seq<Aff1>, n: nat)
    requires
        n <= scalars.len(),
        n <= points.len(),
        forall|i: int|
            0 <= i < n ==> reduced_aff1(#[trigger] points[i]) && is_point1(points[i]),
    ensures
        reduced_aff1(combination1(scalars, points, n)),
        is_point1(combination1(scalars, points, n)),
    decreases n,
{
    lemma_constants();
    if n != 0 {
        lemma_combination_on_curve(scalars, points, (n - 1) as nat);
        lemma_multiple_on_curve(points[n - 1], scalars[n - 1]);
        lemma_sum_on_curve(
            combination1(scalars, points, (n - 1) as nat),
            multiple1(points[n - 1], scalars[n - 1]),
        );
    }
}

/// A line with slope `l = e / d` through `(x1, y1)` meets the curve again where the
/// slope says.
proof fn lemma_third_point(l: nat, d: nat, e: nat, x1: nat, y1: nat, x2: nat)
    requires
        fmul(l, d) == e,
    ensures
        ({
            let s = third_point(l, x1, y1, x2);
            &&& fmul(fadd(fadd(s.x, x1), x2), fmul(d, d)) == fmul(e, e)
            &&& fmul(fadd(s.y, y1), d) == fmul(e, fsub(x1, s.x))
        }),
{
    let s = third_point(l, x1, y1, x2);
    let (li, di, a, b, c) = (l as int, d as int, x1 as int, y1 as int, x2 as int);
    let l2 = fmul(l, l);
    let t = fsub(x1, s.x);
    let ti = t as int;
    lemma_constants();
    lemma_stands_mul(l, li, l, li);
    lemma_stands_sub(l2, li * li, x1, a);
    lemma_stands_sub(fsub(l2, x1), li * li - a, x2, c);
    lemma_stands_add(s.x, li * li - a - c, x1, a);
    lemma_stands_add(fadd(s.x, x1), li * li - a - c + a, x2, c);
    let u = fadd(fadd(s.x, x1), x2);
    lemma_stands_mul(d, di, d, di);
    lemma_stands_mul(u, li * li, fmul(d, d), di * di);
    lemma_stands_mul(l, li, d, di);
    lemma_stands_mul(e, li * di, e, li * di);
    assert((li * li) * (di * di) == (li * di) * (li * di)) by (nonlinear_arith);
    lemma_stands_same(fmul(u, fmul(d, d)), fmul(e, e), (li * li) * (di * di));
    lemma_stands_mul(l, li, t, ti);
    lemma_stands_sub(fmul(l, t), li * ti, y1, b);
    lemma_stands_add(s.y, li * ti - b, y1, b);
    let v = fadd(s.y, y1);
    lemma_stands_mul(v, li * ti, d, di);
    lemma_stands_mul(e, li * di, t, ti);
    assert((li * ti) * di == (li * di) * ti) by (nonlinear_arith);
    lemma_stands_same(fmul(v, d), fmul(e, t), (li * ti) * di);
}

/// The sum of two points, without division: with the point at infinity it is the
/// other point. The sum `s` of points with different abscissas `x1` and `x2` has
/// `(s.x + x1 + x2) (x1 - x2)^2 = (y1 - y2)^2` and
/// `(s.y + y1) (x1 - x2) = (y1 - y2) (x1 - s.x)`, that of a point with itself
/// `(s.x + 2 x) (2 y)^2 = (3 x^2)^2` and `(s.y + y) (2 y) = 3 x^2 (x - s.x)`, and any
/// other is at infinity.
pub proof fn lemma_sum(p: Aff1, q: Aff1)
    requires
        reduced_aff1(p),
        reduced_aff1(q),
    ensures
        p.infinity ==> sum1(p, q) == q,
        q.infinity && !p.infinity ==> sum1(p, q) == p,
        !p.infinity && !q.infinity && p.x != q.x ==> ({
            let s = sum1(p, q);
            let (d, e) = (fsub(p.x, q.x), fsub(p.y, q.y));
            &&& !s.infinity
            &&& fmul(fadd(fadd(s.x, p.x), q.x), fmul(d, d)) == fmul(e, e)
            &&& fmul(fadd(s.y, p.y), d) == fmul(e, fsub(p.x, s.x))
        }),
        !p.infinity && !q.infinity && p.x == q.x && p.y == q.y && p.y != 0 ==> ({
            let s = sum1(p, q);
            let (d, e) = (fadd(p.y, p.y), fmul(3, fmul(p.x, p.x)));
            &&& !s.infinity
            &&& fmul(fadd(fadd(s.x, p.x), q.x), fmul(d, d)) == fmul(e, e)
            &&& fmul(fadd(s.y, p.y), d) == fmul(e, fsub(p.x, s.x))
        }),
        !p.infinity && !q.infinity && p.x == q.x && (p.y != q.y || p.y == 0) ==> sum1(
            p,
            q,
        ).infinity,
{
    lemma_constants();
    if !p.infinity && !q.infinity {
        if p.x != q.x {
            let (d, e) = (fsub(p.x, q.x), fsub(p.y, q.y));
            lemma_fsub_reduced(p.x, q.x);
            lemma_fsub_reduced(p.y, q.y);
            lemma_fsub_zero(p.x, q.x);
            lemma_slope(d, e);
            lemma_third_point(fmul(e, finv(d)), d, e, p.x, p.y, q.x);
        } else if p.y == q.y && p.y != 0 {
            let (d, e) = (fadd(p.y, p.y), fmul(3, fmul(p.x, p.x)));
            lemma_fadd_reduced(p.y, p.y);
            lemma_fmul_reduced(3, fmul(p.x, p.x));
            lemma_twice(p.y);
            lemma_slope(d, e);
            lemma_third_point(fmul(e, finv(d)), d, e, p.x, p.y, q.x);
        }
    }
}

/// A quotient times its divisor.
proof fn lemma_slope(d: nat, e: nat)
    requires
        0 < d < modulus(),
        e < modulus(),
    ensures
        fmul(fmul(e, finv(d)), d) == e,
{
    lemma_field(d);
    lemma_fmul_associates(e, finv(d), d);
    lemma_fmul_commutes(finv(d), d);
    lemma_fmul_one(e);
}

/// No times a point is the point at infinity, once is the point, twice as often is
/// the sum with itself, and once more adds the point.
pub proof fn lemma_multiples(p: Aff1, n: nat)
    ensures
        multiple1(p, 0) == infinity1(),
        multiple1(p, 1) == p,
        multiple1(p, 2 * n) == sum1(multiple1(p, n), multiple1(p, n)),
        multiple1(p, 2 * n + 1) == sum1(multiple1(p, 2 * n), p),
{
    reveal_with_fuel(multiple1, 2);
    assert((2 * n) / 2 == n && (2 * n + 1) / 2 == n);
}

/// The coordinates of a point are those of its affine form, times the square and
/// the cube of the third coordinate.
pub proof fn lemma_affine_multiples(p: Jac1)
    requires
        reduced_jac1(p),
        p.z != 0,
    ensures
        !to_affine1(p).infinity,
        fmul(to_affine1(p).x, fmul(p.z, p.z)) == p.x,
        fmul(to_affine1(p).y, fmul(fmul(p.z, p.z), p.z)) == p.y,
        affine1(p) == jac1(to_affine1(p).x, to_affine1(p).y, 1),
{
    reveal(affine1);
    let t = finv(p.z);
    let (t2, z2) = (fmul(t, t), fmul(p.z, p.z));
    let (t3, z3) = (fmul(t2, t), fmul(z2, p.z));
    let (ti, zi) = (t as int, p.z as int);
    lemma_constants();
    lemma_field(p.z);
    lemma_stands_mul(p.z, zi, t, ti);
    lemma_stands_mul(t, ti, t, ti);
    lemma_stands_mul(p.z, zi, p.z, zi);
    lemma_stands_mul(t2, ti * ti, z2, zi * zi);
    lemma_stands_mul(1, zi * ti, 1, zi * ti);
    lemma_fmul_one(1);
    assert((ti * ti) * (zi * zi) == (zi * ti) * (zi * ti)) by (nonlinear_arith);
    lemma_stands_same(fmul(t2, z2), 1, (ti * ti) * (zi * zi));
    // t3 z3 = (t2 z2) (t z)
    lemma_stands_mul(t2, ti * ti, t, ti);
    lemma_stands_mul(z2, zi * zi, p.z, zi);
    lemma_stands_mul(t3, ti * ti * ti, z3, zi * zi * zi);
    lemma_stands_mul(1, (ti * ti) * (zi * zi), 1, zi * ti);
    assert((ti * ti * ti) * (zi * zi * zi) == ((ti * ti) * (zi * zi)) * (zi * ti))
        by (nonlinear_arith);
    lemma_stands_same(fmul(t3, z3), 1, (ti * ti * ti) * (zi * zi * zi));
    lemma_fmul_associates(p.x, t2, z2);
    lemma_fmul_associates(p.y, t3, z3);
    lemma_fmul_one(p.x);
    lemma_fmul_one(p.y);
}

/// The third coordinate of a sum: that of the other point where one is at infinity,
/// `2 y z` where both are equal, and else the product of both third coordinates with
/// the difference of the abscissas, each times the square of the other's third
/// coordinate. A point times zero, and the sum of no points, are zero everywhere.
pub proof fn lemma_third_coordinate(p: Jac1, q: Jac1, scalars: Seq<nat>, bases: Seq<Jac1>)
    requires
        reduced_jac1(p),
        reduced_jac1(q),
    ensures
        p.z == 0 ==> add1(p, q) == q,
        p.z != 0 && q.z == 0 ==> add1(p, q) == p,
        p.z != 0 && q.z != 0 && to_affine1(p) == to_affine1(q) ==> add1(p, q) == double1(p),
        p.z != 0 && q.z != 0 && to_affine1(p) != to_affine1(q) ==> add1(p, q).z == fmul(
            fmul(p.z, q.z),
            fsub(fmul(p.x, fmul(q.z, q.z)), fmul(q.x, fmul(p.z, p.z))),
        ),
        double1(p).z == fadd(fmul(p.y, p.z), fmul(p.y, p.z)),
        times1(p, 0) == jac1(0, 0, 0),
        msm1(scalars, bases, 0) == jac1(0, 0, 0),
{
    reveal(chord1);
    reveal(double1);
    if p.z != 0 && q.z != 0 {
        lemma_same_point1(p, q);
    }
}

} // verus!
