//! The BN254 curve and its twist, the lines of the optimal ate pairing, the
//! Miller loop and the final exponentiation.

use crate::math::field::{
    fadd, finv, fmul, fneg, fpow, fsub, lemma_constants, lemma_fadd_zero, lemma_finv_unique,
    lemma_fmul_one, lemma_fmul_zero, lemma_fneg_neg, modulus, sqrt_exponent,
};
use crate::math::roots::sqrt2;
use crate::math::tower::{
    add2, add6, conj12, cyclotomic_sqr12, dbl2, ext2, ext6, frob12, frob2, half2, inv12, inv2,
    lemma_add2_zero, lemma_mul2_one, lemma_mul2_zero, mul12, mul2, mul6, mul_v, neg2, norm2, one12,
    one2, pow12, reduced2, scale2, sparse034, sqr12, sqr2, sub2, triple2, xi, zero2, Ext12, Ext2,
    Ext6,
};
use vstd::prelude::*;

verus! {

/// An affine point of the curve.
pub struct Aff1 {
    pub x: nat,
    pub y: nat,
    pub infinity: bool,
}

/// An affine point of the twist.
pub struct Aff2 {
    pub x: Ext2,
    pub y: Ext2,
    pub infinity: bool,
}

/// A point of the curve by three coordinates.
pub struct Jac1 {
    pub x: nat,
    pub y: nat,
    pub z: nat,
}

/// A point of the twist by three coordinates.
pub struct Jac2 {
    pub x: Ext2,
    pub y: Ext2,
    pub z: Ext2,
}

pub open spec fn jac1(x: nat, y: nat, z: nat) -> Jac1 {
    Jac1 { x, y, z }
}

pub open spec fn jac2(x: Ext2, y: Ext2, z: Ext2) -> Jac2 {
    Jac2 { x, y, z }
}

pub open spec fn reduced_jac1(p: Jac1) -> bool {
    p.x < modulus() && p.y < modulus() && p.z < modulus()
}

pub open spec fn reduced_jac2(p: Jac2) -> bool {
    reduced2(p.x) && reduced2(p.y) && reduced2(p.z)
}

/// The three coordinates of an affine point.
pub open spec fn into_group1(p: Aff1) -> Jac1 {
    if p.infinity {
        jac1(1, 1, 0)
    } else {
        jac1(p.x, p.y, 1)
    }
}

pub open spec fn neg_aff2(q: Aff2) -> Aff2 {
    Aff2 { x: q.x, y: neg2(q.y), infinity: q.infinity }
}

/// The constant of the curve `y^2 = x^3 + 3`.
pub open spec fn coeff_b1() -> nat {
    3
}

/// The constant `3 / xi` of the twist `y^2 = x^3 + 3 / xi`.
pub open spec fn coeff_b2() -> Ext2 {
    ext2(
        19485874751759354771024239261021720505790618469301721065564631296452457478373nat,
        266929791119991161246907387137283842545076965332900288569378510910307636690nat,
    )
}

/// `xi^((p - 1) / 3)`.
pub open spec fn twist_q_x() -> Ext2 {
    ext2(
        21575463638280843010398324269430826099269044274347216827212613867836435027261nat,
        10307601595873709700152284273816112264069230130616436755625194854815875713954nat,
    )
}

/// `xi^((p - 1) / 2)`.
pub open spec fn twist_q_y() -> Ext2 {
    ext2(
        2821565182194536844548159561693502659359617185244120367078079554186484126554nat,
        3505843767911556378687030309984248845540243509899259641013678093033130930403nat,
    )
}

/// Whether the coordinates of an affine point are on the curve.
pub open spec fn on_curve1(p: Aff1) -> bool {
    fmul(p.y, p.y) == fadd(fmul(fmul(p.x, p.x), p.x), coeff_b1())
}

/// Whether the coordinates of an affine point are on the twist.
pub open spec fn on_curve2(p: Aff2) -> bool {
    sqr2(p.y) == add2(mul2(sqr2(p.x), p.x), coeff_b2())
}

/// Doubling in Jacobian coordinates, for a curve `y^2 = x^3 + b`.
#[verifier::opaque]
pub open spec fn double1(p: Jac1) -> Jac1 {
    let a = fmul(p.x, p.x);
    let b = fmul(p.y, p.y);
    let c = fmul(b, b);
    let xb = fadd(p.x, b);
    let d0 = fsub(fmul(xb, xb), fadd(a, c));
    let d = fadd(d0, d0);
    let e = fadd(fadd(a, a), a);
    let f = fmul(e, e);
    let x3 = fsub(f, fadd(d, d));
    let c2 = fadd(c, c);
    let c4 = fadd(c2, c2);
    let y3 = fsub(fmul(e, fsub(d, x3)), fadd(c4, c4));
    let yz = fmul(p.y, p.z);
    jac1(x3, y3, fadd(yz, yz))
}

/// Addition in Jacobian coordinates of points that are neither equal nor at
/// infinity.
#[verifier::opaque]
pub open spec fn chord1(p: Jac1, q: Jac1) -> Jac1 {
    let pz2 = fmul(p.z, p.z);
    let qz2 = fmul(q.z, q.z);
    let u1 = fmul(p.x, qz2);
    let u2 = fmul(q.x, pz2);
    let s1 = fmul(p.y, fmul(qz2, q.z));
    let s2 = fmul(q.y, fmul(pz2, p.z));
    let r = fsub(s1, s2);
    let h = fsub(u1, u2);
    let h2 = fmul(h, h);
    let g = fmul(h, h2);
    let v = fmul(u1, h2);
    let x3 = fsub(fadd(fmul(r, r), g), fadd(v, v));
    let y3 = fsub(fmul(r, fsub(v, x3)), fmul(s1, g));
    jac1(x3, y3, fmul(fmul(p.z, q.z), h))
}

/// Whether two points that are not at infinity are equal.
#[verifier::opaque]
pub open spec fn same_point1(p: Jac1, q: Jac1) -> bool {
    let pz2 = fmul(p.z, p.z);
    let qz2 = fmul(q.z, q.z);
    &&& fmul(p.x, qz2) == fmul(q.x, pz2)
    &&& fmul(p.y, fmul(qz2, q.z)) == fmul(q.y, fmul(pz2, p.z))
}

/// Addition in Jacobian coordinates.
pub open spec fn add1(p: Jac1, q: Jac1) -> Jac1 {
    if p.z == 0 {
        q
    } else if q.z == 0 {
        p
    } else if same_point1(p, q) {
        double1(p)
    } else {
        chord1(p, q)
    }
}

/// The affine form `(x / z^2, y / z^3, 1)`.
#[verifier::opaque]
pub open spec fn affine1(p: Jac1) -> Jac1 {
    let t = finv(p.z);
    let t2 = fmul(t, t);
    jac1(fmul(p.x, t2), fmul(p.y, fmul(t2, t)), 1)
}

/// The affine point of three Jacobian coordinates.
pub open spec fn to_affine1(p: Jac1) -> Aff1 {
    if p.z == 0 {
        Aff1 { x: 0, y: 0, infinity: true }
    } else {
        Aff1 { x: affine1(p).x, y: affine1(p).y, infinity: false }
    }
}

/// The `n`-fold of a point, by doubling and adding.
pub open spec fn times1(p: Jac1, n: nat) -> Jac1
    decreases n,
{
    if n == 0 {
        jac1(0, 0, 0)
    } else {
        let d = double1(times1(p, n / 2));
        if n % 2 == 1 {
            add1(d, p)
        } else {
            d
        }
    }
}

/// The sum of the first `n` points, each times its scalar.
pub open spec fn msm1(scalars: Seq<nat>, bases: Seq<Jac1>, n: nat) -> Jac1
    decreases n,
{
    if n == 0 {
        jac1(0, 0, 0)
    } else {
        add1(
            msm1(scalars, bases, (n - 1) as nat),
            times1(bases[n - 1], scalars[n - 1]),
        )
    }
}

#[verifier::opaque]
pub open spec fn double_jac2(p: Jac2) -> Jac2 {
    let a = sqr2(p.x);
    let b = sqr2(p.y);
    let c = sqr2(b);
    let d = dbl2(sub2(sqr2(add2(p.x, b)), add2(a, c)));
    let e = triple2(a);
    let x3 = sub2(sqr2(e), dbl2(d));
    let y3 = sub2(mul2(e, sub2(d, x3)), dbl2(dbl2(dbl2(c))));
    jac2(x3, y3, dbl2(mul2(p.y, p.z)))
}

#[verifier::opaque]
pub open spec fn chord2(p: Jac2, q: Jac2) -> Jac2 {
    let pz2 = sqr2(p.z);
    let qz2 = sqr2(q.z);
    let u1 = mul2(p.x, qz2);
    let u2 = mul2(q.x, pz2);
    let s1 = mul2(p.y, mul2(qz2, q.z));
    let s2 = mul2(q.y, mul2(pz2, p.z));
    let r = sub2(s1, s2);
    let h = sub2(u1, u2);
    let h2 = sqr2(h);
    let g = mul2(h, h2);
    let v = mul2(u1, h2);
    let x3 = sub2(add2(sqr2(r), g), dbl2(v));
    let y3 = sub2(mul2(r, sub2(v, x3)), mul2(s1, g));
    jac2(x3, y3, mul2(mul2(p.z, q.z), h))
}

/// Whether two points of the twist that are not at infinity are equal.
#[verifier::opaque]
pub open spec fn same_point2(p: Jac2, q: Jac2) -> bool {
    let pz2 = sqr2(p.z);
    let qz2 = sqr2(q.z);
    &&& mul2(p.x, qz2) == mul2(q.x, pz2)
    &&& mul2(p.y, mul2(qz2, q.z)) == mul2(q.y, mul2(pz2, p.z))
}

/// Addition in Jacobian coordinates on the twist.
pub open spec fn add_jac2(p: Jac2, q: Jac2) -> Jac2 {
    if p.z == zero2() {
        q
    } else if q.z == zero2() {
        p
    } else if same_point2(p, q) {
        double_jac2(p)
    } else {
        chord2(p, q)
    }
}

/// The affine form `(x / z^2, y / z^3, 1)`.
#[verifier::opaque]
pub open spec fn affine2(p: Jac2) -> Jac2 {
    let t = inv2(p.z);
    let t2 = sqr2(t);
    jac2(mul2(p.x, t2), mul2(p.y, mul2(t2, t)), one2())
}

/// The affine point of three Jacobian coordinates.
pub open spec fn to_affine2(p: Jac2) -> Aff2 {
    if p.z == zero2() {
        Aff2 { x: zero2(), y: zero2(), infinity: true }
    } else {
        Aff2 { x: affine2(p).x, y: affine2(p).y, infinity: false }
    }
}

/// The tangent at an affine point, `Y - l X + (l x - y)` with slope `l`.
#[verifier::opaque]
pub open spec fn tangent2(r: Jac2) -> Ext6 {
    let l = mul2(triple2(sqr2(r.x)), inv2(dbl2(r.y)));
    ext6(one2(), neg2(l), sub2(mul2(l, r.x), r.y))
}

/// The line through two affine points.
#[verifier::opaque]
pub open spec fn secant2(r: Jac2, q: Jac2) -> Ext6 {
    let l = mul2(sub2(q.y, r.y), inv2(sub2(q.x, r.x)));
    ext6(one2(), neg2(l), sub2(mul2(l, r.x), r.y))
}

/// Doubles a point in homogeneous coordinates and gives the tangent there.
#[verifier::opaque]
pub open spec fn line_double(r: Jac2) -> (Jac2, Ext6) {
    let a = half2(mul2(r.x, r.y));
    let b = sqr2(r.y);
    let c = sqr2(r.z);
    let e = mul2(triple2(c), coeff_b2());
    let f = triple2(e);
    let g = half2(add2(b, f));
    let h = sub2(sqr2(add2(r.y, r.z)), add2(b, c));
    let i = sub2(e, b);
    let j = sqr2(r.x);
    let es = sqr2(e);
    (
        jac2(mul2(a, sub2(b, f)), sub2(sqr2(g), triple2(es)), mul2(b, h)),
        ext6(neg2(h), triple2(j), i),
    )
}

/// Adds an affine point to one in homogeneous coordinates and gives the line
/// through the two.
#[verifier::opaque]
pub open spec fn line_add(r: Jac2, x: Ext2, y: Ext2) -> (Jac2, Ext6) {
    let theta = sub2(r.y, mul2(y, r.z));
    let lambda = sub2(r.x, mul2(x, r.z));
    let c = sqr2(theta);
    let d = sqr2(lambda);
    let e = mul2(lambda, d);
    let f = mul2(r.z, c);
    let g = mul2(r.x, d);
    let h = sub2(add2(e, f), dbl2(g));
    let j = sub2(mul2(theta, x), mul2(lambda, y));
    (
        jac2(mul2(lambda, h), sub2(mul2(theta, sub2(g, h)), mul2(e, r.y)), mul2(r.z, e)),
        ext6(lambda, neg2(theta), j),
    )
}

/// The Frobenius map carried to the twist, on either coordinate.
pub open spec fn twist_x(x: Ext2) -> Ext2 {
    mul2(frob2(x, 1), twist_q_x())
}

pub open spec fn twist_y(y: Ext2) -> Ext2 {
    mul2(frob2(y, 1), twist_q_y())
}

/// The signed binary digits of the loop count `6 x + 2`, lowest first.
#[verifier::opaque]
pub open spec fn ate_digits() -> Seq<int> {
    seq![
        0int, 0, 0, 1, 0, 1, 0, -1, 0, 0, -1, 0, 0, 0, 1, 0, 0, -1, 0, -1, 0, 0, 0, 1, 0, -1, 0, 0,
        0, 0, -1, 0, 0, 1, 0, -1, 0, 0, 1, 0, 0, 0, 0, 0, -1, 0, 0, -1, 0, 1, 0, -1, 0, 0, 0, -1,
        0, -1, 0, 0, 0, 1, 0, 1, 1,
    ]
}

/// Whether the loop adds a point at this digit.
pub open spec fn is_signed_one(d: int) -> bool {
    d == 1 || d == -1
}

/// The number of lines for the digits from `k` up to the last but one.
pub open spec fn line_count(k: int) -> nat
    decreases 64 - k,
{
    if k >= 64 {
        0
    } else {
        line_count(k + 1) + (if is_signed_one(ate_digits()[k]) {
            2nat
        } else {
            1nat
        })
    }
}

/// The running point and the lines after the digits from `k` up to the last
/// but one, highest first, starting at `r` and adding `(x, y)` or its negative.
pub open spec fn line_walk(r: Jac2, x: Ext2, y: Ext2, k: int) -> (Jac2, Seq<Ext6>)
    decreases 64 - k,
{
    if k >= 64 {
        (r, Seq::empty())
    } else {
        let before = line_walk(r, x, y, k + 1);
        let doubled = line_double(before.0);
        let lines = before.1.push(doubled.1);
        let digit = ate_digits()[k];
        if digit == 1 {
            let added = line_add(doubled.0, x, y);
            (added.0, lines.push(added.1))
        } else if digit == -1 {
            let added = line_add(doubled.0, x, neg2(y));
            (added.0, lines.push(added.1))
        } else {
            (doubled.0, lines)
        }
    }
}

/// All lines of the pairing with the point `(x, y)`, starting at `r`: those of
/// the loop, and those of the two additions of Frobenius images.
#[verifier::opaque]
pub open spec fn pairing_lines(r: Jac2, x: Ext2, y: Ext2) -> Seq<Ext6> {
    let walk = line_walk(r, x, y, 0);
    let x1 = twist_x(x);
    let y1 = twist_y(y);
    let x2 = twist_x(x1);
    let y2 = neg2(twist_y(y1));
    let first = line_add(walk.0, x1, y1);
    let second = line_add(first.0, x2, y2);
    walk.1.push(first.1).push(second.1)
}

/// The lines of the pairing with an affine point.
pub open spec fn affine_lines(q: Aff2) -> Seq<Ext6> {
    pairing_lines(jac2(q.x, q.y, one2()), q.x, q.y)
}

/// The product of `f` and the value of a line at the point with affine
/// coordinates `p.x` and `p.y`.
#[verifier::opaque]
pub open spec fn ell(f: Ext12, line: Ext6, p: Jac1) -> Ext12 {
    mul12(f, sparse034(scale2(line.c0, p.y), scale2(line.c1, p.x), line.c2))
}

/// `f` times the values of the `i`-th lines of the first `n` lists, each at
/// its point.
pub open spec fn ell_all(f: Ext12, lines: Seq<Seq<Ext6>>, ps: Seq<Jac1>, i: int, n: nat) -> Ext12
    decreases n,
{
    if n == 0 {
        f
    } else {
        ell(ell_all(f, lines, ps, i, (n - 1) as nat), lines[n - 1][i], ps[n - 1])
    }
}

/// The accumulator of the Miller loop after the digits from `k` up to the last
/// but one.
pub open spec fn miller_walk(lines: Seq<Seq<Ext6>>, ps: Seq<Jac1>, n: nat, k: int) -> Ext12
    decreases 64 - k,
{
    if k >= 64 {
        one12()
    } else {
        let before = miller_walk(lines, ps, n, k + 1);
        let squared = if k == 63 {
            before
        } else {
            sqr12(before)
        };
        let i = line_count(k + 1) as int;
        let doubled = ell_all(squared, lines, ps, i, n);
        if is_signed_one(ate_digits()[k]) {
            ell_all(doubled, lines, ps, i + 1, n)
        } else {
            doubled
        }
    }
}

/// The Miller loop over `n` lists of lines and `n` points.
#[verifier::opaque]
pub open spec fn miller(lines: Seq<Seq<Ext6>>, ps: Seq<Jac1>, n: nat) -> Ext12 {
    let i = line_count(0) as int;
    let f = miller_walk(lines, ps, n, 0);
    ell_all(ell_all(f, lines, ps, i, n), lines, ps, i + 1, n)
}

/// The parameter `x` of the curve family.
pub open spec fn bn_x() -> nat {
    4965661367192848881
}

/// The non-adjacent form, lowest digit first.
pub open spec fn naf(n: nat) -> Seq<int>
    decreases n,
{
    if n == 0 {
        Seq::empty()
    } else if n % 4 == 1 {
        seq![1int] + naf(((n - 1) / 2) as nat)
    } else if n % 4 == 3 {
        seq![-1int] + naf(((n + 1) / 2) as nat)
    } else {
        seq![0int] + naf(n / 2)
    }
}

/// The power of `a` with signed digits, from the digit `k` up, by squarings
/// that are good in the cyclotomic subgroup.
pub open spec fn naf_pow(a: Ext12, digits: Seq<int>, k: int) -> Ext12
    decreases digits.len() - k,
{
    if k >= digits.len() {
        one12()
    } else {
        let s = cyclotomic_sqr12(naf_pow(a, digits, k + 1));
        if digits[k] > 0 {
            mul12(s, a)
        } else if digits[k] < 0 {
            mul12(s, inv12(a))
        } else {
            s
        }
    }
}

/// `a` to the power of the curve parameter, by signed digits.
pub open spec fn cyclotomic_exp(a: Ext12) -> Ext12 {
    naf_pow(a, naf(bn_x()), 0)
}

pub open spec fn exp_neg_x(a: Ext12) -> Ext12 {
    conj12(cyclotomic_exp(a))
}

pub open spec fn exp_neg_x_plain(a: Ext12) -> Ext12 {
    conj12(pow12(a, bn_x()))
}

/// `f^((p^6 - 1)(p^2 + 1))`, the easy part of the final exponentiation.
pub open spec fn easy_part(f: Ext12) -> Ext12 {
    let u = mul12(inv12(f), conj12(f));
    mul12(frob12(u, 2), u)
}

/// The hard part of the final exponentiation, after Fuentes-Castaneda and
/// others, where `e` raises to minus the curve parameter.
pub open spec fn hard_part(r: Ext12, e: spec_fn(Ext12) -> Ext12) -> Ext12 {
    let y0 = e(r);
    let y1 = sqr12(y0);
    let y2 = sqr12(y1);
    let y3 = mul12(y1, y2);
    let y4 = e(y3);
    let y5 = sqr12(y4);
    let y6 = e(y5);
    let y7 = conj12(y3);
    let y8 = conj12(y6);
    let y9 = mul12(y8, y4);
    let y10 = mul12(y9, y7);
    let y11 = mul12(y10, y1);
    let y12 = mul12(y10, y4);
    let y13 = mul12(y12, r);
    let y14 = frob12(y11, 1);
    let y15 = mul12(y14, y13);
    let y16 = frob12(y10, 2);
    let y17 = mul12(y16, y15);
    let r2 = conj12(r);
    let y18 = mul12(r2, y11);
    let y19 = frob12(y18, 3);
    mul12(y19, y17)
}

/// The final exponentiation with squarings of the cyclotomic subgroup.
#[verifier::opaque]
pub open spec fn final_exp(f: Ext12) -> Ext12 {
    hard_part(easy_part(f), |a: Ext12| exp_neg_x(a))
}

/// The final exponentiation with plain squarings.
#[verifier::opaque]
pub open spec fn final_exp_plain(f: Ext12) -> Ext12 {
    hard_part(easy_part(f), |a: Ext12| exp_neg_x_plain(a))
}

/// The point with the given abscissa whose ordinate is the computed root of
/// `x^3 + 3` or its negative.
#[verifier::opaque]
pub open spec fn decompress1(x: nat, flag: bool) -> Jac1 {
    let s = fpow(fadd(fmul(fmul(x, x), x), coeff_b1()), sqrt_exponent());
    jac1(x, if flag { s } else { fneg(s) }, 1)
}

/// The point of the twist with the given abscissa whose ordinate is the computed
/// root of `x^3 + 3 / xi` or its negative.
#[verifier::opaque]
pub open spec fn decompress2(x: Ext2, flag: bool) -> Jac2 {
    let s = sqrt2(add2(mul2(sqr2(x), x), coeff_b2()));
    jac2(x, if flag { s } else { neg2(s) }, one2())
}

/// The number of lines of a walk does not depend on the points.
pub proof fn lemma_line_walk_len(r: Jac2, x: Ext2, y: Ext2, k: int)
    ensures
        line_walk(r, x, y, k).1.len() == line_count(k),
    decreases 64 - k,
{
    if k < 64 {
        lemma_line_walk_len(r, x, y, k + 1);
    }
}

/// The number of lines of a pairing, as the Miller loop takes them: those of
/// the loop and two more, whatever the points are.
pub proof fn lemma_pairing_lines_len(r: Jac2, x: Ext2, y: Ext2)
    ensures
        pairing_lines(r, x, y).len() == line_count(0) + 2,
{
    reveal(pairing_lines);
    lemma_line_walk_len(r, x, y, 0);
}

/// The lines of the upper digits are among those of the loop.
pub proof fn lemma_line_count_mono(k: int)
    requires
        0 <= k <= 64,
    ensures
        line_count(k) <= line_count(0),
        line_count(k) <= 2 * (64 - k),
    decreases k,
{
    lemma_line_count_bound(k);
    if k > 0 {
        lemma_line_count_mono(k - 1);
    }
}

proof fn lemma_line_count_bound(k: int)
    requires
        0 <= k <= 64,
    ensures
        line_count(k) <= 2 * (64 - k),
    decreases 64 - k,
{
    if k < 64 {
        lemma_line_count_bound(k + 1);
    }
}

/// Without points the Miller loop gives one.
pub proof fn lemma_miller_empty(lines: Seq<Seq<Ext6>>, ps: Seq<Jac1>)
    ensures
        miller(lines, ps, 0) == one12(),
{
    reveal(miller);
    lemma_miller_walk_empty(lines, ps, 0);
}

proof fn lemma_miller_walk_empty(lines: Seq<Seq<Ext6>>, ps: Seq<Jac1>, k: int)
    ensures
        miller_walk(lines, ps, 0, k) == one12(),
    decreases 64 - k,
{
    if k < 64 {
        lemma_miller_walk_empty(lines, ps, k + 1);
        lemma_sqr12_one();
    }
}

/// Twice the point at infinity, as the multiples start with it.
pub proof fn lemma_double1_zero()
    ensures
        double1(jac1(0, 0, 0)) == jac1(0, 0, 0),
{
    reveal(double1);
    lemma_constants();
    lemma_fmul_zero(0);
    lemma_fadd_zero(0);
}

/// One is its own square.
pub proof fn lemma_sqr12_one()
    ensures
        sqr12(one12()) == one12(),
{
    reveal(mul12);
    reveal(mul6);
    reveal(mul_v);
    reveal(add6);
    lemma_constants();
    lemma_mul2_zero(zero2());
    lemma_mul2_zero(one2());
    lemma_mul2_zero(xi());
    lemma_mul2_one(one2());
    lemma_add2_zero(one2());
    lemma_add2_zero(zero2());
}

/// One is its own cyclotomic square.
pub proof fn lemma_cyclotomic_sqr12_one()
    ensures
        cyclotomic_sqr12(one12()) == one12(),
{
    reveal(cyclotomic_sqr12);
    reveal(sub2);
    lemma_constants();
    lemma_mul2_zero(zero2());
    lemma_mul2_zero(one2());
    lemma_mul2_zero(xi());
    lemma_mul2_one(one2());
    lemma_add2_zero(one2());
    lemma_add2_zero(zero2());
    lemma_fadd_zero(1);
    lemma_fadd_zero(0);
    assert(sub2(one2(), one2()) == zero2());
    assert(sub2(zero2(), zero2()) == zero2());
}

/// A point whose third coordinate is one is affine already.
pub proof fn lemma_to_affine1_normal(p: Jac1)
    requires
        p.x < modulus(),
        p.y < modulus(),
        p.z == 1,
    ensures
        to_affine1(p) == (Aff1 { x: p.x, y: p.y, infinity: false }),
{
    reveal(affine1);
    lemma_constants();
    lemma_fmul_one(1);
    lemma_finv_unique(1, 1);
    lemma_fmul_one(p.x);
    lemma_fmul_one(p.y);
}

/// A point of the twist whose third coordinate is one is affine already.
pub proof fn lemma_to_affine2_normal(p: Jac2)
    requires
        reduced2(p.x),
        reduced2(p.y),
        p.z == one2(),
    ensures
        to_affine2(p) == (Aff2 { x: p.x, y: p.y, infinity: false }),
{
    reveal(affine2);
    reveal(inv2);
    lemma_constants();
    lemma_fmul_one(1);
    lemma_fmul_zero(1);
    lemma_fmul_zero(0);
    lemma_fadd_zero(1);
    lemma_finv_unique(1, 1);
    lemma_fneg_neg(0);
    reveal(norm2);
    lemma_mul2_one(one2());
    lemma_mul2_one(p.x);
    lemma_mul2_one(p.y);
}

} // verus!
