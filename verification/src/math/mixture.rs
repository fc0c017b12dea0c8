//! Sums of multiples of elements of the quadratic extension.

use crate::math::field::{lemma_constants, modulus};
use crate::math::ring::{
    alike, lemma_mul2_commutes, lemma_mul2_medial, lemma_stands_add2, lemma_stands_mul2,
    lemma_stands_neg2, lemma_stands_same2, lemma_stands_sub2, stands2,
};
use crate::math::tower::{add2, dbl2, mul2, neg2, reduced2, sqr2, sub2, triple2, Ext2};
use vstd::arithmetic::div_mod::*;
use vstd::arithmetic::mul::*;
use vstd::prelude::*;

verus! {

/// How often each of five elements is taken.
pub struct Counts {
    pub a: int,
    pub b: int,
    pub c: int,
    pub d: int,
    pub e: int,
}

/// Five elements.
pub struct Parts {
    pub a: Ext2,
    pub b: Ext2,
    pub c: Ext2,
    pub d: Ext2,
    pub e: Ext2,
}

pub open spec fn counts(a: int, b: int, c: int, d: int, e: int) -> Counts {
    Counts { a, b, c, d, e }
}

pub open spec fn parts(a: Ext2, b: Ext2, c: Ext2, d: Ext2, e: Ext2) -> Parts {
    Parts { a, b, c, d, e }
}

/// Two elements, the rest filled up with the first.
pub open spec fn two_parts(a: Ext2, b: Ext2) -> Parts {
    Parts { a, b, c: a, d: a, e: a }
}

/// Three elements, the rest filled up with the first.
pub open spec fn three_parts(a: Ext2, b: Ext2, c: Ext2) -> Parts {
    Parts { a, b, c, d: a, e: a }
}

/// Four elements, the rest filled up with the first.
pub open spec fn four_parts(a: Ext2, b: Ext2, c: Ext2, d: Ext2) -> Parts {
    Parts { a, b, c, d, e: a }
}

pub open spec fn parts_times(m: Parts, t: Ext2) -> Parts {
    Parts {
        a: mul2(m.a, t),
        b: mul2(m.b, t),
        c: mul2(m.c, t),
        d: mul2(m.d, t),
        e: mul2(m.e, t),
    }
}

/// A sum of multiples of integers.
pub open spec fn weighted(k: Counts, a: int, b: int, c: int, d: int, e: int) -> int {
    k.a * a + k.b * b + k.c * c + k.d * d + k.e * e
}

/// The element `t` is the sum of the parts, each taken as often as counted.
pub open spec fn is_mix(t: Ext2, k: Counts, m: Parts) -> bool {
    stands2(
        t,
        weighted(k, m.a.c0 as int, m.b.c0 as int, m.c.c0 as int, m.d.c0 as int, m.e.c0 as int),
        weighted(k, m.a.c1 as int, m.b.c1 as int, m.c.c1 as int, m.d.c1 as int, m.e.c1 as int),
    )
}

proof fn lemma_alike_weighted(
    k: Counts,
    a: int,
    b: int,
    c: int,
    d: int,
    e: int,
    x: int,
    y: int,
    z: int,
    v: int,
    w: int,
)
    requires
        alike(a, x),
        alike(b, y),
        alike(c, z),
        alike(d, v),
        alike(e, w),
    ensures
        alike(weighted(k, a, b, c, d, e), weighted(k, x, y, z, v, w)),
{
    lemma_constants();
    let p = modulus() as int;
    lemma_mul_mod_noop_right(k.a, a, p);
    lemma_mul_mod_noop_right(k.a, x, p);
    lemma_mul_mod_noop_right(k.b, b, p);
    lemma_mul_mod_noop_right(k.b, y, p);
    lemma_mul_mod_noop_right(k.c, c, p);
    lemma_mul_mod_noop_right(k.c, z, p);
    lemma_mul_mod_noop_right(k.d, d, p);
    lemma_mul_mod_noop_right(k.d, v, p);
    lemma_mul_mod_noop_right(k.e, e, p);
    lemma_mul_mod_noop_right(k.e, w, p);
    lemma_add_mod_noop(k.a * a, k.b * b, p);
    lemma_add_mod_noop(k.a * x, k.b * y, p);
    lemma_add_mod_noop(k.a * a + k.b * b, k.c * c, p);
    lemma_add_mod_noop(k.a * x + k.b * y, k.c * z, p);
    lemma_add_mod_noop(k.a * a + k.b * b + k.c * c, k.d * d, p);
    lemma_add_mod_noop(k.a * x + k.b * y + k.c * z, k.d * v, p);
    lemma_add_mod_noop(k.a * a + k.b * b + k.c * c + k.d * d, k.e * e, p);
    lemma_add_mod_noop(k.a * x + k.b * y + k.c * z + k.d * v, k.e * w, p);
}

proof fn lemma_weighted_times(k: Counts, a: int, b: int, c: int, d: int, e: int, t: int)
    ensures
        weighted(k, a, b, c, d, e) * t == weighted(k, a * t, b * t, c * t, d * t, e * t),
{
    lemma_mul_is_distributive_add_other_way(t, k.a * a + k.b * b + k.c * c + k.d * d, k.e * e);
    lemma_mul_is_distributive_add_other_way(t, k.a * a + k.b * b + k.c * c, k.d * d);
    lemma_mul_is_distributive_add_other_way(t, k.a * a + k.b * b, k.c * c);
    lemma_mul_is_distributive_add_other_way(t, k.a * a, k.b * b);
    lemma_mul_is_associative(k.a, a, t);
    lemma_mul_is_associative(k.b, b, t);
    lemma_mul_is_associative(k.c, c, t);
    lemma_mul_is_associative(k.d, d, t);
    lemma_mul_is_associative(k.e, e, t);
}

proof fn lemma_weighted_sum(
    k: Counts,
    a: int,
    b: int,
    c: int,
    d: int,
    e: int,
    x: int,
    y: int,
    z: int,
    v: int,
    w: int,
)
    ensures
        weighted(k, a, b, c, d, e) + weighted(k, x, y, z, v, w) == weighted(
            k,
            a + x,
            b + y,
            c + z,
            d + v,
            e + w,
        ),
        weighted(k, a, b, c, d, e) - weighted(k, x, y, z, v, w) == weighted(
            k,
            a - x,
            b - y,
            c - z,
            d - v,
            e - w,
        ),
{
    lemma_mul_is_distributive_add(k.a, a, x);
    lemma_mul_is_distributive_add(k.b, b, y);
    lemma_mul_is_distributive_add(k.c, c, z);
    lemma_mul_is_distributive_add(k.d, d, v);
    lemma_mul_is_distributive_add(k.e, e, w);
    lemma_mul_is_distributive_sub(k.a, a, x);
    lemma_mul_is_distributive_sub(k.b, b, y);
    lemma_mul_is_distributive_sub(k.c, c, z);
    lemma_mul_is_distributive_sub(k.d, d, v);
    lemma_mul_is_distributive_sub(k.e, e, w);
}

/// A mixture times an element is the mixture of the products.
pub proof fn lemma_mix_times(s: Ext2, k: Counts, m: Parts, t: Ext2)
    requires
        is_mix(s, k, m),
    ensures
        is_mix(mul2(s, t), k, parts_times(m, t)),
{
    let (a0, a1, b0, b1) = (m.a.c0 as int, m.a.c1 as int, m.b.c0 as int, m.b.c1 as int);
    let (c0, c1, d0, d1) = (m.c.c0 as int, m.c.c1 as int, m.d.c0 as int, m.d.c1 as int);
    let (e0, e1, t0, t1) = (m.e.c0 as int, m.e.c1 as int, t.c0 as int, t.c1 as int);
    let n = parts_times(m, t);
    lemma_stands_mul2(
        s,
        weighted(k, a0, b0, c0, d0, e0),
        weighted(k, a1, b1, c1, d1, e1),
        t,
        t0,
        t1,
    );
    lemma_stands_mul2(m.a, a0, a1, t, t0, t1);
    lemma_stands_mul2(m.b, b0, b1, t, t0, t1);
    lemma_stands_mul2(m.c, c0, c1, t, t0, t1);
    lemma_stands_mul2(m.d, d0, d1, t, t0, t1);
    lemma_stands_mul2(m.e, e0, e1, t, t0, t1);
    lemma_alike_weighted(
        k,
        n.a.c0 as int,
        n.b.c0 as int,
        n.c.c0 as int,
        n.d.c0 as int,
        n.e.c0 as int,
        a0 * t0 - a1 * t1,
        b0 * t0 - b1 * t1,
        c0 * t0 - c1 * t1,
        d0 * t0 - d1 * t1,
        e0 * t0 - e1 * t1,
    );
    lemma_alike_weighted(
        k,
        n.a.c1 as int,
        n.b.c1 as int,
        n.c.c1 as int,
        n.d.c1 as int,
        n.e.c1 as int,
        a0 * t1 + a1 * t0,
        b0 * t1 + b1 * t0,
        c0 * t1 + c1 * t0,
        d0 * t1 + d1 * t0,
        e0 * t1 + e1 * t0,
    );
    lemma_weighted_times(k, a0, b0, c0, d0, e0, t0);
    lemma_weighted_times(k, a1, b1, c1, d1, e1, t1);
    lemma_weighted_times(k, a0, b0, c0, d0, e0, t1);
    lemma_weighted_times(k, a1, b1, c1, d1, e1, t0);
    lemma_weighted_sum(
        k,
        a0 * t0,
        b0 * t0,
        c0 * t0,
        d0 * t0,
        e0 * t0,
        a1 * t1,
        b1 * t1,
        c1 * t1,
        d1 * t1,
        e1 * t1,
    );
    lemma_weighted_sum(
        k,
        a0 * t1,
        b0 * t1,
        c0 * t1,
        d0 * t1,
        e0 * t1,
        a1 * t0,
        b1 * t0,
        c1 * t0,
        d1 * t0,
        e1 * t0,
    );
}

/// The counts of a mixture of mixtures.
pub open spec fn total(k: Counts, a: Counts, b: Counts, c: Counts, d: Counts, e: Counts) -> Counts {
    Counts {
        a: weighted(k, a.a, b.a, c.a, d.a, e.a),
        b: weighted(k, a.b, b.b, c.b, d.b, e.b),
        c: weighted(k, a.c, b.c, c.c, d.c, e.c),
        d: weighted(k, a.d, b.d, c.d, d.d, e.d),
        e: weighted(k, a.e, b.e, c.e, d.e, e.e),
    }
}

proof fn lemma_weighted_total(
    k: Counts,
    a: Counts,
    b: Counts,
    c: Counts,
    d: Counts,
    e: Counts,
    x: int,
    y: int,
    z: int,
    v: int,
    w: int,
)
    ensures
        weighted(
            k,
            weighted(a, x, y, z, v, w),
            weighted(b, x, y, z, v, w),
            weighted(c, x, y, z, v, w),
            weighted(d, x, y, z, v, w),
            weighted(e, x, y, z, v, w),
        ) == weighted(total(k, a, b, c, d, e), x, y, z, v, w),
{
    let s = total(k, a, b, c, d, e);
    lemma_weighted_times(k, a.a, b.a, c.a, d.a, e.a, x);
    lemma_weighted_times(k, a.b, b.b, c.b, d.b, e.b, y);
    lemma_weighted_times(k, a.c, b.c, c.c, d.c, e.c, z);
    lemma_weighted_times(k, a.d, b.d, c.d, d.d, e.d, v);
    lemma_weighted_times(k, a.e, b.e, c.e, d.e, e.e, w);
    lemma_weighted_sum(
        k,
        a.a * x,
        b.a * x,
        c.a * x,
        d.a * x,
        e.a * x,
        a.b * y,
        b.b * y,
        c.b * y,
        d.b * y,
        e.b * y,
    );
    lemma_weighted_sum(
        k,
        a.a * x + a.b * y,
        b.a * x + b.b * y,
        c.a * x + c.b * y,
        d.a * x + d.b * y,
        e.a * x + e.b * y,
        a.c * z,
        b.c * z,
        c.c * z,
        d.c * z,
        e.c * z,
    );
    lemma_weighted_sum(
        k,
        a.a * x + a.b * y + a.c * z,
        b.a * x + b.b * y + b.c * z,
        c.a * x + c.b * y + c.c * z,
        d.a * x + d.b * y + d.c * z,
        e.a * x + e.b * y + e.c * z,
        a.d * v,
        b.d * v,
        c.d * v,
        d.d * v,
        e.d * v,
    );
    lemma_weighted_sum(
        k,
        a.a * x + a.b * y + a.c * z + a.d * v,
        b.a * x + b.b * y + b.c * z + b.d * v,
        c.a * x + c.b * y + c.c * z + c.d * v,
        d.a * x + d.b * y + d.c * z + d.d * v,
        e.a * x + e.b * y + e.c * z + e.d * v,
        a.e * w,
        b.e * w,
        c.e * w,
        d.e * w,
        e.e * w,
    );
}

/// A mixture of mixtures is a mixture.
pub proof fn lemma_mix_of_mixes(
    t: Ext2,
    k: Counts,
    m: Parts,
    n: Parts,
    a: Counts,
    b: Counts,
    c: Counts,
    d: Counts,
    e: Counts,
)
    requires
        is_mix(t, k, m),
        is_mix(m.a, a, n),
        is_mix(m.b, b, n),
        is_mix(m.c, c, n),
        is_mix(m.d, d, n),
        is_mix(m.e, e, n),
    ensures
        is_mix(t, total(k, a, b, c, d, e), n),
{
    let (x0, x1, y0, y1) = (n.a.c0 as int, n.a.c1 as int, n.b.c0 as int, n.b.c1 as int);
    let (z0, z1, v0, v1) = (n.c.c0 as int, n.c.c1 as int, n.d.c0 as int, n.d.c1 as int);
    let (w0, w1) = (n.e.c0 as int, n.e.c1 as int);
    lemma_alike_weighted(
        k,
        m.a.c0 as int,
        m.b.c0 as int,
        m.c.c0 as int,
        m.d.c0 as int,
        m.e.c0 as int,
        weighted(a, x0, y0, z0, v0, w0),
        weighted(b, x0, y0, z0, v0, w0),
        weighted(c, x0, y0, z0, v0, w0),
        weighted(d, x0, y0, z0, v0, w0),
        weighted(e, x0, y0, z0, v0, w0),
    );
    lemma_alike_weighted(
        k,
        m.a.c1 as int,
        m.b.c1 as int,
        m.c.c1 as int,
        m.d.c1 as int,
        m.e.c1 as int,
        weighted(a, x1, y1, z1, v1, w1),
        weighted(b, x1, y1, z1, v1, w1),
        weighted(c, x1, y1, z1, v1, w1),
        weighted(d, x1, y1, z1, v1, w1),
        weighted(e, x1, y1, z1, v1, w1),
    );
    lemma_weighted_total(k, a, b, c, d, e, x0, y0, z0, v0, w0);
    lemma_weighted_total(k, a, b, c, d, e, x1, y1, z1, v1, w1);
}

pub open spec fn counts_sum(k: Counts, l: Counts) -> Counts {
    counts(k.a + l.a, k.b + l.b, k.c + l.c, k.d + l.d, k.e + l.e)
}

/// Each count taken `n` times.
pub open spec fn counts_times(k: Counts, n: int) -> Counts {
    counts(n * k.a, n * k.b, n * k.c, n * k.d, n * k.e)
}

proof fn lemma_weighted_counts(k: Counts, l: Counts, n: int, a: int, b: int, c: int, d: int, e: int)
    ensures
        weighted(counts_sum(k, l), a, b, c, d, e) == weighted(k, a, b, c, d, e) + weighted(
            l,
            a,
            b,
            c,
            d,
            e,
        ),
        weighted(counts_times(k, n), a, b, c, d, e) == n * weighted(k, a, b, c, d, e),
{
    lemma_mul_is_distributive_add_other_way(a, k.a, l.a);
    lemma_mul_is_distributive_add_other_way(b, k.b, l.b);
    lemma_mul_is_distributive_add_other_way(c, k.c, l.c);
    lemma_mul_is_distributive_add_other_way(d, k.d, l.d);
    lemma_mul_is_distributive_add_other_way(e, k.e, l.e);
    lemma_mul_is_distributive_add(n, k.a * a + k.b * b + k.c * c + k.d * d, k.e * e);
    lemma_mul_is_distributive_add(n, k.a * a + k.b * b + k.c * c, k.d * d);
    lemma_mul_is_distributive_add(n, k.a * a + k.b * b, k.c * c);
    lemma_mul_is_distributive_add(n, k.a * a, k.b * b);
    lemma_mul_is_associative(n, k.a, a);
    lemma_mul_is_associative(n, k.b, b);
    lemma_mul_is_associative(n, k.c, c);
    lemma_mul_is_associative(n, k.d, d);
    lemma_mul_is_associative(n, k.e, e);
}

/// Sums, differences and multiples of mixtures.
pub proof fn lemma_mix_sums(s: Ext2, k: Counts, t: Ext2, l: Counts, m: Parts)
    requires
        is_mix(s, k, m),
        is_mix(t, l, m),
    ensures
        is_mix(add2(s, t), counts_sum(k, l), m),
        is_mix(sub2(s, t), counts_sum(k, counts_times(l, -1)), m),
        is_mix(neg2(s), counts_times(k, -1), m),
        is_mix(dbl2(s), counts_times(k, 2), m),
        is_mix(triple2(s), counts_times(k, 3), m),
{
    let (a0, a1, b0, b1) = (m.a.c0 as int, m.a.c1 as int, m.b.c0 as int, m.b.c1 as int);
    let (c0, c1, d0, d1) = (m.c.c0 as int, m.c.c1 as int, m.d.c0 as int, m.d.c1 as int);
    let (e0, e1) = (m.e.c0 as int, m.e.c1 as int);
    let (s0, s1) = (weighted(k, a0, b0, c0, d0, e0), weighted(k, a1, b1, c1, d1, e1));
    let (t0, t1) = (weighted(l, a0, b0, c0, d0, e0), weighted(l, a1, b1, c1, d1, e1));
    lemma_stands_add2(s, s0, s1, t, t0, t1);
    lemma_stands_sub2(s, s0, s1, t, t0, t1);
    lemma_stands_neg2(s, s0, s1);
    lemma_stands_add2(s, s0, s1, s, s0, s1);
    lemma_stands_add2(dbl2(s), s0 + s0, s1 + s1, s, s0, s1);
    lemma_weighted_counts(k, l, -1, a0, b0, c0, d0, e0);
    lemma_weighted_counts(k, l, -1, a1, b1, c1, d1, e1);
    lemma_weighted_counts(l, l, -1, a0, b0, c0, d0, e0);
    lemma_weighted_counts(l, l, -1, a1, b1, c1, d1, e1);
    lemma_weighted_counts(k, counts_times(l, -1), 2, a0, b0, c0, d0, e0);
    lemma_weighted_counts(k, counts_times(l, -1), 2, a1, b1, c1, d1, e1);
    lemma_weighted_counts(k, l, 3, a0, b0, c0, d0, e0);
    lemma_weighted_counts(k, l, 3, a1, b1, c1, d1, e1);
}

/// Each part is a mixture of the parts.
pub proof fn lemma_mix_parts(m: Parts)
    ensures
        is_mix(m.a, counts(1, 0, 0, 0, 0), m),
        is_mix(m.b, counts(0, 1, 0, 0, 0), m),
        is_mix(m.c, counts(0, 0, 1, 0, 0), m),
        is_mix(m.d, counts(0, 0, 0, 1, 0), m),
        is_mix(m.e, counts(0, 0, 0, 0, 1), m),
{
}

/// A mixture solved for the part that is taken once.
pub proof fn lemma_mix_solved(t: Ext2, k: Counts, m: Parts)
    requires
        is_mix(t, k, m),
        k.a == 1,
    ensures
        is_mix(m.a, counts(1, -k.b, -k.c, -k.d, -k.e), parts(t, m.b, m.c, m.d, m.e)),
{
    lemma_constants();
    let p = modulus() as int;
    let r0 = k.b * m.b.c0 + k.c * m.c.c0 + k.d * m.d.c0 + k.e * m.e.c0;
    let r1 = k.b * m.b.c1 + k.c * m.c.c1 + k.d * m.d.c1 + k.e * m.e.c1;
    lemma_sub_mod_noop(t.c0 as int, r0, p);
    lemma_sub_mod_noop(m.a.c0 + r0, r0, p);
    lemma_sub_mod_noop(t.c1 as int, r1, p);
    lemma_sub_mod_noop(m.a.c1 + r1, r1, p);
    lemma_mul_unary_negation(k.b, m.b.c0 as int);
    lemma_mul_unary_negation(k.c, m.c.c0 as int);
    lemma_mul_unary_negation(k.d, m.d.c0 as int);
    lemma_mul_unary_negation(k.e, m.e.c0 as int);
    lemma_mul_unary_negation(k.b, m.b.c1 as int);
    lemma_mul_unary_negation(k.c, m.c.c1 as int);
    lemma_mul_unary_negation(k.d, m.d.c1 as int);
    lemma_mul_unary_negation(k.e, m.e.c1 as int);
}

/// One mixture is one element.
pub proof fn lemma_mix_same(s: Ext2, t: Ext2, k: Counts, m: Parts)
    requires
        is_mix(s, k, m),
        is_mix(t, k, m),
        reduced2(s),
        reduced2(t),
    ensures
        s == t,
{
    lemma_stands_same2(
        s,
        t,
        weighted(k, m.a.c0 as int, m.b.c0 as int, m.c.c0 as int, m.d.c0 as int, m.e.c0 as int),
        weighted(k, m.a.c1 as int, m.b.c1 as int, m.c.c1 as int, m.d.c1 as int, m.e.c1 as int),
    );
}

/// The product of two mixtures of two elements.
pub proof fn lemma_mix_product(
    s: Ext2,
    k: int,
    l: int,
    t: Ext2,
    m: int,
    n: int,
    a: Ext2,
    b: Ext2,
)
    requires
        is_mix(s, counts(k, l, 0, 0, 0), two_parts(a, b)),
        is_mix(t, counts(m, n, 0, 0, 0), two_parts(a, b)),
    ensures
        is_mix(
            mul2(s, t),
            counts(k * m, k * n + l * m, l * n, 0, 0),
            three_parts(sqr2(a), mul2(a, b), sqr2(b)),
        ),
{
    let x = three_parts(sqr2(a), mul2(a, b), sqr2(b));
    lemma_mix_times(s, counts(k, l, 0, 0, 0), two_parts(a, b), t);
    lemma_mix_times(t, counts(m, n, 0, 0, 0), two_parts(a, b), a);
    lemma_mix_times(t, counts(m, n, 0, 0, 0), two_parts(a, b), b);
    lemma_mul2_commutes(a, b);
    lemma_mul2_commutes(a, t);
    lemma_mul2_commutes(b, t);
    let (at, bt) = (mul2(a, t), mul2(b, t));
    let ka = counts(m, n, 0, 0, 0);
    let kb = counts(0, m, n, 0, 0);
    assert(is_mix(at, ka, x));
    assert(is_mix(bt, kb, x));
    lemma_mix_of_mixes(mul2(s, t), counts(k, l, 0, 0, 0), two_parts(at, bt), x, ka, kb, ka, ka, ka);
}

/// The product of two mixtures of `a^2`, `a b` and `b^2`.
pub proof fn lemma_mix_quadratics(
    s: Ext2,
    k: int,
    l: int,
    m: int,
    t: Ext2,
    u: int,
    v: int,
    w: int,
    a: Ext2,
    b: Ext2,
)
    requires
        is_mix(s, counts(k, l, m, 0, 0), three_parts(sqr2(a), mul2(a, b), sqr2(b))),
        is_mix(t, counts(u, v, w, 0, 0), three_parts(sqr2(a), mul2(a, b), sqr2(b))),
    ensures
        is_mix(
            mul2(s, t),
            counts(k * u, k * v + l * u, k * w + l * v + m * u, l * w + m * v, m * w),
            parts(
                sqr2(sqr2(a)),
                mul2(sqr2(a), mul2(a, b)),
                mul2(sqr2(a), sqr2(b)),
                mul2(mul2(a, b), sqr2(b)),
                sqr2(sqr2(b)),
            ),
        ),
{
    let (aa, ab, bb) = (sqr2(a), mul2(a, b), sqr2(b));
    let x = parts(sqr2(aa), mul2(aa, ab), mul2(aa, bb), mul2(ab, bb), sqr2(bb));
    let y = three_parts(aa, ab, bb);
    lemma_mul2_medial(a, b, a, b);
    lemma_mul2_commutes(aa, ab);
    lemma_mul2_commutes(aa, bb);
    lemma_mul2_commutes(ab, bb);
    lemma_mul2_commutes(aa, t);
    lemma_mul2_commutes(ab, t);
    lemma_mul2_commutes(bb, t);
    lemma_mix_times(s, counts(k, l, m, 0, 0), y, t);
    lemma_mix_times(t, counts(u, v, w, 0, 0), y, aa);
    lemma_mix_times(t, counts(u, v, w, 0, 0), y, ab);
    lemma_mix_times(t, counts(u, v, w, 0, 0), y, bb);
    let ka = counts(u, v, w, 0, 0);
    let kb = counts(0, u, v, w, 0);
    let kc = counts(0, 0, u, v, w);
    assert(is_mix(mul2(aa, t), ka, x));
    assert(is_mix(mul2(ab, t), kb, x));
    assert(is_mix(mul2(bb, t), kc, x));
    lemma_mix_of_mixes(
        mul2(s, t),
        counts(k, l, m, 0, 0),
        parts_times(y, t),
        x,
        ka,
        kb,
        kc,
        ka,
        ka,
    );
}

} // verus!
