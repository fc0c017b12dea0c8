//! The base field and its extensions are commutative rings.

use crate::math::field::{fadd, fmul, fsub, lemma_constants, modulus};
use crate::math::tower::{
    add2, add6, ext12, mul12, mul2, mul6, mul_v, mul_xi, neg2, reduced2, scale6, sqr12, sub2, xi,
    zero2, Ext12, Ext2, Ext6,
};
use vstd::arithmetic::div_mod::*;
use vstd::arithmetic::mul::*;
use vstd::prelude::*;

verus! {

/// Whether two integers are the same modulo the modulus.
pub open spec fn alike(x: int, y: int) -> bool {
    x % (modulus() as int) == y % (modulus() as int)
}

/// The number `a` stands for the integer `x`.
pub open spec fn stands(a: nat, x: int) -> bool {
    (a as int) % (modulus() as int) == x % (modulus() as int)
}

/// The element `a` stands for `x0 + x1 u`.
pub open spec fn stands2(a: Ext2, x0: int, x1: int) -> bool {
    stands(a.c0, x0) && stands(a.c1, x1)
}

pub proof fn lemma_alike(a: int, x: int, b: int, y: int)
    requires
        alike(a, x),
        alike(b, y),
    ensures
        alike(a + b, x + y),
        alike(a - b, x - y),
        alike(a * b, x * y),
{
    lemma_constants();
    let p = modulus() as int;
    lemma_add_mod_noop(a, b, p);
    lemma_add_mod_noop(x, y, p);
    lemma_sub_mod_noop(a, b, p);
    lemma_sub_mod_noop(x, y, p);
    lemma_mul_mod_noop(a, b, p);
    lemma_mul_mod_noop(x, y, p);
}

pub proof fn lemma_stands_add(a: nat, x: int, b: nat, y: int)
    requires
        stands(a, x),
        stands(b, y),
    ensures
        stands(fadd(a, b), x + y),
        fadd(a, b) < modulus(),
{
    lemma_constants();
    reveal(fadd);
    let p = modulus() as int;
    lemma_add_mod_noop(a as int, b as int, p);
    lemma_add_mod_noop(x, y, p);
    lemma_mod_twice((a + b) as int, p);
    lemma_mod_bound((a + b) as int, p);
}

pub proof fn lemma_stands_sub(a: nat, x: int, b: nat, y: int)
    requires
        stands(a, x),
        stands(b, y),
    ensures
        stands(fsub(a, b), x - y),
        fsub(a, b) < modulus(),
{
    lemma_constants();
    reveal(fsub);
    let p = modulus() as int;
    lemma_sub_mod_noop(a as int, b as int, p);
    lemma_sub_mod_noop(x, y, p);
    lemma_mod_twice(a - b, p);
    lemma_mod_bound(a - b, p);
}

pub proof fn lemma_stands_mul(a: nat, x: int, b: nat, y: int)
    requires
        stands(a, x),
        stands(b, y),
    ensures
        stands(fmul(a, b), x * y),
        fmul(a, b) < modulus(),
{
    lemma_constants();
    reveal(fmul);
    let p = modulus() as int;
    lemma_mul_mod_noop(a as int, b as int, p);
    lemma_mul_mod_noop(x, y, p);
    lemma_mod_twice((a * b) as int, p);
    lemma_mod_bound((a * b) as int, p);
}

pub proof fn lemma_stands_same(a: nat, b: nat, x: int)
    requires
        a < modulus(),
        b < modulus(),
        stands(a, x),
        stands(b, x),
    ensures
        a == b,
{
    lemma_small_mod(a, modulus());
    lemma_small_mod(b, modulus());
}

pub proof fn lemma_stands_add2(a: Ext2, x0: int, x1: int, b: Ext2, y0: int, y1: int)
    requires
        stands2(a, x0, x1),
        stands2(b, y0, y1),
    ensures
        stands2(add2(a, b), x0 + y0, x1 + y1),
        reduced2(add2(a, b)),
{
    reveal(add2);
    lemma_stands_add(a.c0, x0, b.c0, y0);
    lemma_stands_add(a.c1, x1, b.c1, y1);
}

pub proof fn lemma_stands_sub2(a: Ext2, x0: int, x1: int, b: Ext2, y0: int, y1: int)
    requires
        stands2(a, x0, x1),
        stands2(b, y0, y1),
    ensures
        stands2(sub2(a, b), x0 - y0, x1 - y1),
        reduced2(sub2(a, b)),
{
    reveal(sub2);
    lemma_stands_sub(a.c0, x0, b.c0, y0);
    lemma_stands_sub(a.c1, x1, b.c1, y1);
}

pub proof fn lemma_stands_neg2(a: Ext2, x0: int, x1: int)
    requires
        stands2(a, x0, x1),
    ensures
        stands2(neg2(a), -x0, -x1),
        reduced2(neg2(a)),
{
    reveal(neg2);
    lemma_stands_sub(0, 0, a.c0, x0);
    lemma_stands_sub(0, 0, a.c1, x1);
}

pub proof fn lemma_stands_mul2(a: Ext2, x0: int, x1: int, b: Ext2, y0: int, y1: int)
    requires
        stands2(a, x0, x1),
        stands2(b, y0, y1),
    ensures
        stands2(mul2(a, b), x0 * y0 - x1 * y1, x0 * y1 + x1 * y0),
        reduced2(mul2(a, b)),
{
    reveal(mul2);
    lemma_stands_mul(a.c0, x0, b.c0, y0);
    lemma_stands_mul(a.c1, x1, b.c1, y1);
    lemma_stands_mul(a.c0, x0, b.c1, y1);
    lemma_stands_mul(a.c1, x1, b.c0, y0);
    lemma_stands_sub(fmul(a.c0, b.c0), x0 * y0, fmul(a.c1, b.c1), x1 * y1);
    lemma_stands_add(fmul(a.c0, b.c1), x0 * y1, fmul(a.c1, b.c0), x1 * y0);
}

pub proof fn lemma_stands_same2(a: Ext2, b: Ext2, x0: int, x1: int)
    requires
        reduced2(a),
        reduced2(b),
        stands2(a, x0, x1),
        stands2(b, x0, x1),
    ensures
        a == b,
{
    lemma_stands_same(a.c0, b.c0, x0);
    lemma_stands_same(a.c1, b.c1, x1);
}

/// Addition commutes.
pub proof fn lemma_add2_commutes(a: Ext2, b: Ext2)
    ensures
        add2(a, b) == add2(b, a),
{
    reveal(add2);
    reveal(fadd);
}

/// Sums of sums can be taken in any order.
pub proof fn lemma_add2_medial(a: Ext2, b: Ext2, c: Ext2, d: Ext2)
    ensures
        add2(add2(a, b), add2(c, d)) == add2(add2(a, c), add2(b, d)),
{
    let (a0, a1, b0, b1) = (a.c0 as int, a.c1 as int, b.c0 as int, b.c1 as int);
    let (c0, c1, d0, d1) = (c.c0 as int, c.c1 as int, d.c0 as int, d.c1 as int);
    lemma_stands_add2(a, a0, a1, b, b0, b1);
    lemma_stands_add2(c, c0, c1, d, d0, d1);
    lemma_stands_add2(a, a0, a1, c, c0, c1);
    lemma_stands_add2(b, b0, b1, d, d0, d1);
    lemma_stands_add2(add2(a, b), a0 + b0, a1 + b1, add2(c, d), c0 + d0, c1 + d1);
    lemma_stands_add2(add2(a, c), a0 + c0, a1 + c1, add2(b, d), b0 + d0, b1 + d1);
    lemma_stands_same2(
        add2(add2(a, b), add2(c, d)),
        add2(add2(a, c), add2(b, d)),
        a0 + b0 + c0 + d0,
        a1 + b1 + c1 + d1,
    );
}

/// Addition associates.
pub proof fn lemma_add2_associates(a: Ext2, b: Ext2, c: Ext2)
    ensures
        add2(add2(a, b), c) == add2(a, add2(b, c)),
{
    let (a0, a1, b0, b1) = (a.c0 as int, a.c1 as int, b.c0 as int, b.c1 as int);
    let (c0, c1) = (c.c0 as int, c.c1 as int);
    lemma_stands_add2(a, a0, a1, b, b0, b1);
    lemma_stands_add2(b, b0, b1, c, c0, c1);
    lemma_stands_add2(add2(a, b), a0 + b0, a1 + b1, c, c0, c1);
    lemma_stands_add2(a, a0, a1, add2(b, c), b0 + c0, b1 + c1);
    lemma_stands_same2(
        add2(add2(a, b), c),
        add2(a, add2(b, c)),
        a0 + b0 + c0,
        a1 + b1 + c1,
    );
}

/// Multiplication commutes.
pub proof fn lemma_mul2_commutes(a: Ext2, b: Ext2)
    ensures
        mul2(a, b) == mul2(b, a),
{
    let (a0, a1, b0, b1) = (a.c0 as int, a.c1 as int, b.c0 as int, b.c1 as int);
    lemma_stands_mul2(a, a0, a1, b, b0, b1);
    lemma_stands_mul2(b, b0, b1, a, a0, a1);
    assert(a0 * b0 - a1 * b1 == b0 * a0 - b1 * a1) by (nonlinear_arith);
    assert(a0 * b1 + a1 * b0 == b0 * a1 + b1 * a0) by (nonlinear_arith);
    lemma_stands_same2(mul2(a, b), mul2(b, a), a0 * b0 - a1 * b1, a0 * b1 + a1 * b0);
}

proof fn lemma_products_of_three(a0: int, a1: int, b0: int, b1: int, c0: int, c1: int)
    ensures
        (a0 * b0 - a1 * b1) * c0 - (a0 * b1 + a1 * b0) * c1 == a0 * (b0 * c0 - b1 * c1) - a1 * (b0
            * c1 + b1 * c0),
        (a0 * b0 - a1 * b1) * c1 + (a0 * b1 + a1 * b0) * c0 == a0 * (b0 * c1 + b1 * c0) + a1 * (b0
            * c0 - b1 * c1),
{
    lemma_mul_is_distributive_sub_other_way(c0, a0 * b0, a1 * b1);
    lemma_mul_is_distributive_sub_other_way(c1, a0 * b0, a1 * b1);
    lemma_mul_is_distributive_add_other_way(c0, a0 * b1, a1 * b0);
    lemma_mul_is_distributive_add_other_way(c1, a0 * b1, a1 * b0);
    lemma_mul_is_distributive_sub(a0, b0 * c0, b1 * c1);
    lemma_mul_is_distributive_sub(a1, b0 * c0, b1 * c1);
    lemma_mul_is_distributive_add(a0, b0 * c1, b1 * c0);
    lemma_mul_is_distributive_add(a1, b0 * c1, b1 * c0);
    lemma_mul_is_associative(a0, b0, c0);
    lemma_mul_is_associative(a0, b0, c1);
    lemma_mul_is_associative(a0, b1, c0);
    lemma_mul_is_associative(a0, b1, c1);
    lemma_mul_is_associative(a1, b0, c0);
    lemma_mul_is_associative(a1, b0, c1);
    lemma_mul_is_associative(a1, b1, c0);
    lemma_mul_is_associative(a1, b1, c1);
}

/// Multiplication associates.
pub proof fn lemma_mul2_associates(a: Ext2, b: Ext2, c: Ext2)
    ensures
        mul2(mul2(a, b), c) == mul2(a, mul2(b, c)),
{
    let (a0, a1, b0, b1) = (a.c0 as int, a.c1 as int, b.c0 as int, b.c1 as int);
    let (c0, c1) = (c.c0 as int, c.c1 as int);
    let (p0, p1) = (a0 * b0 - a1 * b1, a0 * b1 + a1 * b0);
    let (q0, q1) = (b0 * c0 - b1 * c1, b0 * c1 + b1 * c0);
    lemma_stands_mul2(a, a0, a1, b, b0, b1);
    lemma_stands_mul2(b, b0, b1, c, c0, c1);
    lemma_stands_mul2(mul2(a, b), p0, p1, c, c0, c1);
    lemma_stands_mul2(a, a0, a1, mul2(b, c), q0, q1);
    lemma_products_of_three(a0, a1, b0, b1, c0, c1);
    lemma_stands_same2(
        mul2(mul2(a, b), c),
        mul2(a, mul2(b, c)),
        p0 * c0 - p1 * c1,
        p0 * c1 + p1 * c0,
    );
}

/// Products of products can be taken in any order.
pub proof fn lemma_mul2_medial(a: Ext2, b: Ext2, c: Ext2, d: Ext2)
    ensures
        mul2(mul2(a, b), mul2(c, d)) == mul2(mul2(a, c), mul2(b, d)),
{
    lemma_mul2_associates(a, b, mul2(c, d));
    lemma_mul2_associates(b, c, d);
    lemma_mul2_commutes(b, c);
    lemma_mul2_associates(c, b, d);
    lemma_mul2_associates(a, c, mul2(b, d));
}

/// Multiplication distributes over addition.
pub proof fn lemma_mul2_distributes(a: Ext2, b: Ext2, c: Ext2)
    ensures
        mul2(add2(a, b), c) == add2(mul2(a, c), mul2(b, c)),
        mul2(c, add2(a, b)) == add2(mul2(c, a), mul2(c, b)),
{
    let (a0, a1, b0, b1) = (a.c0 as int, a.c1 as int, b.c0 as int, b.c1 as int);
    let (c0, c1) = (c.c0 as int, c.c1 as int);
    lemma_stands_add2(a, a0, a1, b, b0, b1);
    lemma_stands_mul2(add2(a, b), a0 + b0, a1 + b1, c, c0, c1);
    lemma_stands_mul2(a, a0, a1, c, c0, c1);
    lemma_stands_mul2(b, b0, b1, c, c0, c1);
    let (x0, x1) = (a0 * c0 - a1 * c1, a0 * c1 + a1 * c0);
    let (y0, y1) = (b0 * c0 - b1 * c1, b0 * c1 + b1 * c0);
    lemma_stands_add2(mul2(a, c), x0, x1, mul2(b, c), y0, y1);
    assert((a0 + b0) * c0 - (a1 + b1) * c1 == x0 + y0) by (nonlinear_arith)
        requires
            x0 == a0 * c0 - a1 * c1,
            y0 == b0 * c0 - b1 * c1,
    ;
    assert((a0 + b0) * c1 + (a1 + b1) * c0 == x1 + y1) by (nonlinear_arith)
        requires
            x1 == a0 * c1 + a1 * c0,
            y1 == b0 * c1 + b1 * c0,
    ;
    lemma_stands_same2(mul2(add2(a, b), c), add2(mul2(a, c), mul2(b, c)), x0 + y0, x1 + y1);
    lemma_mul2_commutes(add2(a, b), c);
    lemma_mul2_commutes(a, c);
    lemma_mul2_commutes(b, c);
}

/// The product with a negative is the negative of the product.
pub proof fn lemma_mul2_neg(a: Ext2, b: Ext2)
    ensures
        mul2(neg2(a), b) == neg2(mul2(a, b)),
        mul2(a, neg2(b)) == neg2(mul2(a, b)),
{
    let (a0, a1, b0, b1) = (a.c0 as int, a.c1 as int, b.c0 as int, b.c1 as int);
    let (x0, x1) = (a0 * b0 - a1 * b1, a0 * b1 + a1 * b0);
    lemma_stands_neg2(a, a0, a1);
    lemma_stands_neg2(b, b0, b1);
    lemma_stands_mul2(a, a0, a1, b, b0, b1);
    lemma_stands_neg2(mul2(a, b), x0, x1);
    lemma_stands_mul2(neg2(a), -a0, -a1, b, b0, b1);
    lemma_stands_mul2(a, a0, a1, neg2(b), -b0, -b1);
    assert(-a0 * b0 - -a1 * b1 == -x0) by (nonlinear_arith)
        requires
            x0 == a0 * b0 - a1 * b1,
    ;
    assert(-a0 * b1 + -a1 * b0 == -x1) by (nonlinear_arith)
        requires
            x1 == a0 * b1 + a1 * b0,
    ;
    assert(a0 * -b0 - a1 * -b1 == -x0) by (nonlinear_arith)
        requires
            x0 == a0 * b0 - a1 * b1,
    ;
    assert(a0 * -b1 + a1 * -b0 == -x1) by (nonlinear_arith)
        requires
            x1 == a0 * b1 + a1 * b0,
    ;
    lemma_stands_same2(mul2(neg2(a), b), neg2(mul2(a, b)), -x0, -x1);
    lemma_stands_same2(mul2(a, neg2(b)), neg2(mul2(a, b)), -x0, -x1);
}

/// A difference is a sum with the negative, and nothing remains of an element
/// less itself.
pub proof fn lemma_sub2(a: Ext2, b: Ext2)
    ensures
        sub2(a, b) == add2(a, neg2(b)),
        add2(a, neg2(a)) == zero2(),
{
    let (a0, a1, b0, b1) = (a.c0 as int, a.c1 as int, b.c0 as int, b.c1 as int);
    lemma_constants();
    lemma_stands_neg2(b, b0, b1);
    lemma_stands_neg2(a, a0, a1);
    lemma_stands_sub2(a, a0, a1, b, b0, b1);
    lemma_stands_add2(a, a0, a1, neg2(b), -b0, -b1);
    lemma_stands_same2(sub2(a, b), add2(a, neg2(b)), a0 - b0, a1 - b1);
    lemma_stands_add2(a, a0, a1, neg2(a), -a0, -a1);
    lemma_stands_same2(add2(a, neg2(a)), zero2(), 0, 0);
}

/// A product with a difference stands for the difference of the products.
pub proof fn lemma_product_of_difference(l: Ext2, a: Ext2, b: Ext2)
    ensures
        stands2(
            mul2(l, sub2(a, b)),
            mul2(l, a).c0 - mul2(l, b).c0,
            mul2(l, a).c1 - mul2(l, b).c1,
        ),
{
    let x = mul2(l, a);
    let y = mul2(l, b);
    lemma_sub2(a, b);
    lemma_mul2_distributes(a, neg2(b), l);
    lemma_mul2_neg(l, b);
    lemma_stands_neg2(y, y.c0 as int, y.c1 as int);
    lemma_stands_add2(x, x.c0 as int, x.c1 as int, neg2(y), -(y.c0 as int), -(y.c1 as int));
}

/// Addition in the sextic extension commutes, and sums of sums can be taken in
/// any order.
pub proof fn lemma_add6_medial(a: Ext6, b: Ext6, c: Ext6, d: Ext6)
    ensures
        add6(a, b) == add6(b, a),
        add6(add6(a, b), add6(c, d)) == add6(add6(a, c), add6(b, d)),
{
    reveal(add6);
    lemma_add2_commutes(a.c0, b.c0);
    lemma_add2_commutes(a.c1, b.c1);
    lemma_add2_commutes(a.c2, b.c2);
    lemma_add2_medial(a.c0, b.c0, c.c0, d.c0);
    lemma_add2_medial(a.c1, b.c1, c.c1, d.c1);
    lemma_add2_medial(a.c2, b.c2, c.c2, d.c2);
}

/// Multiplication by `v` is linear.
pub proof fn lemma_mul_v_linear(a: Ext6, b: Ext6, k: Ext2)
    ensures
        mul_v(add6(a, b)) == add6(mul_v(a), mul_v(b)),
        mul_v(scale6(a, k)) == scale6(mul_v(a), k),
{
    reveal(add6);
    reveal(mul_v);
    reveal(scale6);
    lemma_mul2_distributes(a.c2, b.c2, xi());
    lemma_mul2_associates(a.c2, k, xi());
    lemma_mul2_commutes(k, xi());
    lemma_mul2_associates(a.c2, xi(), k);
}

/// Multiplication by an element of the quadratic extension is linear.
pub proof fn lemma_scale6_linear(a: Ext6, b: Ext6, k: Ext2, m: Ext2)
    ensures
        scale6(add6(a, b), k) == add6(scale6(a, k), scale6(b, k)),
        scale6(scale6(a, m), k) == scale6(scale6(a, k), m),
{
    reveal(add6);
    reveal(scale6);
    lemma_mul2_distributes(a.c0, b.c0, k);
    lemma_mul2_distributes(a.c1, b.c1, k);
    lemma_mul2_distributes(a.c2, b.c2, k);
    lemma_mul2_commutes(m, k);
    lemma_mul2_associates(a.c0, m, k);
    lemma_mul2_associates(a.c1, m, k);
    lemma_mul2_associates(a.c2, m, k);
    lemma_mul2_associates(a.c0, k, m);
    lemma_mul2_associates(a.c1, k, m);
    lemma_mul2_associates(a.c2, k, m);
}

/// A product by the coefficients of the first factor.
spec fn by_coefficients6(a: Ext6, b: Ext6) -> Ext6 {
    add6(scale6(b, a.c0), add6(mul_v(scale6(b, a.c1)), mul_v(mul_v(scale6(b, a.c2)))))
}

proof fn lemma_by_coefficients6(a: Ext6, b: Ext6)
    ensures
        mul6(a, b) == by_coefficients6(a, b),
{
    reveal(add6);
    reveal(mul_v);
    reveal(scale6);
    reveal(mul6);
    lemma_mul2_commutes(a.c0, b.c0);
    lemma_mul2_commutes(a.c0, b.c1);
    lemma_mul2_commutes(a.c0, b.c2);
    lemma_mul2_commutes(a.c1, b.c0);
    lemma_mul2_commutes(a.c1, b.c1);
    lemma_mul2_commutes(a.c1, b.c2);
    lemma_mul2_commutes(a.c2, b.c0);
    lemma_mul2_commutes(a.c2, b.c1);
    lemma_mul2_commutes(a.c2, b.c2);
    lemma_mul2_distributes(mul2(a.c1, b.c2), mul2(a.c2, b.c1), xi());
    lemma_add2_associates(mul2(a.c0, b.c1), mul2(a.c1, b.c0), mul_xi(mul2(a.c2, b.c2)));
    lemma_add2_associates(mul2(a.c0, b.c2), mul2(a.c1, b.c1), mul2(a.c2, b.c0));
}

/// Multiplication in the sextic extension commutes.
pub proof fn lemma_mul6_commutes(a: Ext6, b: Ext6)
    ensures
        mul6(a, b) == mul6(b, a),
{
    reveal(mul6);
    lemma_mul2_commutes(a.c0, b.c0);
    lemma_mul2_commutes(a.c0, b.c1);
    lemma_mul2_commutes(a.c0, b.c2);
    lemma_mul2_commutes(a.c1, b.c0);
    lemma_mul2_commutes(a.c1, b.c1);
    lemma_mul2_commutes(a.c1, b.c2);
    lemma_mul2_commutes(a.c2, b.c0);
    lemma_mul2_commutes(a.c2, b.c1);
    lemma_mul2_commutes(a.c2, b.c2);
    lemma_add2_commutes(mul2(a.c1, b.c2), mul2(a.c2, b.c1));
    lemma_add2_commutes(mul2(a.c0, b.c1), mul2(a.c1, b.c0));
    let x = mul2(a.c0, b.c2);
    let y = mul2(a.c1, b.c1);
    let z = mul2(a.c2, b.c0);
    lemma_add2_associates(x, y, z);
    lemma_add2_commutes(y, z);
    lemma_add2_commutes(x, add2(z, y));
}

/// Multiplication by an element of the sextic extension is linear.
pub proof fn lemma_mul6_linear(c: Ext6, x: Ext6, y: Ext6, k: Ext2)
    ensures
        mul6(c, add6(x, y)) == add6(mul6(c, x), mul6(c, y)),
        mul6(c, scale6(x, k)) == scale6(mul6(c, x), k),
        mul6(c, mul_v(x)) == mul_v(mul6(c, x)),
{
    lemma_by_coefficients6(c, x);
    lemma_by_coefficients6(c, y);
    lemma_by_coefficients6(c, add6(x, y));
    lemma_by_coefficients6(c, scale6(x, k));
    lemma_by_coefficients6(c, mul_v(x));
    let (x0, x1, x2) = (scale6(x, c.c0), scale6(x, c.c1), scale6(x, c.c2));
    let (y0, y1, y2) = (scale6(y, c.c0), scale6(y, c.c1), scale6(y, c.c2));
    // sums
    lemma_scale6_linear(x, y, c.c0, k);
    lemma_scale6_linear(x, y, c.c1, k);
    lemma_scale6_linear(x, y, c.c2, k);
    lemma_mul_v_linear(x1, y1, k);
    lemma_mul_v_linear(x2, y2, k);
    lemma_mul_v_linear(mul_v(x2), mul_v(y2), k);
    lemma_add6_medial(mul_v(x1), mul_v(y1), mul_v(mul_v(x2)), mul_v(mul_v(y2)));
    lemma_add6_medial(
        x0,
        y0,
        add6(mul_v(x1), mul_v(mul_v(x2))),
        add6(mul_v(y1), mul_v(mul_v(y2))),
    );
    // multiples
    lemma_scale6_linear(mul_v(x1), mul_v(mul_v(x2)), k, k);
    lemma_scale6_linear(x0, add6(mul_v(x1), mul_v(mul_v(x2))), k, k);
    // products with v
    lemma_mul_v_linear(x, y, c.c0);
    lemma_mul_v_linear(x, y, c.c1);
    lemma_mul_v_linear(x, y, c.c2);
    lemma_mul_v_linear(mul_v(x1), mul_v(mul_v(x2)), k);
    lemma_mul_v_linear(x0, add6(mul_v(x1), mul_v(mul_v(x2))), k);
}

/// Factors from the left can be exchanged.
proof fn lemma_mul6_left_commutes(a: Ext6, b: Ext6, c: Ext6)
    ensures
        mul6(a, mul6(b, c)) == mul6(b, mul6(a, c)),
{
    let t = mul6(a, c);
    let (c0, c1, c2) = (scale6(c, b.c0), scale6(c, b.c1), scale6(c, b.c2));
    lemma_by_coefficients6(b, c);
    lemma_by_coefficients6(b, t);
    lemma_mul6_linear(a, c0, add6(mul_v(c1), mul_v(mul_v(c2))), b.c0);
    lemma_mul6_linear(a, mul_v(c1), mul_v(mul_v(c2)), b.c0);
    lemma_mul6_linear(a, c1, c1, b.c0);
    lemma_mul6_linear(a, mul_v(c2), c2, b.c0);
    lemma_mul6_linear(a, c2, c2, b.c0);
    lemma_mul6_linear(a, c, c, b.c0);
    lemma_mul6_linear(a, c, c, b.c1);
    lemma_mul6_linear(a, c, c, b.c2);
}

/// Multiplication in the sextic extension associates.
pub proof fn lemma_mul6_associates(a: Ext6, b: Ext6, c: Ext6)
    ensures
        mul6(mul6(a, b), c) == mul6(a, mul6(b, c)),
{
    lemma_mul6_commutes(mul6(a, b), c);
    lemma_mul6_left_commutes(c, a, b);
    lemma_mul6_commutes(c, b);
}

/// Addition in the extension of degree twelve.
spec fn add12(a: Ext12, b: Ext12) -> Ext12 {
    ext12(add6(a.c0, b.c0), add6(a.c1, b.c1))
}

/// Multiplication by an element of the sextic extension.
spec fn scale12(a: Ext12, k: Ext6) -> Ext12 {
    ext12(mul6(k, a.c0), mul6(k, a.c1))
}

/// Multiplication by `w`.
spec fn mul_w(a: Ext12) -> Ext12 {
    ext12(mul_v(a.c1), a.c0)
}

proof fn lemma_by_coefficients12(a: Ext12, b: Ext12)
    ensures
        mul12(a, b) == add12(scale12(b, a.c0), mul_w(scale12(b, a.c1))),
{
    reveal(mul12);
}

proof fn lemma_scale12_linear(a: Ext12, b: Ext12, k: Ext6, m: Ext6)
    ensures
        scale12(add12(a, b), k) == add12(scale12(a, k), scale12(b, k)),
        scale12(scale12(a, m), k) == scale12(scale12(a, k), m),
        mul_w(add12(a, b)) == add12(mul_w(a), mul_w(b)),
        mul_w(scale12(a, k)) == scale12(mul_w(a), k),
{
    lemma_mul6_linear(k, a.c0, b.c0, xi());
    lemma_mul6_linear(k, a.c1, b.c1, xi());
    lemma_mul6_left_commutes(k, m, a.c0);
    lemma_mul6_left_commutes(k, m, a.c1);
    lemma_mul_v_linear(a.c1, b.c1, xi());
    lemma_mul6_linear(k, a.c1, b.c1, xi());
}

/// Multiplication in the extension of degree twelve commutes.
pub proof fn lemma_mul12_commutes(a: Ext12, b: Ext12)
    ensures
        mul12(a, b) == mul12(b, a),
{
    reveal(mul12);
    lemma_mul6_commutes(a.c0, b.c0);
    lemma_mul6_commutes(a.c1, b.c1);
    lemma_mul6_commutes(a.c0, b.c1);
    lemma_mul6_commutes(a.c1, b.c0);
    lemma_add6_medial(mul6(a.c0, b.c1), mul6(a.c1, b.c0), a.c0, a.c0);
}

/// Multiplication by an element of the extension of degree twelve is linear.
proof fn lemma_mul12_linear(c: Ext12, x: Ext12, y: Ext12, k: Ext6)
    ensures
        mul12(c, add12(x, y)) == add12(mul12(c, x), mul12(c, y)),
        mul12(c, scale12(x, k)) == scale12(mul12(c, x), k),
        mul12(c, mul_w(x)) == mul_w(mul12(c, x)),
{
    lemma_by_coefficients12(c, x);
    lemma_by_coefficients12(c, y);
    lemma_by_coefficients12(c, add12(x, y));
    lemma_by_coefficients12(c, scale12(x, k));
    lemma_by_coefficients12(c, mul_w(x));
    let (x0, x1) = (scale12(x, c.c0), scale12(x, c.c1));
    let (y0, y1) = (scale12(y, c.c0), scale12(y, c.c1));
    // sums
    lemma_scale12_linear(x, y, c.c0, k);
    lemma_scale12_linear(x, y, c.c1, k);
    lemma_scale12_linear(x1, y1, k, k);
    lemma_add6_medial(x0.c0, y0.c0, mul_w(x1).c0, mul_w(y1).c0);
    lemma_add6_medial(x0.c1, y0.c1, mul_w(x1).c1, mul_w(y1).c1);
    // multiples
    lemma_scale12_linear(x0, mul_w(x1), k, k);
    // products with w
    lemma_scale12_linear(x, y, c.c0, c.c0);
    lemma_scale12_linear(x, y, c.c1, c.c1);
}

/// Factors from the left can be exchanged.
proof fn lemma_mul12_left_commutes(a: Ext12, b: Ext12, c: Ext12)
    ensures
        mul12(a, mul12(b, c)) == mul12(b, mul12(a, c)),
{
    let t = mul12(a, c);
    let (c0, c1) = (scale12(c, b.c0), scale12(c, b.c1));
    lemma_by_coefficients12(b, c);
    lemma_by_coefficients12(b, t);
    lemma_mul12_linear(a, c0, mul_w(c1), b.c0);
    lemma_mul12_linear(a, c1, c1, b.c0);
    lemma_mul12_linear(a, c, c, b.c0);
    lemma_mul12_linear(a, c, c, b.c1);
}

/// Multiplication in the extension of degree twelve associates.
pub proof fn lemma_mul12_associates(a: Ext12, b: Ext12, c: Ext12)
    ensures
        mul12(mul12(a, b), c) == mul12(a, mul12(b, c)),
{
    lemma_mul12_commutes(mul12(a, b), c);
    lemma_mul12_left_commutes(c, a, b);
    lemma_mul12_commutes(c, b);
}

/// The square of a product is the product of the squares.
pub proof fn lemma_sqr12_product(a: Ext12, b: Ext12)
    ensures
        sqr12(mul12(a, b)) == mul12(sqr12(a), sqr12(b)),
{
    // (a b)(a b) = a (b (a b)) = a (a (b b)) = (a a)(b b)
    lemma_mul12_associates(a, b, mul12(a, b));
    lemma_mul12_left_commutes(b, a, b);
    lemma_mul12_associates(a, a, mul12(b, b));
}

/// Products of products can be taken in any order.
pub proof fn lemma_mul6_medial(a: Ext6, b: Ext6, c: Ext6, d: Ext6)
    ensures
        mul6(mul6(a, b), mul6(c, d)) == mul6(mul6(a, c), mul6(b, d)),
{
    lemma_mul6_associates(a, b, mul6(c, d));
    lemma_mul6_left_commutes(b, c, d);
    lemma_mul6_associates(a, c, mul6(b, d));
}

pub proof fn lemma_mul12_medial(a: Ext12, b: Ext12, c: Ext12, d: Ext12)
    ensures
        mul12(mul12(a, b), mul12(c, d)) == mul12(mul12(a, c), mul12(b, d)),
{
    lemma_mul12_associates(a, b, mul12(c, d));
    lemma_mul12_left_commutes(b, c, d);
    lemma_mul12_associates(a, c, mul12(b, d));
}

} // verus!
