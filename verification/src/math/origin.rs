//! The pairing with the point at infinity, whose affine form is the origin.

use crate::math::automorphism::lemma_reduced12;
use crate::math::curve::{
    ate_digits, easy_part, ell, ell_all, final_exp, is_signed_one, lemma_line_count_mono,
    line_count, miller, miller_walk, Jac1,
};
use crate::math::cyclotomic::lemma_maps_of_one;
use crate::math::exponent::{lemma_final_exp_one, lemma_final_exp_product, lemma_invertible};
use crate::math::field::{lemma_constants, lemma_fmul_zero, lemma_fneg_neg};
use crate::math::inverse::{lemma_field2, lemma_no_zero_divisors2, lemma_unit12};
use crate::math::product::pairing;
use crate::math::ring::{lemma_mul2_associates, lemma_mul2_commutes, lemma_mul2_neg};
use crate::math::tower::{
    add6, conj12, ext12, ext6, frob12, frob12_c1, frob2, frob6, frob6_c1, frob6_c2, inv12, inv2,
    lemma_add2_zero, lemma_mul2_one, lemma_mul2_zero, mul12, mul2, mul6, mul_v, mul_xi, neg2, neg6,
    one12, one2, reduced12, reduced2, scale2, scale6, sparse034, sqr12, xi, zero2, zero6, Ext12,
    Ext2, Ext6,
};
use vstd::prelude::*;

verus! {

/// The element `c v w`, which is the value of a line at the origin.
pub open spec fn at_origin(c: Ext2) -> Ext12 {
    sparse034(zero2(), zero2(), c)
}

/// The product of the values of two lines at the origin, `xi c d`.
proof fn lemma_product_at_origin(c: Ext2, d: Ext2)
    requires
        reduced2(c),
        reduced2(d),
    ensures
        mul12(at_origin(c), at_origin(d)) == ext12(
            ext6(mul_xi(mul2(c, d)), zero2(), zero2()),
            zero6(),
        ),
{
    broadcast use crate::math::tower::group_reduced2;

    reveal(mul12);
    reveal(mul6);
    reveal(mul_v);
    reveal(add6);
    lemma_constants();
    let m = mul2(c, d);
    lemma_mul2_zero(c);
    lemma_mul2_zero(d);
    lemma_mul2_zero(zero2());
    lemma_mul2_zero(xi());
    lemma_add2_zero(zero2());
    lemma_add2_zero(m);
    lemma_add2_zero(mul_xi(m));
}

/// What the conjugate of the value of a line at the origin is to the value:
/// minus one times it.
proof fn lemma_easy_part_at_origin(c: Ext2)
    requires
        reduced2(c),
        c != zero2(),
    ensures
        reduced12(at_origin(c)),
        easy_part(at_origin(c)) == one12(),
{
    broadcast use crate::math::tower::group_reduced2;

    lemma_constants();
    lemma_fneg_neg(0);
    lemma_fneg_neg(1);
    let g = at_origin(c);
    // the inverse is d v w, where xi c d is one
    let m = mul_xi(c);
    if m == zero2() {
        lemma_no_zero_divisors2(c, xi());
    }
    lemma_field2(m);
    let d = inv2(m);
    lemma_mul2_associates(c, xi(), d);
    lemma_mul2_commutes(xi(), d);
    lemma_mul2_associates(c, d, xi());
    lemma_mul2_commutes(c, d);
    let h = at_origin(d);
    lemma_product_at_origin(c, d);
    lemma_invertible(g, h);
    // the conjugate is -c v w
    let n = neg2(c);
    assert(conj12(g) == at_origin(n)) by {
        reveal(conj12);
        reveal(neg6);
        reveal(neg2);
    }
    lemma_product_at_origin(d, n);
    lemma_mul2_neg(d, c);
    lemma_mul2_neg(xi(), mul2(d, c));
    lemma_mul2_commutes(xi(), mul2(d, c));
    lemma_mul2_commutes(xi(), neg2(mul2(d, c)));
    assert(mul12(inv12(g), conj12(g)) == minus_one12());
    lemma_minus_one();
}

/// Minus one.
pub open spec fn minus_one12() -> Ext12 {
    ext12(ext6(neg2(one2()), zero2(), zero2()), zero6())
}

/// Minus one is left as it is by the square of the Frobenius map, and its square
/// is one.
pub proof fn lemma_minus_one()
    ensures
        reduced12(minus_one12()),
        frob12(minus_one12(), 2) == minus_one12(),
        mul12(minus_one12(), minus_one12()) == one12(),
{
    broadcast use crate::math::tower::group_reduced2;

    let (o, u) = (neg2(one2()), minus_one12());
    lemma_constants();
    lemma_mul2_zero(zero2());
    lemma_mul2_zero(o);
    lemma_mul2_zero(xi());
    lemma_mul2_zero(frob6_c1(2));
    lemma_mul2_zero(frob6_c2(2));
    lemma_mul2_zero(frob12_c1(2));
    assert(frob12(u, 2) == u) by {
        reveal(frob12);
        reveal(frob6);
        reveal(frob2);
        reveal(scale6);
    }
    // (-1) (-1)
    lemma_mul2_neg(o, one2());
    lemma_mul2_one(o);
    assert(neg2(o) == one2()) by {
        reveal(neg2);
        lemma_fneg_neg(0);
        lemma_fneg_neg(1);
    }
    assert(mul12(u, u) == one12()) by {
        reveal(mul12);
        reveal(mul6);
        reveal(mul_v);
        reveal(add6);
        lemma_add2_zero(zero2());
        lemma_add2_zero(one2());
    }
}

/// The final exponentiation of the value of a line at the origin is one.
proof fn lemma_exp_at_origin(c: Ext2)
    requires
        reduced2(c),
        c != zero2(),
    ensures
        reduced12(at_origin(c)),
        final_exp(at_origin(c)) == one12(),
{
    lemma_easy_part_at_origin(c);
    lemma_exp_of_easy_one(at_origin(c));
}

/// The final exponentiation is one where the easy part of it is.
pub proof fn lemma_exp_of_easy_one(f: Ext12)
    requires
        easy_part(f) == one12(),
    ensures
        final_exp(f) == one12(),
{
    lemma_final_exp_one();
    lemma_maps_of_one();
    lemma_unit12(one12());
    lemma_invertible(one12(), one12());
    assert(easy_part(one12()) == one12());
    reveal(final_exp);
}

/// Whether an element is reduced and its final exponentiation is one.
pub open spec fn vanishes(f: Ext12) -> bool {
    reduced12(f) && final_exp(f) == one12()
}

/// Products of elements whose final exponentiation is one.
pub proof fn lemma_vanishing_product(f: Ext12, g: Ext12)
    requires
        vanishes(f),
        vanishes(g),
    ensures
        vanishes(mul12(f, g)),
{
    lemma_final_exp_product(f, g);
    lemma_reduced12(f, g);
    lemma_maps_of_one();
    lemma_unit12(one12());
}

/// The origin as a line is evaluated at it.
pub open spec fn is_origin(p: Jac1) -> bool {
    p.x == 0 && p.y == 0
}

proof fn lemma_ell_at_origin(f: Ext12, line: Ext6, p: Jac1)
    requires
        vanishes(f),
        is_origin(p),
        reduced2(line.c2),
        line.c2 != zero2(),
    ensures
        vanishes(ell(f, line, p)),
{
    reveal(ell);
    reveal(scale2);
    lemma_fmul_zero(line.c0.c0);
    lemma_fmul_zero(line.c0.c1);
    lemma_fmul_zero(line.c1.c0);
    lemma_fmul_zero(line.c1.c1);
    lemma_exp_at_origin(line.c2);
    lemma_vanishing_product(f, at_origin(line.c2));
}

/// Whether no line passes through the origin.
pub open spec fn avoid_origin(lines: Seq<Ext6>) -> bool {
    forall|i: int|
        0 <= i < lines.len() ==> reduced2((#[trigger] lines[i]).c2) && lines[i].c2 != zero2()
}

proof fn lemma_walk_at_origin(lines: Seq<Ext6>, p: Jac1, k: int)
    requires
        0 <= k <= 64,
        line_count(0) <= lines.len(),
        avoid_origin(lines),
        is_origin(p),
    ensures
        vanishes(miller_walk(seq![lines], seq![p], 1, k)),
    decreases 64 - k,
{
    lemma_maps_of_one();
    lemma_final_exp_one();
    if k < 64 {
        let (ls, ps) = (seq![lines], seq![p]);
        lemma_walk_at_origin(lines, p, k + 1);
        lemma_line_count_mono(k);
        let before = miller_walk(ls, ps, 1, k + 1);
        lemma_vanishing_product(before, before);
        let squared = if k == 63 {
            before
        } else {
            sqr12(before)
        };
        let i = line_count(k + 1) as int;
        reveal_with_fuel(ell_all, 2);
        lemma_ell_at_origin(squared, lines[i], p);
        if is_signed_one(ate_digits()[k]) {
            lemma_ell_at_origin(ell(squared, lines[i], p), lines[i + 1], p);
        }
    }
}

/// The pairing with the point at infinity, whose affine form is the origin, is
/// one, unless one of the lines passes through the origin.
pub proof fn lemma_pairing_at_origin(lines: Seq<Ext6>, p: Jac1)
    requires
        lines.len() == line_count(0) + 2,
        avoid_origin(lines),
        is_origin(p),
    ensures
        pairing(lines, p) == one12(),
{
    let (ls, ps) = (seq![lines], seq![p]);
    reveal(miller);
    let i = line_count(0) as int;
    let f = miller_walk(ls, ps, 1, 0);
    lemma_walk_at_origin(lines, p, 0);
    reveal_with_fuel(ell_all, 2);
    lemma_ell_at_origin(f, lines[i], p);
    lemma_ell_at_origin(ell(f, lines[i], p), lines[i + 1], p);
}

} // verus!
