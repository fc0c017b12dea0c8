//! Squares and their roots in the base field and in the quadratic extension.

use crate::math::field::{
    euler_exponent, fadd, fmul, fneg, fpow, fsub, lemma_constants, lemma_fmul_one, lemma_fmul_zero,
    lemma_fneg_neg, lemma_fpow_reduced, lemma_fsub_zero, modulus, sqrt_exponent,
};
use crate::math::prime::lemma_fermat;
use crate::math::prime_modulus::{lemma_modulus_prime, lemma_no_zero_divisors};
use crate::math::ring::{
    alike, lemma_alike, lemma_stands_add, lemma_stands_mul, lemma_stands_same, lemma_stands_sub,
    stands,
};
use crate::math::tower::is_nonresidue;
use vstd::arithmetic::div_mod::{lemma_mod_multiples_vanish, lemma_small_mod};
use vstd::arithmetic::power::{
    lemma1_pow, lemma_pow0, lemma_pow1, lemma_pow_adds, lemma_pow_distributes, lemma_pow_multiplies,
    pow,
};
use vstd::prelude::*;

verus! {

/// A power in the field is the power of the integer.
pub proof fn lemma_stands_pow(a: nat, x: int, n: nat)
    requires
        stands(a, x),
    ensures
        stands(fpow(a, n), pow(x, n)),
        fpow(a, n) < modulus(),
    decreases n,
{
    lemma_constants();
    lemma_fpow_reduced(a, n);
    lemma_pow0(x);
    if n != 0 {
        let h = fpow(a, n / 2);
        let m = n / 2;
        lemma_stands_pow(a, x, m);
        lemma_stands_mul(h, pow(x, m), h, pow(x, m));
        lemma_pow_adds(x, m, m);
        lemma_stands_mul(fmul(h, h), pow(x, m + m), a, x);
        lemma_pow_adds(x, m + m, 1);
        lemma_pow1(x);
    }
}

/// The power of what is not zero whose exponent precedes the modulus is one.
proof fn lemma_last_power(a: nat)
    requires
        0 < a < modulus(),
    ensures
        alike(pow(a as int, (modulus() - 1) as nat), 1),
{
    lemma_constants();
    lemma_modulus_prime();
    lemma_fermat(a as int, modulus() as int);
    lemma_small_mod(1, modulus());
}

/// Elements with the same square are equal or opposite.
pub proof fn lemma_same_squares(s: nat, y: nat)
    requires
        s < modulus(),
        y < modulus(),
        fmul(s, s) == fmul(y, y),
    ensures
        y == s || y == fneg(s),
{
    let (a, b) = (s as int, y as int);
    let (d, e) = (fsub(y, s), fadd(y, s));
    lemma_constants();
    lemma_stands_sub(y, b, s, a);
    lemma_stands_add(y, b, s, a);
    lemma_stands_mul(d, b - a, e, b + a);
    lemma_stands_mul(s, a, s, a);
    lemma_stands_mul(y, b, y, b);
    assert((b - a) * (b + a) == b * b - a * a) by (nonlinear_arith);
    lemma_alike(b * b, a * a, a * a, a * a);
    lemma_stands_same(fmul(d, e), 0, 0);
    lemma_no_zero_divisors(d, e);
    lemma_fsub_zero(y, s);
    if e == 0 {
        // y = (y + s) - s
        lemma_alike(b + a, 0, a, a);
        lemma_stands_sub(0, 0, s, a);
        lemma_stands_same(y, fneg(s), 0 - a);
    }
}

/// The computed root of a square.
pub proof fn lemma_root(y: nat)
    requires
        y < modulus(),
    ensures
        fpow(fmul(y, y), sqrt_exponent()) == y || fpow(fmul(y, y), sqrt_exponent()) == fneg(y),
        fmul(
            fpow(fmul(y, y), sqrt_exponent()),
            fpow(fmul(y, y), sqrt_exponent()),
        ) == fmul(y, y),
{
    let (b, e, p) = (y as int, sqrt_exponent(), modulus());
    let s = fpow(fmul(y, y), e);
    lemma_constants();
    lemma_stands_mul(y, b, y, b);
    lemma_stands_pow(fmul(y, y), b * b, e);
    lemma_stands_mul(s, pow(b * b, e), s, pow(b * b, e));
    assert(alike(pow(b * b, e) * pow(b * b, e), b * b)) by {
        if y == 0 {
            assert(b * b == 0 && 0int * 0 == 0);
            lemma_zero_power(e);
        } else {
            // (y^2)^e (y^2)^e = y^(p - 1) y^2
            lemma_pow_adds(b * b, e, e);
            lemma_pow1(b);
            lemma_pow_adds(b, 1, 1);
            lemma_pow_multiplies(b, 2, e + e);
            assert(2 * (e + e) == (p - 1) as nat + 2);
            lemma_pow_adds(b, (p - 1) as nat, 2);
            lemma_last_power(y);
            lemma_alike(pow(b, (p - 1) as nat), 1, b * b, b * b);
            assert(1 * (b * b) == b * b);
        }
    }
    lemma_stands_same(fmul(s, s), fmul(y, y), b * b);
    lemma_same_squares(y, s);
}

proof fn lemma_zero_power(n: nat)
    requires
        n > 0,
    ensures
        pow(0, n) == 0,
{
    lemma_pow_adds(0, 1, (n - 1) as nat);
    lemma_pow1(0);
    assert(0 * pow(0, (n - 1) as nat) == 0);
}

/// A power of minus one with an odd exponent.
proof fn lemma_minus_one_power(n: nat)
    requires
        n % 2 == 1,
    ensures
        pow(-1, n) == -1,
{
    let m = (n / 2) as nat;
    lemma_pow1(-1);
    lemma_pow_adds(-1, 1, 1);
    assert(-1int * -1 == 1);
    lemma_pow_multiplies(-1, 2, m);
    lemma1_pow(m);
    lemma_pow_adds(-1, 2 * m, 1);
}

/// The power of a square other than zero by Euler's exponent is one.
proof fn lemma_euler(y: nat)
    requires
        0 < y < modulus(),
    ensures
        fpow(fmul(y, y), euler_exponent()) == 1,
        alike(pow(y as int * y as int, euler_exponent()), 1),
        1 != modulus() - 1,
{
    let (b, e) = (y as int, euler_exponent());
    lemma_constants();
    reveal(modulus);
    lemma_last_power(y);
    lemma_stands_mul(y, b, y, b);
    lemma_stands_pow(fmul(y, y), b * b, e);
    lemma_pow1(b);
    lemma_pow_adds(b, 1, 1);
    lemma_pow_multiplies(b, 2, e);
    assert(2 * e == (modulus() - 1) as nat);
    lemma_stands_same(fpow(fmul(y, y), e), 1, 1);
}

/// The negative of a square other than zero is no square, and Euler's criterion
/// tells them apart.
pub proof fn lemma_negative_square(y: nat)
    requires
        0 < y < modulus(),
    ensures
        !is_nonresidue(fmul(y, y)),
        is_nonresidue(fneg(fmul(y, y))),
        forall|s: nat| s < modulus() ==> #[trigger] fmul(s, s) != fneg(fmul(y, y)),
{
    let (b, e, p) = (y as int, euler_exponent(), modulus());
    lemma_constants();
    lemma_euler(y);
    lemma_stands_mul(y, b, y, b);
    let q = fmul(y, y);
    // (-y^2)^e = -1
    lemma_stands_sub(0, 0, q, b * b);
    let n = 0 - b * b;
    lemma_stands_pow(fneg(q), n, e);
    assert(n == -1 * (b * b)) by (nonlinear_arith)
        requires
            n == 0 - b * b,
    ;
    lemma_pow_distributes(-1, b * b, e);
    assert(e % 2 == 1) by {
        reveal(euler_exponent);
    }
    lemma_minus_one_power(e);
    lemma_alike(-1, -1, pow(b * b, e), 1);
    assert(-1int * 1 == -1);
    assert(alike(pow(n, e), -1));
    assert(alike(-1, p - 1)) by {
        lemma_mod_multiples_vanish(1, -1, p as int);
    }
    lemma_stands_same(fpow(fneg(q), e), (p - 1) as nat, -1);
    assert forall|s: nat| s < p implies #[trigger] fmul(s, s) != fneg(q) by {
        if fmul(s, s) == fneg(q) {
            if s == 0 {
                lemma_fmul_zero(0);
                lemma_fneg_neg(q);
                lemma_fneg_neg(0);
                lemma_no_zero_divisors(y, y);
            } else {
                lemma_euler(s);
            }
        }
    }
}

/// Euler's criterion: what it calls a nonresidue is no square, and every other
/// element is one.
pub proof fn lemma_nonresidue(d: nat)
    requires
        d < modulus(),
    ensures
        is_nonresidue(d) <==> forall|s: nat| s < modulus() ==> #[trigger] fmul(s, s) != d,
{
    let (e, n, di) = (euler_exponent(), sqrt_exponent(), d as int);
    lemma_constants();
    reveal(modulus);
    lemma_fmul_zero(0);
    let c = fpow(d, e);
    lemma_stands_pow(d, di, e);
    if d == 0 {
        lemma_zero_power(e);
        lemma_stands_same(c, 0, 0);
        assert(fmul(0, 0) == d);
    } else {
        // c^2 = 1, so that c is one or minus one
        lemma_last_power(d);
        lemma_stands_mul(c, pow(di, e), c, pow(di, e));
        lemma_pow_adds(di, e, e);
        lemma_stands_same(fmul(c, c), 1, 1);
        lemma_fmul_one(1);
        lemma_same_squares(1, c);
        lemma_fneg_neg(1);
        if is_nonresidue(d) {
            assert forall|s: nat| s < modulus() implies #[trigger] fmul(s, s) != d by {
                if fmul(s, s) == d {
                    lemma_euler(s);
                }
            }
        } else {
            // (d^n)^2 = d^e d = d
            let r = fpow(d, n);
            lemma_stands_pow(d, di, n);
            lemma_stands_mul(r, pow(di, n), r, pow(di, n));
            lemma_pow_adds(di, n, n);
            lemma_stands_mul(c, pow(di, e), d, di);
            lemma_pow1(di);
            lemma_pow_adds(di, e, 1);
            assert(n + n == e + 1);
            lemma_stands_same(fmul(r, r), fmul(c, d), pow(di, n + n));
            lemma_fmul_one(d);
            assert(fmul(r, r) == d);
        }
    }
}

} // verus!
