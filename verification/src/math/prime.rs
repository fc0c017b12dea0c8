//! Prime numbers: inverses modulo a prime, and how a number is shown to be one.

use vstd::arithmetic::div_mod::{
    lemma_fundamental_div_mod, lemma_fundamental_div_mod_converse, lemma_mod_mod,
    lemma_mod_multiples_vanish, lemma_mul_mod_noop_general, lemma_small_mod, lemma_sub_mod_noop,
};
use vstd::arithmetic::power::{
    lemma1_pow, lemma_pow0, lemma_pow1, lemma_pow_adds, lemma_pow_mod_noop, lemma_pow_multiplies,
    pow,
};
use vstd::prelude::*;
use vstd::relations::injective_on;
use vstd::set::fold::{lemma_fold_empty, lemma_fold_insert};
use vstd::set_lib::{
    lemma_int_range, lemma_len_subset, lemma_map_size, lemma_subset_equality, set_int_range,
};

verus! {

/// Whether nothing but one and `n` itself divides `n`.
pub open spec fn is_prime(n: int) -> bool {
    n > 1 && forall|d: int| 1 < d < n ==> #[trigger] (n % d) != 0
}

/// Whether `b` to the power `e` leaves `h` modulo `n`.
#[verifier::opaque]
pub open spec fn leaves(n: int, b: int, e: nat, h: int) -> bool {
    pow(b, e) % n == h
}

/// Modulo a prime each number that is not a multiple has an inverse.
pub proof fn lemma_inverse(a: int, n: int) -> (w: int)
    requires
        is_prime(n),
        0 < a < n,
    ensures
        0 <= w < n,
        (a * w) % n == 1,
    decreases a,
{
    if a == 1 {
        lemma_small_mod(1, n as nat);
        1
    } else {
        let k = n / a;
        let r = n % a;
        lemma_fundamental_div_mod(n, a);
        assert(0 < r < a);
        let v = lemma_inverse(r, n);
        let w0 = -k * v;
        // a * w0 = (r - n) * v
        assert(a * w0 == n * (-v) + r * v) by (nonlinear_arith)
            requires
                w0 == -k * v,
                n == a * k + r,
        ;
        lemma_mod_multiples_vanish(-v, r * v, n);
        lemma_mul_mod_noop_general(a, w0, n);
        w0 % n
    }
}

/// Where the power of a power leaves one, so does that of its multiples.
proof fn lemma_power_of_one(n: int, b: int, k: nat, m: nat)
    requires
        n > 1,
        pow(b, k) % n == 1,
    ensures
        pow(b, k * m) % n == 1,
{
    lemma_pow_multiplies(b, k, m);
    lemma_pow_mod_noop(pow(b, k), m, n);
    lemma1_pow(m);
    lemma_small_mod(1, n as nat);
}

/// Where `b^k` and `b^(s t)` leave one, and `s` is a prime that does not divide
/// `k`, `b^t` leaves one.
proof fn lemma_cofactor(r: int, b: int, s: int, t: int, k: int)
    requires
        r > 1,
        is_prime(s),
        t > 0,
        k > 0,
        k % s != 0,
        pow(b, k as nat) % r == 1,
        pow(b, (s * t) as nat) % r == 1,
    ensures
        pow(b, t as nat) % r == 1,
{
    let u = lemma_inverse(k % s, s);
    lemma_mul_mod_noop_general(k, u, s);
    let m = (k * u) / s;
    lemma_fundamental_div_mod(k * u, s);
    assert(k * u >= 0) by (nonlinear_arith)
        requires
            k > 0,
            u >= 0,
    ;
    assert(m >= 0) by (nonlinear_arith)
        requires
            k * u >= 0,
            s > 0,
            m == (k * u) / s,
    ;
    assert(s * t > 0 && u * t >= 0) by (nonlinear_arith)
        requires
            s > 0,
            t > 0,
            u >= 0,
    ;
    lemma_power_of_one(r, b, k as nat, (u * t) as nat);
    lemma_power_of_one(r, b, (s * t) as nat, m as nat);
    let rest = s * t * m;
    assert(rest >= 0) by (nonlinear_arith)
        requires
            rest == s * t * m,
            s * t > 0,
            m >= 0,
    ;
    assert(k * (u * t) == t + rest) by (nonlinear_arith)
        requires
            k * u == s * m + 1,
            rest == s * t * m,
    ;
    lemma_pow_adds(b, t as nat, rest as nat);
    lemma_mul_mod_noop_general(pow(b, t as nat), pow(b, rest as nat), r);
    assert(pow(b, t as nat) * 1 == pow(b, t as nat));
}

/// A multiple of two different primes is a multiple of their product.
proof fn lemma_both_divide(s: int, t: int, k: int)
    requires
        is_prime(s),
        is_prime(t),
        s != t,
        k > 0,
        k % s == 0,
        k % t == 0,
    ensures
        k >= s * t,
{
    let j = k / s;
    lemma_fundamental_div_mod(k, s);
    assert(j > 0) by (nonlinear_arith)
        requires
            k > 0,
            k == s * j,
            s > 0,
    ;
    assert(s % t != 0) by {
        if t > s {
            lemma_small_mod(s as nat, t as nat);
        }
    }
    let w = lemma_inverse(s % t, t);
    lemma_mul_mod_noop_general(s, w, t);
    // j = (s w) j = k w = 0 modulo t
    assert((s * w) * j == k * w) by (nonlinear_arith)
        requires
            k == s * j,
    ;
    lemma_mul_mod_noop_general(s * w, j, t);
    lemma_mul_mod_noop_general(k, w, t);
    assert(1 * j == j && 0 * w == 0);
    lemma_small_mod(0, t as nat);
    assert(j % t == 0);
    if j < t {
        lemma_small_mod(j as nat, t as nat);
    }
    assert(s * j >= s * t) by (nonlinear_arith)
        requires
            j >= t,
            s > 0,
    ;
}

/// Where `b^(s t)` leaves one, but neither `b^s` nor `b^t` does, no smaller power
/// of `b` leaves one.
proof fn lemma_order(r: int, b: int, s: int, t: int, k: int)
    requires
        r > 1,
        is_prime(s),
        t == 1 || (is_prime(t) && t != s),
        pow(b, (s * t) as nat) % r == 1,
        pow(b, t as nat) % r != 1,
        t == 1 || pow(b, s as nat) % r != 1,
        0 < k < s * t,
    ensures
        pow(b, k as nat) % r != 1,
{
    if pow(b, k as nat) % r == 1 {
        if k % s != 0 {
            lemma_cofactor(r, b, s, t, k);
        } else if t == 1 {
            lemma_small_mod(k as nat, s as nat);
        } else if k % t != 0 {
            assert(s * t == t * s) by (nonlinear_arith);
            lemma_cofactor(r, b, t, s, k);
        } else {
            lemma_both_divide(s, t, k);
        }
    }
}

/// Modulo `r` there are at least as many numbers other than zero as powers of
/// `b` before the first that leaves one.
proof fn lemma_powers_differ(r: int, b: int, order: int)
    requires
        r > 1,
        order > 0,
        pow(b, order as nat) % r == 1,
        forall|k: int| 0 < k < order ==> #[trigger] pow(b, k as nat) % r != 1,
    ensures
        order < r,
{
    let powers = Seq::new(order as nat, |i: int| pow(b, i as nat) % r);
    assert forall|i: int, j: int| 0 <= i < j < powers.len() implies powers[i] != powers[j] by {
        // b^(j - i) = b^j b^(order - i) and 1 = b^i b^(order - i)
        let rest = (order - i) as nat;
        lemma_pow_adds(b, i as nat, rest);
        lemma_pow_adds(b, j as nat, rest);
        lemma_pow_adds(b, order as nat, (j - i) as nat);
        assert(i as nat + rest == order as nat);
        assert(j as nat + rest == order as nat + (j - i) as nat);
        lemma_mul_mod_noop_general(pow(b, i as nat), pow(b, rest), r);
        lemma_mul_mod_noop_general(pow(b, j as nat), pow(b, rest), r);
        lemma_mul_mod_noop_general(pow(b, order as nat), pow(b, (j - i) as nat), r);
        assert(1 * pow(b, (j - i) as nat) == pow(b, (j - i) as nat));
        assert(pow(b, (j - i) as nat) % r != 1);
    }
    assert forall|i: int| 0 <= i < powers.len() implies 1 <= #[trigger] powers[i] < r by {
        let rest = (order - i) as nat;
        lemma_pow_adds(b, i as nat, rest);
        assert(i as nat + rest == order as nat);
        lemma_mul_mod_noop_general(pow(b, i as nat), pow(b, rest), r);
        if powers[i] == 0 {
            assert(0 * pow(b, rest) == 0);
            lemma_small_mod(0, r as nat);
        }
    }
    assert(powers.no_duplicates());
    powers.unique_seq_to_set();
    assert(powers.to_set().subset_of(set_int_range(1, r)));
    lemma_int_range(1, r);
    lemma_len_subset(powers.to_set(), set_int_range(1, r));
}

/// What leaves `g` modulo `n`, where `g - 1` has an inverse, does not leave one
/// modulo a divisor of `n`.
proof fn lemma_not_one(n: int, r: int, x: int, g: int, u: int)
    requires
        n > 1,
        r > 1,
        n % r == 0,
        x % n == g,
        ((g - 1) * u) % n == 1,
    ensures
        x % r != 1,
{
    let k = n / r;
    lemma_fundamental_div_mod(n, r);
    assert(k > 0) by (nonlinear_arith)
        requires
            n > 1,
            n == r * k,
            r > 1,
    ;
    lemma_mod_mod(x, r, k);
    lemma_mod_mod((g - 1) * u, r, k);
    lemma_small_mod(1, r as nat);
    if x % r == 1 {
        lemma_fundamental_div_mod(g, r);
        let c = g / r;
        assert((g - 1) * u == r * (c * u) + 0) by (nonlinear_arith)
            requires
                g == r * c + 1,
        ;
        lemma_mod_multiples_vanish(c * u, 0, r);
        lemma_small_mod(0, r as nat);
    }
}

/// A number `n` is prime where some `b` has the order `s t` modulo `n`, as the
/// inverses `u` of `b^t - 1` and `v` of `b^s - 1` show, for primes `s` and `t` or for a
/// prime `s` alone, whose product is at least the root of `n`.
pub proof fn lemma_certificate(n: int, b: int, s: int, t: int, g: int, h: int, u: int, v: int)
    requires
        n > 1,
        is_prime(s),
        t == 1 || (is_prime(t) && t != s),
        n <= (s * t) * (s * t),
        leaves(n, b, (s * t) as nat, 1),
        leaves(n, b, t as nat, g),
        ((g - 1) * u) % n == 1,
        t == 1 || (leaves(n, b, s as nat, h) && ((h - 1) * v) % n == 1),
    ensures
        is_prime(n),
{
    reveal(leaves);
    assert forall|d: int| 1 < d < n implies #[trigger] (n % d) != 0 by {
        if n % d == 0 {
            let c = n / d;
            lemma_fundamental_div_mod(n, d);
            assert(1 < c < n && (d * d <= n || c * c <= n)) by (nonlinear_arith)
                requires
                    n == d * c,
                    1 < d < n,
            ;
            assert(n == d * c + 0 && n == c * d + 0) by (nonlinear_arith)
                requires
                    n == d * c,
            ;
            lemma_fundamental_div_mod_converse(n, c, d, 0);
            let r = if d * d <= n {
                d
            } else {
                c
            };
            let k = n / r;
            lemma_fundamental_div_mod(n, r);
            assert(k > 0) by (nonlinear_arith)
                requires
                    n > 1,
                    n == r * k,
                    r > 1,
            ;
            lemma_mod_mod(pow(b, (s * t) as nat), r, k);
            lemma_small_mod(1, r as nat);
            lemma_not_one(n, r, pow(b, t as nat), g, u);
            if t != 1 {
                lemma_not_one(n, r, pow(b, s as nat), h, v);
            }
            assert(s * t > 0) by (nonlinear_arith)
                requires
                    s > 0,
                    t > 0,
            ;
            assert forall|k: int| 0 < k < s * t implies #[trigger] pow(b, k as nat) % r != 1 by {
                lemma_order(r, b, s, t, k);
            }
            lemma_powers_differ(r, b, s * t);
            assert((s * t) * (s * t) < r * r) by (nonlinear_arith)
                requires
                    0 < s * t < r,
            ;
        }
    }
}

pub proof fn lemma_leaves_zero(n: int, b: int)
    requires
        n > 1,
    ensures
        leaves(n, b, 0, 1),
{
    reveal(leaves);
    lemma_pow0(b);
    lemma_small_mod(1, n as nat);
}

pub proof fn lemma_leaves_itself(n: int, b: int)
    requires
        0 <= b < n,
    ensures
        leaves(n, b, 1, b),
{
    reveal(leaves);
    lemma_pow1(b);
    lemma_small_mod(b as nat, n as nat);
}

/// The product of two powers.
pub proof fn lemma_leaves_product(n: int, b: int, d: nat, e: nat, g: int, h: int, r: int)
    requires
        n > 1,
        leaves(n, b, d, g),
        leaves(n, b, e, h),
        r == (g * h) % n,
    ensures
        leaves(n, b, d + e, r),
{
    reveal(leaves);
    lemma_pow_adds(b, d, e);
    lemma_mul_mod_noop_general(pow(b, d), pow(b, e), n);
}

/// A power of a power.
pub proof fn lemma_leaves_power(n: int, b: int, d: nat, e: nat, g: int, h: int)
    requires
        n > 1,
        leaves(n, b, d, g),
        leaves(n, g, e, h),
    ensures
        leaves(n, b, d * e, h),
{
    reveal(leaves);
    lemma_pow_multiplies(b, d, e);
    lemma_pow_mod_noop(pow(b, d), e, n);
}

/// One more hexadecimal digit of the exponent.
pub proof fn lemma_leaves_digit(
    n: int,
    b: int,
    e: nat,
    d: nat,
    g: int,
    h: int,
    h2: int,
    h4: int,
    h8: int,
    h16: int,
    r: int,
)
    requires
        n > 1,
        leaves(n, b, e, h),
        leaves(n, b, d, g),
        h2 == (h * h) % n,
        h4 == (h2 * h2) % n,
        h8 == (h4 * h4) % n,
        h16 == (h8 * h8) % n,
        r == (h16 * g) % n,
    ensures
        leaves(n, b, 16 * e + d, r),
{
    lemma_leaves_product(n, b, e, e, h, h, h2);
    lemma_leaves_product(n, b, 2 * e, 2 * e, h2, h2, h4);
    lemma_leaves_product(n, b, 4 * e, 4 * e, h4, h4, h8);
    lemma_leaves_product(n, b, 8 * e, 8 * e, h8, h8, h16);
    lemma_leaves_product(n, b, 16 * e, d, h16, g, r);
}

/// A number below 49 that no prime below seven divides is a prime.
pub proof fn lemma_small_prime(n: int)
    requires
        1 < n < 49,
        n <= 2 || n % 2 != 0,
        n <= 3 || n % 3 != 0,
        n <= 5 || n % 5 != 0,
    ensures
        is_prime(n),
{
    assert forall|d: int| 1 < d < 7 && d < n implies #[trigger] (n % d) != 0 by {
        assert(d == 2 || d == 3 || d == 4 || d == 5 || d == 6);
        assert(n % 4 == 0 ==> n % 2 == 0);
        assert(n % 6 == 0 ==> n % 2 == 0);
    }
    assert forall|d: int| 1 < d < n implies #[trigger] (n % d) != 0 by {
        if n % d == 0 && d >= 7 {
            let c = n / d;
            lemma_fundamental_div_mod(n, d);
            assert(1 < c < 7 && c < n && n == d * c + 0) by (nonlinear_arith)
                requires
                    n == d * c,
                    7 <= d < n,
                    n < 49,
            ;
            lemma_fundamental_div_mod_converse(n, c, d, 0);
        }
    }
}

/// Modulo a prime a product leaves zero only where a factor does.
proof fn lemma_factor_vanishes(x: int, y: int, n: int)
    requires
        is_prime(n),
        (x * y) % n == 0,
    ensures
        x % n == 0 || y % n == 0,
{
    if x % n != 0 {
        let w = lemma_inverse(x % n, n);
        // y = (x w) y = (x y) w
        lemma_mul_mod_noop_general(x, w, n);
        lemma_mul_mod_noop_general(x * w, y, n);
        lemma_mul_mod_noop_general(x * y, w, n);
        assert((x * w) * y == (x * y) * w) by (nonlinear_arith);
        assert(1 * y == y && 0 * w == 0);
        lemma_small_mod(0, n as nat);
    }
}

/// The product of the numbers of a set.
spec fn product(s: Set<int>) -> int {
    s.fold(1int, |r: int, x: int| r * x)
}

proof fn lemma_product_insert(s: Set<int>, x: int)
    requires
        s.finite(),
        !s.contains(x),
    ensures
        product(s.insert(x)) == product(s) * x,
{
    let f = |r: int, x: int| r * x;
    assert forall|a: int, b: int, r: int| #[trigger] f(f(r, b), a) == f(f(r, a), b) by {
        assert(r * b * a == r * a * b) by (nonlinear_arith);
    }
    lemma_fold_insert(s, 1int, f, x);
}

/// The product of numbers that a prime does not divide, and of their multiples
/// by `a`.
proof fn lemma_product_of_multiples(s: Set<int>, a: int, n: int)
    requires
        is_prime(n),
        0 < a < n,
        s.subset_of(set_int_range(1, n)),
    ensures
        s.finite(),
        product(s) % n != 0,
        product(s.map(|x: int| (a * x) % n)) % n == (pow(a, s.len()) * product(s)) % n,
    decreases s.len(),
{
    let f = |x: int| (a * x) % n;
    lemma_int_range(1, n);
    lemma_len_subset(s, set_int_range(1, n));
    if s.len() == 0 {
        assert(s =~= Set::empty());
        assert(s.map(f) =~= Set::empty());
        lemma_fold_empty(1int, |r: int, x: int| r * x);
        lemma_pow0(a);
        lemma_small_mod(1, n as nat);
    } else {
        let x = s.choose();
        let t = s.remove(x);
        lemma_product_of_multiples(t, a, n);
        assert(s =~= t.insert(x));
        lemma_product_insert(t, x);
        lemma_small_mod(x as nat, n as nat);
        if product(s) % n == 0 {
            lemma_factor_vanishes(product(t), x, n);
        }
        // no other number of the set has the same multiple
        assert forall|y: int| t.contains(y) implies #[trigger] f(y) != f(x) by {
            if f(y) == f(x) {
                let w = lemma_inverse(a, n);
                lemma_inverse_undoes(a, w, x, n);
                lemma_inverse_undoes(a, w, y, n);
                lemma_small_mod(y as nat, n as nat);
            }
        }
        assert(s.map(f) =~= t.map(f).insert(f(x)));
        assert(!t.map(f).contains(f(x)));
        assert(t.map(f).finite()) by {
            t.lemma_map_finite(f);
        }
        lemma_product_insert(t.map(f), f(x));
        // f(x) times the product of the others
        let (m, q, e) = (product(t.map(f)), product(t), pow(a, t.len()));
        lemma_pow_adds(a, t.len(), 1);
        lemma_pow1(a);
        lemma_mul_mod_noop_general(m, a * x, n);
        lemma_mul_mod_noop_general(m, f(x), n);
        lemma_mul_mod_noop_general(e * q, a * x, n);
        assert((e * q) * (a * x) == (e * a) * (q * x)) by (nonlinear_arith);
    }
}

/// What is multiplied by `a` and then by the inverse of `a` is left as it was.
proof fn lemma_inverse_undoes(a: int, w: int, x: int, n: int)
    requires
        n > 1,
        (a * w) % n == 1,
    ensures
        (((a * x) % n) * w) % n == x % n,
{
    lemma_mul_mod_noop_general(a * x, w, n);
    lemma_mul_mod_noop_general(a * w, x, n);
    assert((a * x) * w == (a * w) * x) by (nonlinear_arith);
    assert(1 * x == x);
}

/// The power `n - 1` of what a prime `n` does not divide leaves one.
pub proof fn lemma_fermat(a: int, n: int)
    requires
        is_prime(n),
        0 < a < n,
    ensures
        pow(a, (n - 1) as nat) % n == 1,
{
    let f = |x: int| (a * x) % n;
    let s = set_int_range(1, n);
    lemma_int_range(1, n);
    lemma_product_of_multiples(s, a, n);
    let w = lemma_inverse(a, n);
    // the multiples are the same numbers
    assert forall|x: int| s.contains(x) implies s.contains(#[trigger] f(x)) by {
        lemma_inverse_undoes(a, w, x, n);
        lemma_small_mod(x as nat, n as nat);
        if f(x) == 0 {
            assert(0 * w == 0);
            lemma_small_mod(0, n as nat);
        }
    }
    assert(s.map(f).subset_of(s));
    assert(injective_on(f, s)) by {
        assert forall|x: int, y: int|
            s.contains(x) && s.contains(y) && #[trigger] f(x) == #[trigger] f(y) implies x == y by {
            lemma_inverse_undoes(a, w, x, n);
            lemma_inverse_undoes(a, w, y, n);
            lemma_small_mod(x as nat, n as nat);
            lemma_small_mod(y as nat, n as nat);
        }
    }
    lemma_map_size(s, s.map(f), f);
    lemma_subset_equality(s.map(f), s);
    // (a^(n - 1) - 1) times the product leaves zero
    let (e, q) = (pow(a, (n - 1) as nat), product(s));
    assert((e - 1) * q == e * q - q) by (nonlinear_arith);
    lemma_sub_mod_noop(e * q, q, n);
    lemma_small_mod(0, n as nat);
    lemma_factor_vanishes(e - 1, q, n);
    lemma_fundamental_div_mod(e - 1, n);
    lemma_mod_multiples_vanish((e - 1) / n, 1, n);
    lemma_small_mod(1, n as nat);
}

} // verus!
