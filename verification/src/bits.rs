//! Numbers by their binary digits, lowest first.

use crate::math::field::{
    fmul, lemma_constants, lemma_fmul_associates, lemma_fmul_one, modulus, radix, radix_inv,
    radix_sq,
};
use crate::native::fq::FqValue;
use vstd::arithmetic::div_mod::{lemma_fundamental_div_mod, lemma_hoist_over_denominator};
use vstd::arithmetic::power2::{
    lemma2_to64, lemma_pow2_adds, lemma_pow2_pos, lemma_pow2_unfold, pow2,
};
use vstd::prelude::*;

verus! {

/// The number of binary digits of a base field element.
pub const N_BITS: usize = 254;

pub open spec fn bit_value(b: bool) -> nat {
    if b {
        1
    } else {
        0
    }
}

/// The number with the given digits.
pub open spec fn bits_value(b: Seq<bool>) -> nat
    decreases b.len(),
{
    if b.len() == 0 {
        0
    } else {
        bits_value(b.drop_last()) + bit_value(b.last()) * pow2((b.len() - 1) as nat)
    }
}

/// The binary digits of a number.
pub open spec fn digits(n: nat, len: nat) -> Seq<bool> {
    Seq::new(len, |i: int| (n / pow2(i as nat)) % 2 == 1)
}

/// The digits of a number that has no more of them stand for it.
pub proof fn lemma_digits_value(n: nat, len: nat)
    requires
        n < pow2(len),
    ensures
        bits_value(digits(n, len)) == n,
    decreases len,
{
    lemma2_to64();
    if len > 0 {
        let w = pow2((len - 1) as nat);
        lemma_pow2_pos((len - 1) as nat);
        lemma_pow2_unfold(len);
        let top = n / w;
        let low = n % w;
        lemma_fundamental_div_mod(n as int, w as int);
        assert(top < 2) by (nonlinear_arith)
            requires
                n < 2 * w,
                n == w * top + low,
                0 <= low,
                w > 0,
        ;
        lemma_digits_value(low, (len - 1) as nat);
        let a = digits(n, len).drop_last();
        let b = digits(low, (len - 1) as nat);
        assert forall|i: int| 0 <= i < a.len() implies #[trigger] a[i] == b[i] by {
            lemma_low_digit(n, (len - 1) as nat, i as nat);
        }
        assert(a =~= b);
        assert(digits(n, len).last() == (top % 2 == 1));
        assert(bit_value(digits(n, len).last()) == top);
        assert(top * w == w * top) by (nonlinear_arith);
    }
}

/// A low digit does not depend on what stands above.
proof fn lemma_low_digit(n: nat, m: nat, i: nat)
    requires
        i < m,
    ensures
        (n / pow2(i)) % 2 == ((n % pow2(m)) / pow2(i)) % 2,
{
    let a = pow2(i);
    let d = (m - i) as nat;
    let b = pow2(d);
    lemma_pow2_pos(i);
    lemma_pow2_pos(d);
    lemma_pow2_pos(m);
    lemma_pow2_adds(i, d);
    lemma_pow2_unfold(d);
    let h = pow2((d - 1) as nat);
    let w = pow2(m);
    let q = n / w;
    let r = n % w;
    lemma_fundamental_div_mod(n as int, w as int);
    // n = (a * b) * q + r, so n / a = b * q + r / a
    assert(n == a * (b * q) + r) by (nonlinear_arith)
        requires
            n == w * q + r,
            w == a * b,
    ;
    lemma_div_multiples_vanish_fancy_add((b * q) as int, r as int, a as int);
    assert(n / a == b * q + r / a);
    // b * q is even
    assert(b * q == 2 * (h * q)) by (nonlinear_arith)
        requires
            b == 2 * h,
    ;
}

proof fn lemma_div_multiples_vanish_fancy_add(x: int, r: int, a: int)
    requires
        a > 0,
        r >= 0,
    ensures
        (a * x + r) / a == x + r / a,
{
    lemma_hoist_over_denominator(r, x, a as nat);
    assert(a * x == x * a) by (nonlinear_arith);
}

/// The digits of a number are those that stand for it.
pub proof fn lemma_digits_unique(b: Seq<bool>, n: nat)
    requires
        bits_value(b) == n,
    ensures
        b == digits(n, b.len()),
{
    lemma_bits_value_bound(b);
    lemma_digits_value(n, b.len());
    lemma_bits_unique(b, digits(n, b.len()));
}

pub proof fn lemma_bits_value_push(b: Seq<bool>, x: bool)
    ensures
        bits_value(b.push(x)) == bits_value(b) + bit_value(x) * pow2(b.len()),
{
    assert(b.push(x).drop_last() =~= b);
}

/// The lowest digit is the number modulo two, the others are its half.
pub proof fn lemma_bits_value_cons(x: bool, t: Seq<bool>)
    ensures
        bits_value(seq![x] + t) == bit_value(x) + 2 * bits_value(t),
    decreases t.len(),
{
    let b = seq![x] + t;
    lemma2_to64();
    if t.len() == 0 {
        assert(b.drop_last() =~= Seq::<bool>::empty());
        assert(bits_value(b.drop_last()) == 0);
        assert(b.last() == x);
        assert(bit_value(x) * 1 == bit_value(x)) by (nonlinear_arith);
    } else {
        lemma_bits_value_cons(x, t.drop_last());
        assert(b.drop_last() =~= seq![x] + t.drop_last());
        lemma_pow2_unfold(t.len());
        let w = pow2((t.len() - 1) as nat);
        let y = bit_value(t.last());
        assert(y * (2 * w) == 2 * (y * w)) by (nonlinear_arith);
    }
}

/// The number of the digits from `k` on, by that of the digits after.
pub proof fn lemma_bits_value_skip(b: Seq<bool>, k: int)
    requires
        0 <= k < b.len(),
    ensures
        bits_value(b.skip(k)) == bit_value(b[k]) + 2 * bits_value(b.skip(k + 1)),
        bits_value(b.skip(k)) / 2 == bits_value(b.skip(k + 1)),
        (bits_value(b.skip(k)) % 2 == 1) == b[k],
{
    lemma_bits_value_cons(b[k], b.skip(k + 1));
    assert(b.skip(k) =~= seq![b[k]] + b.skip(k + 1));
}

pub proof fn lemma_bits_value_bound(b: Seq<bool>)
    ensures
        bits_value(b) < pow2(b.len()),
    decreases b.len(),
{
    lemma2_to64();
    if b.len() > 0 {
        lemma_bits_value_bound(b.drop_last());
        lemma_pow2_unfold(b.len());
        let w = pow2((b.len() - 1) as nat);
        assert(bit_value(b.last()) * w <= w) by (nonlinear_arith)
            requires
                bit_value(b.last()) <= 1,
        ;
    }
}

/// The digits of a number are determined by it.
pub proof fn lemma_bits_unique(a: Seq<bool>, b: Seq<bool>)
    requires
        a.len() == b.len(),
        bits_value(a) == bits_value(b),
    ensures
        a == b,
    decreases a.len(),
{
    if a.len() > 0 {
        let w = pow2((a.len() - 1) as nat);
        lemma_bits_value_bound(a.drop_last());
        lemma_bits_value_bound(b.drop_last());
        assert(0 * w == 0 && 1 * w == w) by (nonlinear_arith);
        assert(a.last() == b.last());
        lemma_bits_unique(a.drop_last(), b.drop_last());
        assert(a =~= a.drop_last().push(a.last()));
        assert(b =~= b.drop_last().push(b.last()));
    } else {
        assert(a =~= b);
    }
}

/// The `n` digits from `start` on, as a number.
fn read_limb(b: &Vec<bool>, start: usize, n: usize) -> (r: u64)
    requires
        start + n <= b.len(),
        n <= 64,
    ensures
        bits_value(b@.take(start + n)) == bits_value(b@.take(start as int)) + pow2(start as nat) * r,
        r < pow2(n as nat),
{
    let mut acc: u64 = 0;
    let mut weight: u64 = 1;
    let mut j: usize = 0;
    proof {
        lemma2_to64();
    }
    assert(pow2(start as nat) * 0 == 0) by (nonlinear_arith);
    while j < n
        invariant
            start + n <= b.len(),
            j <= n <= 64,
            j < n ==> weight == pow2(j as nat),
            acc < pow2(j as nat),
            bits_value(b@.take(start + j)) == bits_value(b@.take(start as int))
                + pow2(start as nat) * acc,
        decreases n - j,
    {
        let bit = b[start + j];
        let ghost old_acc = acc;
        proof {
            assert(b@.take(start + j + 1) =~= b@.take(start + j).push(bit));
            lemma_bits_value_push(b@.take(start + j), bit);
            lemma_pow2_adds(start as nat, j as nat);
            lemma_pow2_unfold((j + 1) as nat);
            lemma2_to64();
            lemma_pow2_mono((j + 1) as nat, 64);
            assert(pow2(start as nat) * (old_acc + pow2(j as nat)) == pow2(start as nat) * old_acc
                + pow2(start as nat) * pow2(j as nat)) by (nonlinear_arith);
            assert(0 * pow2((start + j) as nat) == 0 && 1 * pow2((start + j) as nat) == pow2(
                (start + j) as nat,
            )) by (nonlinear_arith);
        }
        if bit {
            acc = acc + weight;
        }
        j = j + 1;
        if j < n {
            proof {
                lemma_pow2_unfold((j + 1) as nat);
                lemma_pow2_mono((j + 1) as nat, 64);
            }
            weight = weight * 2;
        }
    }
    acc
}

pub proof fn lemma_pow2_mono(a: nat, b: nat)
    requires
        a <= b,
    ensures
        pow2(a) <= pow2(b),
    decreases b - a,
{
    if a < b {
        lemma_pow2_mono(a, (b - 1) as nat);
        lemma_pow2_unfold(b);
    }
}

/// Appends the `n` lowest digits of a number below `2^n`.
fn write_limb(b: &mut Vec<bool>, x: u64, n: usize)
    requires
        x < pow2(n as nat),
        n <= 64,
    ensures
        final(b)@.len() == old(b)@.len() + n,
        bits_value(final(b)@) == bits_value(old(b)@) + pow2(old(b)@.len()) * x,
{
    let mut rest: u64 = x;
    let mut j: usize = 0;
    let ghost b0 = b@;
    while j < n
        invariant
            j <= n <= 64,
            b@.len() == b0.len() + j,
            rest < pow2((n - j) as nat),
            bits_value(b@) + pow2((b0.len() + j) as nat) * rest == bits_value(b0) + pow2(b0.len())
                * x,
        decreases n - j,
    {
        let bit = rest % 2 == 1;
        let ghost b1 = b@;
        let half = rest / 2;
        proof {
            lemma_bits_value_push(b1, bit);
            lemma_pow2_unfold((b0.len() + j + 1) as nat);
            lemma_pow2_unfold((n - j) as nat);
            let w = pow2((b0.len() + j) as nat);
            assert(w * rest == bit_value(bit) * w + (2 * w) * half) by (nonlinear_arith)
                requires
                    rest == bit_value(bit) + 2 * half,
            ;
        }
        b.push(bit);
        rest = half;
        j = j + 1;
    }
    proof {
        lemma2_to64();
        assert(pow2((b0.len() + j) as nat) * 0 == 0) by (nonlinear_arith);
    }
}

/// Four limbs as digits to the base `2^64`.
pub proof fn lemma_four_limbs(v: FqValue)
    ensures
        v@ == v.w0 + pow2(64) * v.w1 + pow2(128) * v.w2 + pow2(192) * v.w3,
        v@ < pow2(254) ==> v.w3 < pow2(62),
        pow2(254)
            == 0x4000_0000_0000_0000_0000_0000_0000_0000_0000_0000_0000_0000_0000_0000_0000_0000int,
{
    reveal(<FqValue as View>::view);
    lemma2_to64();
    lemma_pow2_adds(64, 64);
    lemma_pow2_adds(64, 128);
    lemma_pow2_adds(62, 192);
    assert(pow2(128) == 0x1_0000_0000_0000_0000_0000_0000_0000_0000int);
    assert(pow2(192) == 0x1_0000_0000_0000_0000_0000_0000_0000_0000_0000_0000_0000_0000int);
    lemma_pow2_unfold(64);
    lemma_pow2_unfold(63);
    assert(pow2(62) == 0x4000_0000_0000_0000);
    let lo = pow2(62);
    let hi = pow2(192);
    assert(lo * hi
        == 0x4000_0000_0000_0000_0000_0000_0000_0000_0000_0000_0000_0000_0000_0000_0000_0000int)
        by (nonlinear_arith)
        requires
            lo == 0x4000_0000_0000_0000,
            hi == 0x1_0000_0000_0000_0000_0000_0000_0000_0000_0000_0000_0000_0000int,
    ;
}

/// The number with the given digits.
pub fn number_from_bits(b: &Vec<bool>) -> (r: FqValue)
    requires
        b.len() == N_BITS,
    ensures
        r@ == bits_value(b@),
{
    let w0 = read_limb(b, 0, 64);
    let w1 = read_limb(b, 64, 64);
    let w2 = read_limb(b, 128, 64);
    let w3 = read_limb(b, 192, 62);
    let r = FqValue { w0, w1, w2, w3 };
    proof {
        lemma_four_limbs(r);
        lemma2_to64();
        assert(b@.take(254) =~= b@);
        assert(bits_value(b@.take(0)) == 0);
        assert(1 * w0 == w0) by (nonlinear_arith);
    }
    r
}

/// The digits of a number.
pub fn bits_from_number(v: FqValue) -> (r: Vec<bool>)
    requires
        v@ < pow2(254),
    ensures
        r@.len() == N_BITS,
        bits_value(r@) == v@,
        r@ == digits(v@, N_BITS as nat),
{
    let mut r: Vec<bool> = Vec::new();
    proof {
        lemma_four_limbs(v);
        lemma2_to64();
        assert(1 * v.w0 == v.w0) by (nonlinear_arith);
    }
    write_limb(&mut r, v.w0, 64);
    write_limb(&mut r, v.w1, 64);
    write_limb(&mut r, v.w2, 64);
    write_limb(&mut r, v.w3, 62);
    proof {
        lemma_digits_unique(r@, v@);
    }
    r
}

/// The field's modulus has no more than this many digits.
pub proof fn lemma_modulus_bits()
    ensures
        modulus() < pow2(254),
{
    lemma_constants();
    lemma_four_limbs(FqValue { w0: 0, w1: 0, w2: 0, w3: 0 });
}

/// The Montgomery radix is `2^254`, reduced, and its square is that of `2^254`.
pub proof fn lemma_radix()
    ensures
        radix() == pow2(254) % modulus(),
        radix_sq() == fmul(radix(), radix()),
{
    lemma_four_limbs(FqValue { w0: 0, w1: 0, w2: 0, w3: 0 });
    lemma_constants();
    assert(pow2(254) == modulus() + radix()) by {
        reveal(modulus);
        reveal(radix);
    }
    vstd::arithmetic::div_mod::lemma_mod_add_multiples_vanish(radix() as int, modulus() as int);
    vstd::arithmetic::div_mod::lemma_small_mod(radix(), modulus());
    // radix_sq = (radix_sq radix_inv) radix = radix radix
    lemma_fmul_associates(radix_sq(), radix_inv(), radix());
    lemma_fmul_one(radix_sq());
}

/// The digit at each place of a number: how often the place's power of two fits
/// into it, modulo two.
pub proof fn lemma_digit(b: Seq<bool>, i: int)
    requires
        0 <= i < b.len(),
    ensures
        b[i] <==> (bits_value(b) / pow2(i as nat)) % 2 == 1,
        bits_value(b) < pow2(b.len()),
{
    lemma_digits_unique(b, bits_value(b));
    lemma_bits_value_bound(b);
}

} // verus!
