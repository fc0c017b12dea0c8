//! Arithmetic of the BN254 base field, as functions on natural numbers below
//! the modulus, and the Montgomery encoding with radix `2^254`.

use vstd::arithmetic::div_mod::*;
use vstd::arithmetic::mul::*;
use vstd::prelude::*;

verus! {

/// The modulus of the BN254 base field.
#[verifier::opaque]
pub open spec fn modulus() -> nat {
    21888242871839275222246405745257275088696311157297823662689037894645226208583nat
}

/// The Montgomery radix `2^254`, reduced.
#[verifier::opaque]
pub open spec fn radix() -> nat {
    7059779437489773633646340506914701874621185009112317347175358107333056201401nat
}

/// The inverse of the Montgomery radix.
#[verifier::opaque]
pub open spec fn radix_inv() -> nat {
    18289368484950178621272022062020525048389989670507786348948026221581485535495nat
}

/// The square of the Montgomery radix, reduced.
#[verifier::opaque]
pub open spec fn radix_sq() -> nat {
    1561553710926436196630623355130915596276990757857306261966263005754792378237nat
}

/// `(p + 1) / 2`, the inverse of two.
#[verifier::opaque]
pub open spec fn one_half() -> nat {
    10944121435919637611123202872628637544348155578648911831344518947322613104292nat
}

/// `(p + 1) / 4`: raising a square to this power gives a square root of it.
#[verifier::opaque]
pub open spec fn sqrt_exponent() -> nat {
    5472060717959818805561601436314318772174077789324455915672259473661306552146nat
}

/// `(p - 1) / 2`: Euler's criterion.
#[verifier::opaque]
pub open spec fn euler_exponent() -> nat {
    10944121435919637611123202872628637544348155578648911831344518947322613104291nat
}

#[verifier::opaque]
pub open spec fn fadd(a: nat, b: nat) -> nat {
    (a + b) % modulus()
}

#[verifier::opaque]
pub open spec fn fsub(a: nat, b: nat) -> nat {
    ((a - b) % (modulus() as int)) as nat
}

pub open spec fn fneg(a: nat) -> nat {
    fsub(0, a)
}

#[verifier::opaque]
pub open spec fn fmul(a: nat, b: nat) -> nat {
    (a * b) % modulus()
}

/// Whether `w` is a reduced inverse of `a`.
pub open spec fn is_inverse(a: nat, w: nat) -> bool {
    w < modulus() && fmul(a, w) == 1
}

/// The inverse of `a`, and zero where there is none.
#[verifier::opaque]
pub open spec fn finv(a: nat) -> nat {
    if exists|w: nat| is_inverse(a, w) {
        choose|w: nat| is_inverse(a, w)
    } else {
        0
    }
}

/// `a` to the power `n`.
pub open spec fn fpow(a: nat, n: nat) -> nat
    decreases n,
{
    if n == 0 {
        1
    } else {
        let h = fpow(a, n / 2);
        let s = fmul(h, h);
        if n % 2 == 1 {
            fmul(s, a)
        } else {
            s
        }
    }
}

/// The number that a Montgomery representation stands for.
#[verifier::opaque]
pub open spec fn decode(x: nat) -> nat {
    fmul(x, radix_inv())
}

/// The Montgomery representation of a number.
#[verifier::opaque]
pub open spec fn encode(v: nat) -> nat {
    fmul(v, radix())
}

/// What the constants are to each other.
pub proof fn lemma_constants()
    ensures
        modulus() > 9,
        modulus() < 0x4000_0000_0000_0000_0000_0000_0000_0000_0000_0000_0000_0000_0000_0000_0000_0000int,
        modulus() < 0x1_0000_0000_0000_0000_0000_0000_0000_0000_0000_0000_0000_0000_0000_0000_0000_0000int,
        radix() < modulus(),
        radix_inv() < modulus(),
        radix_sq() < modulus(),
        one_half() < modulus(),
        fmul(radix(), radix_inv()) == 1,
        fmul(radix_inv(), radix()) == 1,
        fmul(radix_sq(), radix_inv()) == radix(),
        2 * one_half() == modulus() + 1,
        4 * sqrt_exponent() == modulus() + 1,
        2 * euler_exponent() == modulus() - 1,
{
    reveal(modulus);
    reveal(radix);
    reveal(radix_inv);
    reveal(radix_sq);
    reveal(one_half);
    reveal(sqrt_exponent);
    reveal(euler_exponent);
    reveal(fmul);
}

/// Results of field operations are reduced.
pub broadcast proof fn lemma_fadd_reduced(a: nat, b: nat)
    ensures
        #[trigger] fadd(a, b) < modulus(),
{
    lemma_constants();
    reveal(fadd);
    lemma_mod_pos_bound((a + b) as int, modulus() as int);
}

pub broadcast proof fn lemma_fsub_reduced(a: nat, b: nat)
    ensures
        #[trigger] fsub(a, b) < modulus(),
{
    lemma_constants();
    reveal(fsub);
    lemma_mod_bound(a - b, modulus() as int);
}

pub broadcast proof fn lemma_fmul_reduced(a: nat, b: nat)
    ensures
        #[trigger] fmul(a, b) < modulus(),
{
    lemma_constants();
    reveal(fmul);
    lemma_mod_pos_bound((a * b) as int, modulus() as int);
}

pub broadcast proof fn lemma_finv_reduced(a: nat)
    ensures
        #[trigger] finv(a) < modulus(),
{
    lemma_constants();
    reveal(finv);
}

pub broadcast proof fn lemma_fpow_reduced(a: nat, n: nat)
    ensures
        #[trigger] fpow(a, n) < modulus(),
{
    lemma_constants();
    if n != 0 {
        let h = fpow(a, n / 2);
        lemma_fmul_reduced(h, h);
        lemma_fmul_reduced(fmul(h, h), a);
    }
}

pub broadcast proof fn lemma_decode_reduced(x: nat)
    ensures
        #[trigger] decode(x) < modulus(),
{
    reveal(decode);
    lemma_fmul_reduced(x, radix_inv());
}

pub broadcast proof fn lemma_encode_reduced(v: nat)
    ensures
        #[trigger] encode(v) < modulus(),
{
    reveal(encode);
    lemma_fmul_reduced(v, radix());
}

pub broadcast group group_reduced {
    lemma_fadd_reduced,
    lemma_fsub_reduced,
    lemma_fmul_reduced,
    lemma_finv_reduced,
    lemma_fpow_reduced,
    lemma_decode_reduced,
    lemma_encode_reduced,
}

pub proof fn lemma_fmul_commutes(a: nat, b: nat)
    ensures
        fmul(a, b) == fmul(b, a),
{
    reveal(fmul);
    lemma_mul_is_commutative(a as int, b as int);
}

pub proof fn lemma_fmul_associates(a: nat, b: nat, c: nat)
    ensures
        fmul(fmul(a, b), c) == fmul(a, fmul(b, c)),
{
    lemma_constants();
    reveal(fmul);
    let p = modulus() as int;
    lemma_mul_mod_noop_left((a * b) as int, c as int, p);
    lemma_mul_mod_noop_right(a as int, (b * c) as int, p);
    lemma_mul_is_associative(a as int, b as int, c as int);
}

pub proof fn lemma_fmul_one(a: nat)
    requires
        a < modulus(),
    ensures
        fmul(a, 1) == a,
        fmul(1, a) == a,
{
    reveal(fmul);
    lemma_small_mod(a, modulus());
}

pub proof fn lemma_fmul_zero(a: nat)
    ensures
        fmul(a, 0) == 0,
        fmul(0, a) == 0,
{
    lemma_constants();
    reveal(fmul);
    lemma_mul_basics(a as int);
    lemma_small_mod(0, modulus());
}

pub proof fn lemma_fadd_zero(a: nat)
    requires
        a < modulus(),
    ensures
        fadd(a, 0) == a,
        fadd(0, a) == a,
        fsub(a, 0) == a,
        fsub(a, a) == 0,
{
    lemma_constants();
    reveal(fadd);
    reveal(fsub);
    lemma_small_mod(a, modulus());
    lemma_small_mod(0, modulus());
}

/// Nothing remains of a difference only where both sides are equal.
pub proof fn lemma_fsub_zero(a: nat, b: nat)
    requires
        a < modulus(),
        b < modulus(),
    ensures
        fsub(a, b) == 0 <==> a == b,
{
    lemma_constants();
    reveal(fsub);
    let p = modulus() as int;
    lemma_small_mod(0, modulus());
    if a > b {
        lemma_small_mod((a - b) as nat, modulus());
    } else if a < b {
        lemma_small_mod((p + a - b) as nat, modulus());
        lemma_mod_add_multiples_vanish(a - b, p);
    }
}

/// Twice an element is zero only where the element is.
pub proof fn lemma_twice(a: nat)
    requires
        a < modulus(),
    ensures
        fadd(a, a) == 0 ==> a == 0,
{
    reveal(fadd);
    reveal(modulus);
}

/// The negative of an element, and that of its negative.
pub proof fn lemma_fneg_neg(a: nat)
    requires
        a < modulus(),
    ensures
        fneg(fneg(a)) == a,
        a != 0 ==> fneg(a) == modulus() - a,
        fneg(0) == 0,
{
    lemma_constants();
    reveal(fsub);
    let p = modulus() as int;
    lemma_small_mod(a, modulus());
    lemma_small_mod(0, modulus());
    if a != 0 {
        lemma_small_mod((modulus() - a) as nat, modulus());
        lemma_mod_add_multiples_vanish(-(a as int), p);
        lemma_mod_add_multiples_vanish(-((modulus() - a) as int), p);
    }
}

/// An inverse, where there is one, is the only one.
pub proof fn lemma_finv_unique(a: nat, w: nat)
    requires
        is_inverse(a, w),
    ensures
        finv(a) == w,
{
    reveal(finv);
    let v = finv(a);
    assert(is_inverse(a, v));
    // v = v * (a * w) = (v * a) * w = w
    lemma_fmul_one(v);
    lemma_fmul_one(w);
    lemma_fmul_associates(v, a, w);
    lemma_fmul_commutes(v, a);
}

/// Zero has no inverse.
pub proof fn lemma_finv_zero()
    ensures
        finv(0) == 0,
{
    reveal(finv);
    assert forall|w: nat| !is_inverse(0, w) by {
        lemma_fmul_zero(w);
    }
}

pub proof fn lemma_decode_encode(v: nat)
    requires
        v < modulus(),
    ensures
        decode(encode(v)) == v,
{
    lemma_constants();
    reveal(decode);
    reveal(encode);
    lemma_fmul_associates(v, radix(), radix_inv());
    lemma_fmul_one(v);
}

pub proof fn lemma_encode_decode(x: nat)
    requires
        x < modulus(),
    ensures
        encode(decode(x)) == x,
{
    lemma_constants();
    reveal(decode);
    reveal(encode);
    lemma_fmul_associates(x, radix_inv(), radix());
    lemma_fmul_one(x);
}

pub proof fn lemma_decode_zero()
    ensures
        decode(0) == 0,
{
    reveal(decode);
    lemma_fmul_zero(radix_inv());
}

pub proof fn lemma_decode_add(x: nat, y: nat)
    ensures
        decode(fadd(x, y)) == fadd(decode(x), decode(y)),
{
    lemma_constants();
    reveal(decode);
    reveal(fadd);
    reveal(fmul);
    let p = modulus() as int;
    let c = radix_inv() as int;
    lemma_mul_mod_noop_left((x + y) as int, c, p);
    lemma_mul_is_distributive_add_other_way(c, x as int, y as int);
    lemma_add_mod_noop(x * c, y * c, p);
}

pub proof fn lemma_decode_sub(x: nat, y: nat)
    ensures
        decode(fsub(x, y)) == fsub(decode(x), decode(y)),
{
    lemma_constants();
    reveal(decode);
    reveal(fsub);
    reveal(fmul);
    let p = modulus() as int;
    let c = radix_inv() as int;
    lemma_mod_bound(x - y, p);
    lemma_mul_mod_noop_left(x - y, c, p);
    lemma_mul_is_distributive_sub_other_way(c, x as int, y as int);
    lemma_sub_mod_noop(x * c, y * c, p);
}

/// The Montgomery product: what is multiplied and divided by the radix stands
/// for the product.
pub proof fn lemma_decode_mul(x: nat, y: nat)
    ensures
        decode(fmul(fmul(x, y), radix_inv())) == fmul(decode(x), decode(y)),
{
    reveal(decode);
    let c = radix_inv();
    // (x c)(y c) = ((x c) y) c = ((x y) c) c
    lemma_fmul_associates(fmul(x, c), y, c);
    lemma_fmul_associates(x, c, y);
    lemma_fmul_commutes(c, y);
    lemma_fmul_associates(x, y, c);
}

/// The Montgomery inverse: the plain inverse times the square of the radix.
pub proof fn lemma_decode_inv(x: nat, w: nat)
    requires
        is_inverse(x, w),
    ensures
        decode(fmul(w, radix_sq())) == finv(decode(x)),
{
    broadcast use group_reduced;

    lemma_constants();
    reveal(decode);
    let c = radix_inv();
    let r = radix();
    let d = fmul(fmul(w, radix_sq()), c);
    // d = w * r
    lemma_fmul_associates(w, radix_sq(), c);
    assert(d == fmul(w, r));
    // (x c)(w r) = x (c (w r)) = x (c (r w)) = x ((c r) w) = x w = 1
    lemma_fmul_associates(x, c, fmul(w, r));
    lemma_fmul_commutes(w, r);
    lemma_fmul_associates(c, r, w);
    lemma_fmul_one(w);
    assert(is_inverse(fmul(x, c), d));
    lemma_finv_unique(fmul(x, c), d);
}

} // verus!
