//! The extension tower of BN254 over its base field:
//! `Fq2 = Fq[u]/(u^2 + 1)`, `Fq6 = Fq2[v]/(v^3 - xi)` with `xi = 9 + u`, and
//! `Fq12 = Fq6[w]/(w^2 - v)`.

use crate::math::field::{
    euler_exponent, fadd, finv, fmul, fneg, fpow, fsub, lemma_constants, lemma_fadd_zero,
    lemma_fmul_zero, modulus, one_half, sqrt_exponent,
};
use crate::math::field::{lemma_fadd_reduced, lemma_fmul_one, lemma_fsub_reduced};
use vstd::prelude::*;

verus! {

/// An element `c0 + c1 u` of the quadratic extension.
pub struct Ext2 {
    pub c0: nat,
    pub c1: nat,
}

/// An element `c0 + c1 v + c2 v^2` of the sextic extension.
pub struct Ext6 {
    pub c0: Ext2,
    pub c1: Ext2,
    pub c2: Ext2,
}

/// An element `c0 + c1 w` of the extension of degree twelve.
pub struct Ext12 {
    pub c0: Ext6,
    pub c1: Ext6,
}

pub open spec fn ext2(c0: nat, c1: nat) -> Ext2 {
    Ext2 { c0, c1 }
}

pub open spec fn zero2() -> Ext2 {
    ext2(0, 0)
}

pub open spec fn one2() -> Ext2 {
    ext2(1, 0)
}

pub open spec fn reduced2(a: Ext2) -> bool {
    a.c0 < modulus() && a.c1 < modulus()
}

#[verifier::opaque]
pub open spec fn add2(a: Ext2, b: Ext2) -> Ext2 {
    ext2(fadd(a.c0, b.c0), fadd(a.c1, b.c1))
}

#[verifier::opaque]
pub open spec fn sub2(a: Ext2, b: Ext2) -> Ext2 {
    ext2(fsub(a.c0, b.c0), fsub(a.c1, b.c1))
}

#[verifier::opaque]
pub open spec fn neg2(a: Ext2) -> Ext2 {
    ext2(fneg(a.c0), fneg(a.c1))
}

pub open spec fn dbl2(a: Ext2) -> Ext2 {
    add2(a, a)
}

pub open spec fn triple2(a: Ext2) -> Ext2 {
    add2(dbl2(a), a)
}

#[verifier::opaque]
pub open spec fn mul2(a: Ext2, b: Ext2) -> Ext2 {
    ext2(
        fsub(fmul(a.c0, b.c0), fmul(a.c1, b.c1)),
        fadd(fmul(a.c0, b.c1), fmul(a.c1, b.c0)),
    )
}

pub open spec fn sqr2(a: Ext2) -> Ext2 {
    mul2(a, a)
}

/// Multiplication by an element of the base field.
#[verifier::opaque]
pub open spec fn scale2(a: Ext2, k: nat) -> Ext2 {
    ext2(fmul(a.c0, k), fmul(a.c1, k))
}

pub open spec fn half2(a: Ext2) -> Ext2 {
    scale2(a, one_half())
}

/// `c0^2 + c1^2`, the norm to the base field.
#[verifier::opaque]
pub open spec fn norm2(a: Ext2) -> nat {
    fadd(fmul(a.c0, a.c0), fmul(a.c1, a.c1))
}

/// `conj(a) / norm(a)`: the inverse, and zero for zero.
#[verifier::opaque]
pub open spec fn inv2(a: Ext2) -> Ext2 {
    let t = finv(norm2(a));
    ext2(fmul(a.c0, t), fneg(fmul(a.c1, t)))
}

/// The `k`-th power of the Frobenius map: conjugation for odd `k`.
#[verifier::opaque]
pub open spec fn frob2(a: Ext2, k: nat) -> Ext2 {
    if k % 2 == 1 {
        ext2(a.c0, fneg(a.c1))
    } else {
        a
    }
}

/// The nonresidue `9 + u` of the quadratic extension.
pub open spec fn xi() -> Ext2 {
    ext2(9, 1)
}

pub open spec fn mul_xi(a: Ext2) -> Ext2 {
    mul2(a, xi())
}

/// Whether `d` is a quadratic nonresidue, by Euler's criterion.
pub open spec fn is_nonresidue(d: nat) -> bool {
    fpow(d, euler_exponent()) == modulus() - 1
}

/// The square root that the complex method finds of an element with
/// `c1 != 0`, where it has one.
#[verifier::opaque]
pub open spec fn sqrt2_complex(a: Ext2) -> Ext2 {
    let alpha = fpow(norm2(a), sqrt_exponent());
    let plus = fmul(fadd(alpha, a.c0), one_half());
    let delta = if is_nonresidue(plus) {
        fsub(plus, alpha)
    } else {
        plus
    };
    let c0 = fpow(delta, sqrt_exponent());
    ext2(c0, fmul(fmul(a.c1, one_half()), finv(c0)))
}

pub open spec fn ext6(c0: Ext2, c1: Ext2, c2: Ext2) -> Ext6 {
    Ext6 { c0, c1, c2 }
}

pub open spec fn zero6() -> Ext6 {
    ext6(zero2(), zero2(), zero2())
}

pub open spec fn one6() -> Ext6 {
    ext6(one2(), zero2(), zero2())
}

pub open spec fn reduced6(a: Ext6) -> bool {
    reduced2(a.c0) && reduced2(a.c1) && reduced2(a.c2)
}

#[verifier::opaque]
pub open spec fn add6(a: Ext6, b: Ext6) -> Ext6 {
    ext6(add2(a.c0, b.c0), add2(a.c1, b.c1), add2(a.c2, b.c2))
}

#[verifier::opaque]
pub open spec fn sub6(a: Ext6, b: Ext6) -> Ext6 {
    ext6(sub2(a.c0, b.c0), sub2(a.c1, b.c1), sub2(a.c2, b.c2))
}

#[verifier::opaque]
pub open spec fn neg6(a: Ext6) -> Ext6 {
    ext6(neg2(a.c0), neg2(a.c1), neg2(a.c2))
}

#[verifier::opaque]
pub open spec fn mul6(a: Ext6, b: Ext6) -> Ext6 {
    ext6(
        add2(mul2(a.c0, b.c0), mul_xi(add2(mul2(a.c1, b.c2), mul2(a.c2, b.c1)))),
        add2(add2(mul2(a.c0, b.c1), mul2(a.c1, b.c0)), mul_xi(mul2(a.c2, b.c2))),
        add2(add2(mul2(a.c0, b.c2), mul2(a.c1, b.c1)), mul2(a.c2, b.c0)),
    )
}

/// Multiplication by `v`.
#[verifier::opaque]
pub open spec fn mul_v(a: Ext6) -> Ext6 {
    ext6(mul_xi(a.c2), a.c0, a.c1)
}

/// Multiplication by an element of the quadratic extension.
#[verifier::opaque]
pub open spec fn scale6(a: Ext6, k: Ext2) -> Ext6 {
    ext6(mul2(a.c0, k), mul2(a.c1, k), mul2(a.c2, k))
}

/// Multiplication by `x + y v`.
#[verifier::opaque]
pub open spec fn mul6_01(a: Ext6, x: Ext2, y: Ext2) -> Ext6 {
    ext6(
        add2(mul2(a.c0, x), mul_xi(mul2(a.c2, y))),
        add2(mul2(a.c0, y), mul2(a.c1, x)),
        add2(mul2(a.c1, y), mul2(a.c2, x)),
    )
}

/// The inverse, by the adjugate over the norm.
#[verifier::opaque]
pub open spec fn inv6(a: Ext6) -> Ext6 {
    let s0 = sub2(sqr2(a.c0), mul_xi(mul2(a.c1, a.c2)));
    let s1 = sub2(mul_xi(sqr2(a.c2)), mul2(a.c0, a.c1));
    let s2 = sub2(sqr2(a.c1), mul2(a.c0, a.c2));
    let n = add2(mul2(a.c0, s0), mul_xi(add2(mul2(a.c2, s1), mul2(a.c1, s2))));
    let t = inv2(n);
    ext6(mul2(t, s0), mul2(t, s1), mul2(t, s2))
}

/// `xi^((p^k - 1) / 3)`, for the powers that occur.
pub open spec fn frob6_c1(k: nat) -> Ext2 {
    if k == 1 {
        ext2(
            21575463638280843010398324269430826099269044274347216827212613867836435027261nat,
            10307601595873709700152284273816112264069230130616436755625194854815875713954nat,
        )
    } else if k == 2 {
        ext2(21888242871839275220042445260109153167277707414472061641714758635765020556616nat, 0)
    } else {
        ext2(
            3772000881919853776433695186713858239009073593817195771773381919316419345261nat,
            2236595495967245188281701248203181795121068902605861227855261137820944008926nat,
        )
    }
}

/// `xi^((2 p^k - 2) / 3)`, for the powers that occur.
pub open spec fn frob6_c2(k: nat) -> Ext2 {
    if k == 1 {
        ext2(
            2581911344467009335267311115468803099551665605076196740867805258568234346338nat,
            19937756971775647987995932169929341994314640652964949448313374472400716661030nat,
        )
    } else if k == 2 {
        ext2(2203960485148121921418603742825762020974279258880205651966nat, 0)
    } else {
        ext2(
            5324479202449903542726783395506214481928257762400643279780343368557297135718nat,
            16208900380737693084919495127334387981393726419856888799917914180988844123039nat,
        )
    }
}

/// `xi^((p^k - 1) / 6)`, for the powers that occur.
pub open spec fn frob12_c1(k: nat) -> Ext2 {
    if k == 1 {
        ext2(
            8376118865763821496583973867626364092589906065868298776909617916018768340080nat,
            16469823323077808223889137241176536799009286646108169935659301613961712198316nat,
        )
    } else if k == 2 {
        ext2(21888242871839275220042445260109153167277707414472061641714758635765020556617nat, 0)
    } else {
        ext2(
            11697423496358154304825782922584725312912383441159505038794027105778954184319nat,
            303847389135065887422783454877609941456349188919719272345083954437860409601nat,
        )
    }
}

/// The `k`-th power of the Frobenius map, for `k` from one to three.
#[verifier::opaque]
pub open spec fn frob6(a: Ext6, k: nat) -> Ext6 {
    ext6(
        frob2(a.c0, k),
        mul2(frob2(a.c1, k), frob6_c1(k)),
        mul2(frob2(a.c2, k), frob6_c2(k)),
    )
}

pub open spec fn ext12(c0: Ext6, c1: Ext6) -> Ext12 {
    Ext12 { c0, c1 }
}

pub open spec fn zero12() -> Ext12 {
    ext12(zero6(), zero6())
}

pub open spec fn one12() -> Ext12 {
    ext12(one6(), zero6())
}

pub open spec fn reduced12(a: Ext12) -> bool {
    reduced6(a.c0) && reduced6(a.c1)
}

#[verifier::opaque]
pub open spec fn mul12(a: Ext12, b: Ext12) -> Ext12 {
    ext12(
        add6(mul6(a.c0, b.c0), mul_v(mul6(a.c1, b.c1))),
        add6(mul6(a.c0, b.c1), mul6(a.c1, b.c0)),
    )
}

pub open spec fn sqr12(a: Ext12) -> Ext12 {
    mul12(a, a)
}

/// `c0 - c1 w`.
#[verifier::opaque]
pub open spec fn conj12(a: Ext12) -> Ext12 {
    ext12(a.c0, neg6(a.c1))
}

/// `conj(a) / norm(a)`.
#[verifier::opaque]
pub open spec fn inv12(a: Ext12) -> Ext12 {
    let t = inv6(sub6(mul6(a.c0, a.c0), mul_v(mul6(a.c1, a.c1))));
    ext12(mul6(a.c0, t), neg6(mul6(a.c1, t)))
}

/// The `k`-th power of the Frobenius map, for `k` from one to three.
#[verifier::opaque]
pub open spec fn frob12(a: Ext12, k: nat) -> Ext12 {
    ext12(frob6(a.c0, k), scale6(frob6(a.c1, k), frob12_c1(k)))
}

/// The sparse element `c0 + (c3 + c4 v) w`.
pub open spec fn sparse034(c0: Ext2, c3: Ext2, c4: Ext2) -> Ext12 {
    ext12(ext6(c0, zero2(), zero2()), ext6(c3, c4, zero2()))
}

/// `a^2 + xi b^2`: the first coefficient of `(a + b y)^2` for `y^2 = xi`.
pub open spec fn quartic0(a: Ext2, b: Ext2) -> Ext2 {
    add2(sqr2(a), mul_xi(sqr2(b)))
}

/// `2 a b`: the second coefficient of `(a + b y)^2`.
pub open spec fn quartic1(a: Ext2, b: Ext2) -> Ext2 {
    dbl2(mul2(a, b))
}

/// `3 t - 2 z`.
pub open spec fn three_minus_two(t: Ext2, z: Ext2) -> Ext2 {
    add2(dbl2(sub2(t, z)), t)
}

/// `3 t + 2 z`.
pub open spec fn three_plus_two(t: Ext2, z: Ext2) -> Ext2 {
    add2(dbl2(add2(t, z)), t)
}

/// The squaring of Granger and Scott, for elements of the cyclotomic subgroup.
#[verifier::opaque]
pub open spec fn cyclotomic_sqr12(a: Ext12) -> Ext12 {
    ext12(
        ext6(
            three_minus_two(quartic0(a.c0.c0, a.c1.c1), a.c0.c0),
            three_minus_two(quartic0(a.c1.c0, a.c0.c2), a.c0.c1),
            three_minus_two(quartic0(a.c0.c1, a.c1.c2), a.c0.c2),
        ),
        ext6(
            three_plus_two(mul_xi(quartic1(a.c0.c1, a.c1.c2)), a.c1.c0),
            three_plus_two(quartic1(a.c0.c0, a.c1.c1), a.c1.c1),
            three_plus_two(quartic1(a.c1.c0, a.c0.c2), a.c1.c2),
        ),
    )
}

/// `a` to the power `n`.
pub open spec fn pow12(a: Ext12, n: nat) -> Ext12
    decreases n,
{
    if n == 0 {
        one12()
    } else {
        let s = sqr12(pow12(a, n / 2));
        if n % 2 == 1 {
            mul12(s, a)
        } else {
            s
        }
    }
}

pub broadcast proof fn lemma_add2_reduced(a: Ext2, b: Ext2)
    ensures
        reduced2(#[trigger] add2(a, b)),
{
    reveal(add2);
    broadcast use lemma_fadd_reduced;

}

pub broadcast proof fn lemma_sub2_reduced(a: Ext2, b: Ext2)
    ensures
        reduced2(#[trigger] sub2(a, b)),
{
    reveal(sub2);
    broadcast use lemma_fsub_reduced;

}

pub broadcast proof fn lemma_neg2_reduced(a: Ext2)
    ensures
        reduced2(#[trigger] neg2(a)),
{
    reveal(neg2);
    broadcast use lemma_fsub_reduced;

}

pub broadcast proof fn lemma_mul2_reduced(a: Ext2, b: Ext2)
    ensures
        reduced2(#[trigger] mul2(a, b)),
{
    reveal(mul2);
    broadcast use lemma_fadd_reduced, lemma_fsub_reduced;

}

pub broadcast group group_reduced2 {
    lemma_add2_reduced,
    lemma_sub2_reduced,
    lemma_neg2_reduced,
    lemma_mul2_reduced,
}

/// Zero annihilates.
pub proof fn lemma_mul2_zero(a: Ext2)
    ensures
        mul2(a, zero2()) == zero2(),
        mul2(zero2(), a) == zero2(),
{
    lemma_constants();
    reveal(mul2);
    lemma_fmul_zero(a.c0);
    lemma_fmul_zero(a.c1);
    lemma_fadd_zero(0);
}

/// Zero is neutral for addition.
pub proof fn lemma_add2_zero(a: Ext2)
    requires
        reduced2(a),
    ensures
        add2(a, zero2()) == a,
        add2(zero2(), a) == a,
{
    reveal(add2);
    lemma_fadd_zero(a.c0);
    lemma_fadd_zero(a.c1);
}

/// One is neutral for multiplication.
pub proof fn lemma_mul2_one(a: Ext2)
    requires
        reduced2(a),
    ensures
        mul2(a, one2()) == a,
        mul2(one2(), a) == a,
{
    reveal(mul2);
    lemma_constants();
    lemma_fmul_one(a.c0);
    lemma_fmul_one(a.c1);
    lemma_fmul_zero(a.c0);
    lemma_fmul_zero(a.c1);
    lemma_fadd_zero(a.c0);
    lemma_fadd_zero(a.c1);
}

/// A product with an element of the quadratic extension is computed
/// coefficient by coefficient.
pub proof fn lemma_mul6_scale(a: Ext6, x: Ext2)
    ensures
        mul6(a, ext6(x, zero2(), zero2())) == scale6(a, x),
{
    broadcast use group_reduced2;

    lemma_constants();
    reveal(mul6);
    reveal(scale6);
    let z = zero2();
    lemma_mul2_zero(a.c0);
    lemma_mul2_zero(a.c1);
    lemma_mul2_zero(a.c2);
    lemma_mul2_zero(xi());
    lemma_add2_zero(z);
    lemma_add2_zero(mul2(a.c0, x));
    lemma_add2_zero(mul2(a.c1, x));
    lemma_add2_zero(mul2(a.c2, x));
}

/// A product with `x + y v` takes six products.
pub proof fn lemma_mul6_01(a: Ext6, x: Ext2, y: Ext2)
    ensures
        mul6(a, ext6(x, y, zero2())) == mul6_01(a, x, y),
{
    broadcast use group_reduced2;

    lemma_constants();
    reveal(mul6);
    reveal(mul6_01);
    let z = zero2();
    lemma_mul2_zero(a.c0);
    lemma_mul2_zero(a.c1);
    lemma_mul2_zero(a.c2);
    lemma_mul2_zero(xi());
    lemma_add2_zero(mul2(a.c2, y));
    lemma_add2_zero(mul2(a.c1, y));
    lemma_add2_zero(add2(mul2(a.c0, y), mul2(a.c1, x)));
}

/// A product with a sparse element takes eighteen products in the quadratic
/// extension.
pub proof fn lemma_mul12_034(a: Ext12, c0: Ext2, c3: Ext2, c4: Ext2)
    ensures
        mul12(a, sparse034(c0, c3, c4)) == ext12(
            add6(scale6(a.c0, c0), mul_v(mul6_01(a.c1, c3, c4))),
            add6(mul6_01(a.c0, c3, c4), scale6(a.c1, c0)),
        ),
{
    reveal(mul12);
    lemma_mul6_scale(a.c0, c0);
    lemma_mul6_scale(a.c1, c0);
    lemma_mul6_01(a.c0, c3, c4);
    lemma_mul6_01(a.c1, c3, c4);
}

} // verus!
