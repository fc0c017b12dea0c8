//! The final exponentiation of the BN254 pairing, outside circuits and on
//! wires.

use crate::bits::{bits_from_number, bits_value, lemma_bits_value_skip, lemma_modulus_bits};
use crate::circuit::{grows, lemma_start, step, wf, CircuitContext};
use crate::gadgets::bn254::wires::{group_wires, Fq12};
use crate::math::curve::{
    bn_x, cyclotomic_exp, exp_neg_x, exp_neg_x_plain, final_exp, final_exp_plain,
    lemma_cyclotomic_sqr12_one, lemma_sqr12_one, naf, naf_pow,
};
use crate::math::tower::{conj12, cyclotomic_sqr12, inv12, one12, pow12, sqr12, zero12};
use crate::native::fq::fq_small;
use crate::native::tower::{
    fq12_as_montgomery, fq12_frobenius, fq12_inverse, fq12_mul, fq12_one, fq12_square, fq6_neg,
    Fq12Value,
};
use vstd::prelude::*;

verus! {

broadcast use group_wires;

/// The parameter `x` of the curve family.
pub const BN_X: u64 = 4965661367192848881;

/// `c0 - c1 w`.
pub fn conjugate_native(f: Fq12Value) -> (r: Fq12Value)
    requires
        f.valid(),
    ensures
        r.valid(),
        r@ == conj12(f@),
{
    reveal(conj12);
    Fq12Value { c0: f.c0, c1: fq6_neg(f.c1) }
}

/// `f` to the power of the curve parameter, by squaring and multiplying.
pub fn cyclotomic_exp_native(f: Fq12Value) -> (r: Fq12Value)
    requires
        f.valid(),
    ensures
        r.valid(),
        r@ == pow12(f@, bn_x()),
{
    proof {
        lemma_sqr12_one();
        lemma_modulus_bits();
    }
    let b = bits_from_number(fq_small(BN_X));
    let mut res = fq12_one();
    let mut found_nonzero = false;
    let mut k: usize = b.len();
    assert(b@.skip(k as int) =~= Seq::<bool>::empty());
    while k > 0
        invariant
            k <= b.len(),
            f.valid(),
            res.valid(),
            sqr12(one12()) == one12(),
            res@ == pow12(f@, bits_value(b@.skip(k as int))),
            !found_nonzero ==> bits_value(b@.skip(k as int)) == 0,
        decreases k,
    {
        k = k - 1;
        proof {
            lemma_bits_value_skip(b@, k as int);
        }
        if found_nonzero {
            res = fq12_square(res);
        }
        if b[k] {
            found_nonzero = true;
            res = fq12_mul(res, f);
        }
    }
    assert(b@.skip(0) =~= b@);
    res
}

/// `f` to the power of minus the curve parameter, for `f` in the cyclotomic
/// subgroup, where the conjugate is the inverse.
pub fn exp_by_neg_x_native(f: Fq12Value) -> (r: Fq12Value)
    requires
        f.valid(),
    ensures
        r.valid(),
        r@ == exp_neg_x_plain(f@),
{
    conjugate_native(cyclotomic_exp_native(f))
}

/// The final exponentiation of an element other than zero.
pub fn final_exponentiation_native(f: Fq12Value) -> (r: Fq12Value)
    requires
        f.valid(),
        f@ != zero12(),
    ensures
        r.valid(),
        r@ == final_exp_plain(f@),
{
    reveal(final_exp_plain);
    let f_inverse = fq12_inverse(f).unwrap();
    let u = fq12_mul(f_inverse, conjugate_native(f));
    let r = fq12_mul(fq12_frobenius(u, 2), u);
    let y0 = exp_by_neg_x_native(r);
    let y1 = fq12_square(y0);
    let y2 = fq12_square(y1);
    let y3 = fq12_mul(y1, y2);
    let y4 = exp_by_neg_x_native(y3);
    let y5 = fq12_square(y4);
    let y6 = exp_by_neg_x_native(y5);
    let y7 = conjugate_native(y3);
    let y8 = conjugate_native(y6);
    let y9 = fq12_mul(y8, y4);
    let y10 = fq12_mul(y9, y7);
    let y11 = fq12_mul(y10, y1);
    let y12 = fq12_mul(y10, y4);
    let y13 = fq12_mul(y12, r);
    let y14 = fq12_frobenius(y11, 1);
    let y15 = fq12_mul(y14, y13);
    let y16 = fq12_frobenius(y10, 2);
    let y17 = fq12_mul(y16, y15);
    let r2 = conjugate_native(r);
    let y18 = fq12_mul(r2, y11);
    let y19 = fq12_frobenius(y18, 3);
    fq12_mul(y19, y17)
}

/// Digits as integers.
pub open spec fn digit_values(d: Seq<i8>) -> Seq<int> {
    Seq::new(d.len(), |i: int| d[i] as int)
}

/// `ark_ff::biginteger::arithmetic::find_naf` on one limb: the non-adjacent
/// form, lowest digit first. A limb that is half or more of its range is left
/// out: there the sum with one may lose a carry.
#[verifier::external_body]
fn find_naf(num: u64) -> (r: Vec<i8>)
    requires
        num < 0x8000_0000_0000_0000,
    ensures
        digit_values(r@) == naf(num as nat),
{
    ark_ff::biginteger::arithmetic::find_naf(&[num])
}

/// `f` to the power of the curve parameter, by its non-adjacent form and with
/// cyclotomic squarings.
pub fn cyclotomic_exp_fast_inverse_montgomery_fast<C: CircuitContext>(
    circuit: &mut C,
    f: &Fq12,
) -> (r: Fq12)
    requires
        wf(old(circuit).wires()),
        f.ok(old(circuit).wires()),
    ensures
        step(old(circuit).wires(), final(circuit).wires()),
        r.ok(final(circuit).wires()),
        r.val(final(circuit).wires()) == cyclotomic_exp(f.val(old(circuit).wires())),
{
    proof {
        lemma_start(circuit.wires());
    }
    let ghost s0 = circuit.wires();
    let ghost fv = f.val(s0);
    proof {
        lemma_cyclotomic_sqr12_one();
    }
    let mut res = Fq12::new_constant(circuit, fq12_as_montgomery(fq12_one()));
    let f_inverse = Fq12::inverse_montgomery(circuit, f);
    let digits = find_naf(BN_X);
    let ghost d = digit_values(digits@);
    let mut found_nonzero = false;
    let mut k: usize = digits.len();
    while k > 0
        invariant
            k <= digits.len(),
            d == digit_values(digits@),
            wf(s0),
            f.ok(s0),
            fv == f.val(s0),
            step(s0, circuit.wires()),
            grows(s0, circuit.wires()),
            cyclotomic_sqr12(one12()) == one12(),
            f_inverse.ok(circuit.wires()),
            f_inverse.val(circuit.wires()) == inv12(fv),
            res.ok(circuit.wires()),
            res.val(circuit.wires()) == naf_pow(fv, d, k as int),
            !found_nonzero ==> naf_pow(fv, d, k as int) == one12(),
        decreases k,
    {
        k = k - 1;
        if found_nonzero {
            res = Fq12::cyclotomic_square_montgomery(circuit, &res);
        }
        let value = digits[k];
        assert(d[k as int] == value as int);
        if value != 0 {
            found_nonzero = true;
            if value > 0 {
                res = Fq12::mul_montgomery(circuit, &res, f);
            } else {
                res = Fq12::mul_montgomery(circuit, &res, &f_inverse);
            }
        }
    }
    res
}

/// `f` to the power of minus the curve parameter, for `f` in the cyclotomic
/// subgroup.
pub fn exp_by_neg_x_montgomery<C: CircuitContext>(circuit: &mut C, f: &Fq12) -> (r: Fq12)
    requires
        wf(old(circuit).wires()),
        f.ok(old(circuit).wires()),
    ensures
        step(old(circuit).wires(), final(circuit).wires()),
        r.ok(final(circuit).wires()),
        r.val(final(circuit).wires()) == exp_neg_x(f.val(old(circuit).wires())),
{
    proof {
        lemma_start(circuit.wires());
    }
    let f2 = cyclotomic_exp_fast_inverse_montgomery_fast(circuit, f);
    Fq12::conjugate(circuit, &f2)
}

/// The final exponentiation.
pub fn final_exponentiation_montgomery<C: CircuitContext>(
    circuit: &mut C,
    f: &Fq12,
) -> (r: Fq12)
    requires
        wf(old(circuit).wires()),
        f.ok(old(circuit).wires()),
    ensures
        step(old(circuit).wires(), final(circuit).wires()),
        r.ok(final(circuit).wires()),
        r.val(final(circuit).wires()) == final_exp(f.val(old(circuit).wires())),
{
    proof {
        lemma_start(circuit.wires());
        reveal(final_exp);
    }
    let f_inv = Fq12::inverse_montgomery(circuit, f);
    let f_conjugate = Fq12::conjugate(circuit, f);
    let u = Fq12::mul_montgomery(circuit, &f_inv, &f_conjugate);
    let u_frobenius = Fq12::frobenius_montgomery(circuit, &u, 2);
    let r = Fq12::mul_montgomery(circuit, &u_frobenius, &u);
    let y0 = exp_by_neg_x_montgomery(circuit, &r);
    let y1 = Fq12::square_montgomery(circuit, &y0);
    let y2 = Fq12::square_montgomery(circuit, &y1);
    let y3 = Fq12::mul_montgomery(circuit, &y1, &y2);
    let y4 = exp_by_neg_x_montgomery(circuit, &y3);
    let y5 = Fq12::square_montgomery(circuit, &y4);
    let y6 = exp_by_neg_x_montgomery(circuit, &y5);
    let y7 = Fq12::conjugate(circuit, &y3);
    let y8 = Fq12::conjugate(circuit, &y6);
    let y9 = Fq12::mul_montgomery(circuit, &y8, &y4);
    let y10 = Fq12::mul_montgomery(circuit, &y9, &y7);
    let y11 = Fq12::mul_montgomery(circuit, &y10, &y1);
    let y12 = Fq12::mul_montgomery(circuit, &y10, &y4);
    let y13 = Fq12::mul_montgomery(circuit, &y12, &r);
    let y14 = Fq12::frobenius_montgomery(circuit, &y11, 1);
    let y15 = Fq12::mul_montgomery(circuit, &y14, &y13);
    let y16 = Fq12::frobenius_montgomery(circuit, &y10, 2);
    let y17 = Fq12::mul_montgomery(circuit, &y16, &y15);
    let r2 = Fq12::conjugate(circuit, &r);
    let y18 = Fq12::mul_montgomery(circuit, &r2, &y11);
    let y19 = Fq12::frobenius_montgomery(circuit, &y18, 3);
    Fq12::mul_montgomery(circuit, &y19, &y17)
}

} // verus!
