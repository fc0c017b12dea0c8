//! Elements of the quadratic extension on wires.

use crate::circuit::{has_wire, lemma_start, step, wf, wire_value, CircuitContext, GateKind, WireId};
use crate::gadgets::bn254::fq::{gate, Fq};
use crate::gadgets::bn254::wires::{group_wires, Fq2};
use crate::math::field::{lemma_constants, lemma_decode_zero};
use crate::math::roots::{sqrt2, sqrt2_real};
use crate::math::tower::{
    add2, dbl2, frob2, half2, inv2, mul2, mul_xi, neg2, norm2, scale2, sqr2, sqrt2_complex, sub2,
    triple2, zero2,
};
use crate::native::fq::{fq_as_montgomery, fq_half, fq_one, fq_small, fq_zero};
use crate::native::tower::{decode2, fq2_as_montgomery, fq2_zero, Fq2Value};
use vstd::prelude::*;

verus! {

broadcast use group_wires;

impl Fq2 {
    /// A constant. The numbers are the Montgomery representation.
    pub fn new_constant<C: CircuitContext>(circuit: &C, v: Fq2Value) -> (r: Self)
        requires
            wf(circuit.wires()),
            v.valid(),
        ensures
            r.ok(circuit.wires()),
            r.val(circuit.wires()) == decode2(v@),
    {
        proof {
            reveal(Fq2::ok);
            reveal(Fq2::val);
        }
        Fq2 { c0: Fq::new_constant(circuit, v.c0), c1: Fq::new_constant(circuit, v.c1) }
    }

    pub fn add<C: CircuitContext>(circuit: &mut C, a: &Fq2, b: &Fq2) -> (r: Fq2)
        requires
            a.ok(old(circuit).wires()),
            b.ok(old(circuit).wires()),
        ensures
            step(old(circuit).wires(), final(circuit).wires()),
            r.ok(final(circuit).wires()),
            r.val(final(circuit).wires()) == add2(
                a.val(old(circuit).wires()),
                b.val(old(circuit).wires()),
            ),
    {
        proof {
            lemma_start(circuit.wires());
            reveal(Fq2::ok);
            reveal(Fq2::val);
            reveal(add2);
        }
        let c0 = Fq::add(circuit, &a.c0, &b.c0);
        let c1 = Fq::add(circuit, &a.c1, &b.c1);
        Fq2 { c0, c1 }
    }

    pub fn sub<C: CircuitContext>(circuit: &mut C, a: &Fq2, b: &Fq2) -> (r: Fq2)
        requires
            a.ok(old(circuit).wires()),
            b.ok(old(circuit).wires()),
        ensures
            step(old(circuit).wires(), final(circuit).wires()),
            r.ok(final(circuit).wires()),
            r.val(final(circuit).wires()) == sub2(
                a.val(old(circuit).wires()),
                b.val(old(circuit).wires()),
            ),
    {
        proof {
            lemma_start(circuit.wires());
            reveal(Fq2::ok);
            reveal(Fq2::val);
            reveal(sub2);
        }
        let c0 = Fq::sub(circuit, &a.c0, &b.c0);
        let c1 = Fq::sub(circuit, &a.c1, &b.c1);
        Fq2 { c0, c1 }
    }

    pub fn neg<C: CircuitContext>(circuit: &mut C, a: &Fq2) -> (r: Fq2)
        requires
            wf(old(circuit).wires()),
            a.ok(old(circuit).wires()),
        ensures
            step(old(circuit).wires(), final(circuit).wires()),
            r.ok(final(circuit).wires()),
            r.val(final(circuit).wires()) == neg2(a.val(old(circuit).wires())),
    {
        proof {
            lemma_start(circuit.wires());
            reveal(Fq2::ok);
            reveal(Fq2::val);
            reveal(neg2);
        }
        let c0 = Fq::neg(circuit, &a.c0);
        let c1 = Fq::neg(circuit, &a.c1);
        Fq2 { c0, c1 }
    }

    pub fn double<C: CircuitContext>(circuit: &mut C, a: &Fq2) -> (r: Fq2)
        requires
            a.ok(old(circuit).wires()),
        ensures
            step(old(circuit).wires(), final(circuit).wires()),
            r.ok(final(circuit).wires()),
            r.val(final(circuit).wires()) == dbl2(a.val(old(circuit).wires())),
    {
        Fq2::add(circuit, a, a)
    }

    pub fn triple<C: CircuitContext>(circuit: &mut C, a: &Fq2) -> (r: Fq2)
        requires
            a.ok(old(circuit).wires()),
        ensures
            step(old(circuit).wires(), final(circuit).wires()),
            r.ok(final(circuit).wires()),
            r.val(final(circuit).wires()) == triple2(a.val(old(circuit).wires())),
    {
        proof {
            lemma_start(circuit.wires());
        }
        let d = Fq2::double(circuit, a);
        Fq2::add(circuit, &d, a)
    }

    pub fn mul_montgomery<C: CircuitContext>(circuit: &mut C, a: &Fq2, b: &Fq2) -> (r: Fq2)
        requires
            a.ok(old(circuit).wires()),
            b.ok(old(circuit).wires()),
        ensures
            step(old(circuit).wires(), final(circuit).wires()),
            r.ok(final(circuit).wires()),
            r.val(final(circuit).wires()) == mul2(
                a.val(old(circuit).wires()),
                b.val(old(circuit).wires()),
            ),
    {
        proof {
            lemma_start(circuit.wires());
            reveal(Fq2::ok);
            reveal(Fq2::val);
            reveal(mul2);
        }
        let m00 = Fq::mul_montgomery(circuit, &a.c0, &b.c0);
        let m11 = Fq::mul_montgomery(circuit, &a.c1, &b.c1);
        let m01 = Fq::mul_montgomery(circuit, &a.c0, &b.c1);
        let m10 = Fq::mul_montgomery(circuit, &a.c1, &b.c0);
        let c0 = Fq::sub(circuit, &m00, &m11);
        let c1 = Fq::add(circuit, &m01, &m10);
        Fq2 { c0, c1 }
    }

    pub fn square_montgomery<C: CircuitContext>(circuit: &mut C, a: &Fq2) -> (r: Fq2)
        requires
            a.ok(old(circuit).wires()),
        ensures
            step(old(circuit).wires(), final(circuit).wires()),
            r.ok(final(circuit).wires()),
            r.val(final(circuit).wires()) == sqr2(a.val(old(circuit).wires())),
    {
        Fq2::mul_montgomery(circuit, a, a)
    }

    /// The product with a base field element.
    pub fn mul_by_fq_montgomery<C: CircuitContext>(circuit: &mut C, a: &Fq2, k: &Fq) -> (r: Fq2)
        requires
            a.ok(old(circuit).wires()),
            k.ok(old(circuit).wires()),
        ensures
            step(old(circuit).wires(), final(circuit).wires()),
            r.ok(final(circuit).wires()),
            r.val(final(circuit).wires()) == scale2(
                a.val(old(circuit).wires()),
                k.val(old(circuit).wires()),
            ),
    {
        proof {
            lemma_start(circuit.wires());
            reveal(Fq2::ok);
            reveal(Fq2::val);
            reveal(scale2);
        }
        let c0 = Fq::mul_montgomery(circuit, &a.c0, k);
        let c1 = Fq::mul_montgomery(circuit, &a.c1, k);
        Fq2 { c0, c1 }
    }

    /// The product of a constant, not in Montgomery form, and a base field
    /// element on wires.
    pub fn mul_constant_by_fq_montgomery<C: CircuitContext>(
        circuit: &mut C,
        c: Fq2Value,
        k: &Fq,
    ) -> (r: Fq2)
        requires
            wf(old(circuit).wires()),
            c.valid(),
            k.ok(old(circuit).wires()),
        ensures
            step(old(circuit).wires(), final(circuit).wires()),
            r.ok(final(circuit).wires()),
            r.val(final(circuit).wires()) == scale2(c@, k.val(old(circuit).wires())),
    {
        proof {
            lemma_start(circuit.wires());
        }
        let a = Fq2::new_constant(circuit, fq2_as_montgomery(c));
        Fq2::mul_by_fq_montgomery(circuit, &a, k)
    }

    pub fn half<C: CircuitContext>(circuit: &mut C, a: &Fq2) -> (r: Fq2)
        requires
            wf(old(circuit).wires()),
            a.ok(old(circuit).wires()),
        ensures
            step(old(circuit).wires(), final(circuit).wires()),
            r.ok(final(circuit).wires()),
            r.val(final(circuit).wires()) == half2(a.val(old(circuit).wires())),
    {
        proof {
            lemma_start(circuit.wires());
        }
        let k = Fq::new_constant(circuit, fq_as_montgomery(fq_half()));
        Fq2::mul_by_fq_montgomery(circuit, a, &k)
    }

    /// The product with a constant in Montgomery form.
    pub fn mul_by_constant_montgomery<C: CircuitContext>(
        circuit: &mut C,
        a: &Fq2,
        c: Fq2Value,
    ) -> (r: Fq2)
        requires
            wf(old(circuit).wires()),
            a.ok(old(circuit).wires()),
            c.valid(),
        ensures
            step(old(circuit).wires(), final(circuit).wires()),
            r.ok(final(circuit).wires()),
            r.val(final(circuit).wires()) == mul2(a.val(old(circuit).wires()), decode2(c@)),
    {
        proof {
            lemma_start(circuit.wires());
        }
        let k = Fq2::new_constant(circuit, c);
        Fq2::mul_montgomery(circuit, a, &k)
    }

    /// The sum with a constant in Montgomery form.
    pub fn add_constant<C: CircuitContext>(circuit: &mut C, a: &Fq2, c: Fq2Value) -> (r: Fq2)
        requires
            wf(old(circuit).wires()),
            a.ok(old(circuit).wires()),
            c.valid(),
        ensures
            step(old(circuit).wires(), final(circuit).wires()),
            r.ok(final(circuit).wires()),
            r.val(final(circuit).wires()) == add2(a.val(old(circuit).wires()), decode2(c@)),
    {
        proof {
            lemma_start(circuit.wires());
        }
        let k = Fq2::new_constant(circuit, c);
        Fq2::add(circuit, a, &k)
    }

    /// The product with `9 + u`.
    pub fn mul_by_nonresidue<C: CircuitContext>(circuit: &mut C, a: &Fq2) -> (r: Fq2)
        requires
            wf(old(circuit).wires()),
            a.ok(old(circuit).wires()),
        ensures
            step(old(circuit).wires(), final(circuit).wires()),
            r.ok(final(circuit).wires()),
            r.val(final(circuit).wires()) == mul_xi(a.val(old(circuit).wires())),
    {
        proof {
            lemma_start(circuit.wires());
        }
        let xi = Fq2Value { c0: fq_small(9), c1: fq_one() };
        proof {
            lemma_constants();
        }
        Fq2::mul_by_constant_montgomery(circuit, a, fq2_as_montgomery(xi))
    }

    /// The norm to the base field.
    pub fn norm_montgomery<C: CircuitContext>(circuit: &mut C, a: &Fq2) -> (r: Fq)
        requires
            a.ok(old(circuit).wires()),
        ensures
            step(old(circuit).wires(), final(circuit).wires()),
            r.ok(final(circuit).wires()),
            r.val(final(circuit).wires()) == norm2(a.val(old(circuit).wires())),
    {
        proof {
            lemma_start(circuit.wires());
            reveal(Fq2::ok);
            reveal(Fq2::val);
            reveal(norm2);
        }
        let s0 = Fq::square_montgomery(circuit, &a.c0);
        let s1 = Fq::square_montgomery(circuit, &a.c1);
        Fq::add(circuit, &s0, &s1)
    }

    /// The inverse, and zero for zero.
    pub fn inverse_montgomery<C: CircuitContext>(circuit: &mut C, a: &Fq2) -> (r: Fq2)
        requires
            wf(old(circuit).wires()),
            a.ok(old(circuit).wires()),
        ensures
            step(old(circuit).wires(), final(circuit).wires()),
            r.ok(final(circuit).wires()),
            r.val(final(circuit).wires()) == inv2(a.val(old(circuit).wires())),
    {
        proof {
            lemma_start(circuit.wires());
            reveal(Fq2::ok);
            reveal(Fq2::val);
            reveal(inv2);
        }
        let n = Fq2::norm_montgomery(circuit, a);
        let t = Fq::inverse_montgomery(circuit, &n);
        let c0 = Fq::mul_montgomery(circuit, &a.c0, &t);
        let m1 = Fq::mul_montgomery(circuit, &a.c1, &t);
        let c1 = Fq::neg(circuit, &m1);
        Fq2 { c0, c1 }
    }

    /// The given power of the Frobenius map.
    pub fn frobenius_montgomery<C: CircuitContext>(circuit: &mut C, a: &Fq2, i: usize) -> (r: Fq2)
        requires
            wf(old(circuit).wires()),
            a.ok(old(circuit).wires()),
        ensures
            step(old(circuit).wires(), final(circuit).wires()),
            r.ok(final(circuit).wires()),
            r.val(final(circuit).wires()) == frob2(a.val(old(circuit).wires()), i as nat),
    {
        proof {
            lemma_start(circuit.wires());
            reveal(Fq2::ok);
            reveal(Fq2::val);
            reveal(frob2);
        }
        if i % 2 == 1 {
            let c0 = a.c0.clone();
            let c1 = Fq::neg(circuit, &a.c1);
            Fq2 { c0, c1 }
        } else {
            a.clone()
        }
    }

    /// The first operand where the selector is set, else the second.
    pub fn select<C: CircuitContext>(circuit: &mut C, a: &Fq2, b: &Fq2, sel: WireId) -> (r: Fq2)
        requires
            a.ok(old(circuit).wires()),
            b.ok(old(circuit).wires()),
            has_wire(old(circuit).wires(), sel),
        ensures
            step(old(circuit).wires(), final(circuit).wires()),
            r.ok(final(circuit).wires()),
            r.val(final(circuit).wires()) == (if wire_value(old(circuit).wires(), sel) {
                a.val(old(circuit).wires())
            } else {
                b.val(old(circuit).wires())
            }),
    {
        proof {
            lemma_start(circuit.wires());
            reveal(Fq2::ok);
            reveal(Fq2::val);
        }
        let c0 = Fq::select(circuit, &a.c0, &b.c0, sel);
        let c1 = Fq::select(circuit, &a.c1, &b.c1, sel);
        Fq2 { c0, c1 }
    }

    /// Whether the element equals a constant in Montgomery form.
    pub fn equal_constant<C: CircuitContext>(circuit: &mut C, a: &Fq2, c: Fq2Value) -> (r: WireId)
        requires
            wf(old(circuit).wires()),
            a.ok(old(circuit).wires()),
            c.valid(),
        ensures
            step(old(circuit).wires(), final(circuit).wires()),
            has_wire(final(circuit).wires(), r),
            wire_value(final(circuit).wires(), r) == (a.val(old(circuit).wires()) == decode2(c@)),
    {
        proof {
            lemma_start(circuit.wires());
            reveal(Fq2::ok);
            reveal(Fq2::val);
        }
        let e0 = Fq::equal_constant(circuit, &a.c0, c.c0);
        let e1 = Fq::equal_constant(circuit, &a.c1, c.c1);
        gate(circuit, GateKind::And, e0, e1)
    }

    /// Whether the element is zero.
    pub fn equal_zero<C: CircuitContext>(circuit: &mut C, a: &Fq2) -> (r: WireId)
        requires
            wf(old(circuit).wires()),
            a.ok(old(circuit).wires()),
        ensures
            step(old(circuit).wires(), final(circuit).wires()),
            has_wire(final(circuit).wires(), r),
            wire_value(final(circuit).wires(), r) == (a.val(old(circuit).wires()) == zero2()),
    {
        proof {
            lemma_start(circuit.wires());
            lemma_decode_zero();
        }
        Fq2::equal_constant(circuit, a, fq2_zero())
    }

    /// Whether two elements are equal.
    pub fn equal<C: CircuitContext>(circuit: &mut C, a: &Fq2, b: &Fq2) -> (r: WireId)
        requires
            wf(old(circuit).wires()),
            a.ok(old(circuit).wires()),
            b.ok(old(circuit).wires()),
        ensures
            step(old(circuit).wires(), final(circuit).wires()),
            has_wire(final(circuit).wires(), r),
            wire_value(final(circuit).wires(), r) == (a.val(old(circuit).wires()) == b.val(
                old(circuit).wires(),
            )),
    {
        proof {
            lemma_start(circuit.wires());
            reveal(Fq2::ok);
            reveal(Fq2::val);
        }
        let e0 = Fq::equal(circuit, &a.c0, &b.c0);
        let e1 = Fq::equal(circuit, &a.c1, &b.c1);
        gate(circuit, GateKind::And, e0, e1)
    }

    /// The square root by the complex method, of a square with `c1 != 0`.
    fn sqrt_complex_montgomery<C: CircuitContext>(circuit: &mut C, a: &Fq2) -> (r: Fq2)
        requires
            wf(old(circuit).wires()),
            a.ok(old(circuit).wires()),
        ensures
            step(old(circuit).wires(), final(circuit).wires()),
            r.ok(final(circuit).wires()),
            r.val(final(circuit).wires()) == sqrt2_complex(a.val(old(circuit).wires())),
    {
        proof {
            lemma_start(circuit.wires());
            reveal(Fq2::ok);
            reveal(Fq2::val);
            reveal(sqrt2_complex);
        }
        let n = Fq2::norm_montgomery(circuit, a);
        let alpha = Fq::sqrt_montgomery(circuit, &n);
        let sum = Fq::add(circuit, &alpha, &a.c0);
        let plus = Fq::half(circuit, &sum);
        let is_qnr = Fq::is_qnr_montgomery(circuit, &plus);
        let minus = Fq::sub(circuit, &plus, &alpha);
        let delta = Fq::select(circuit, &minus, &plus, is_qnr);
        let c0 = Fq::sqrt_montgomery(circuit, &delta);
        let c0_inv = Fq::inverse_montgomery(circuit, &c0);
        let c1_half = Fq::half(circuit, &a.c1);
        let c1 = Fq::mul_montgomery(circuit, &c1_half, &c0_inv);
        Fq2 { c0, c1 }
    }

    /// The square root of a square with `c1 == 0`: that of the real part, or else
    /// `u` times that of its negative.
    fn sqrt_real_montgomery<C: CircuitContext>(circuit: &mut C, c0: &Fq) -> (r: Fq2)
        requires
            wf(old(circuit).wires()),
            c0.ok(old(circuit).wires()),
        ensures
            step(old(circuit).wires(), final(circuit).wires()),
            r.ok(final(circuit).wires()),
            r.val(final(circuit).wires()) == sqrt2_real(c0.val(old(circuit).wires())),
    {
        proof {
            lemma_start(circuit.wires());
            lemma_decode_zero();
            reveal(Fq2::ok);
            reveal(Fq2::val);
        }
        let zero = Fq::new_constant(circuit, fq_zero());
        let root = Fq::sqrt_montgomery(circuit, c0);
        let square = Fq::square_montgomery(circuit, &root);
        let fits = Fq::equal(circuit, &square, c0);
        let is_zero = Fq::equal_zero(circuit, c0);
        let both = gate(circuit, GateKind::And, fits, is_zero);
        let has_root = gate(circuit, GateKind::Xor, fits, both);
        let neg = Fq::neg(circuit, c0);
        let neg_root = Fq::sqrt_montgomery(circuit, &neg);
        let re = Fq::select(circuit, &root, &zero, has_root);
        let im = Fq::select(circuit, &zero, &neg_root, has_root);
        Fq2 { c0: re, c1: im }
    }

    /// The square root of a square.
    pub fn sqrt_general_montgomery<C: CircuitContext>(circuit: &mut C, a: &Fq2) -> (r: Fq2)
        requires
            wf(old(circuit).wires()),
            a.ok(old(circuit).wires()),
        ensures
            step(old(circuit).wires(), final(circuit).wires()),
            r.ok(final(circuit).wires()),
            r.val(final(circuit).wires()) == sqrt2(a.val(old(circuit).wires())),
    {
        proof {
            lemma_start(circuit.wires());
            reveal(Fq2::ok);
            reveal(Fq2::val);
        }
        let is_real = Fq::equal_zero(circuit, &a.c1);
        let real_root = Fq2::sqrt_real_montgomery(circuit, &a.c0);
        let complex_root = Fq2::sqrt_complex_montgomery(circuit, a);
        Fq2::select(circuit, &real_root, &complex_root, is_real)
    }
}

} // verus!
