//! Elements of the sextic extension on wires.

use crate::circuit::{
    has_wire, lemma_start, step, wf, wire_value, CircuitContext, GateKind, WireId,
};
use crate::gadgets::bn254::fq::gate;
use crate::gadgets::bn254::wires::{group_wires, Fq2, Fq6};
use crate::math::tower::{add6, frob6, inv6, mul6, mul6_01, mul_v, neg6, scale6, sub6};
use crate::native::constants::{frob6_c1_value, frob6_c2_value};
use crate::native::tower::{decode6, fq2_as_montgomery, Fq6Value};
use vstd::prelude::*;

verus! {

broadcast use group_wires;

impl Fq6 {
    /// A constant. The numbers are the Montgomery representation.
    pub fn new_constant<C: CircuitContext>(circuit: &C, v: Fq6Value) -> (r: Self)
        requires
            wf(circuit.wires()),
            v.valid(),
        ensures
            r.ok(circuit.wires()),
            r.val(circuit.wires()) == decode6(v@),
    {
        proof {
            reveal(Fq6::ok);
            reveal(Fq6::val);
        }
        let c0 = Fq2::new_constant(circuit, v.c0);
        let c1 = Fq2::new_constant(circuit, v.c1);
        let c2 = Fq2::new_constant(circuit, v.c2);
        Fq6 { c0, c1, c2 }
    }

    pub fn add<C: CircuitContext>(circuit: &mut C, a: &Fq6, b: &Fq6) -> (r: Fq6)
        requires
            a.ok(old(circuit).wires()),
            b.ok(old(circuit).wires()),
        ensures
            step(old(circuit).wires(), final(circuit).wires()),
            r.ok(final(circuit).wires()),
            r.val(final(circuit).wires()) == add6(
                a.val(old(circuit).wires()),
                b.val(old(circuit).wires()),
            ),
    {
        proof {
            lemma_start(circuit.wires());
            reveal(Fq6::ok);
            reveal(Fq6::val);
            reveal(add6);
        }
        let c0 = Fq2::add(circuit, &a.c0, &b.c0);
        let c1 = Fq2::add(circuit, &a.c1, &b.c1);
        let c2 = Fq2::add(circuit, &a.c2, &b.c2);
        Fq6 { c0, c1, c2 }
    }

    pub fn sub<C: CircuitContext>(circuit: &mut C, a: &Fq6, b: &Fq6) -> (r: Fq6)
        requires
            a.ok(old(circuit).wires()),
            b.ok(old(circuit).wires()),
        ensures
            step(old(circuit).wires(), final(circuit).wires()),
            r.ok(final(circuit).wires()),
            r.val(final(circuit).wires()) == sub6(
                a.val(old(circuit).wires()),
                b.val(old(circuit).wires()),
            ),
    {
        proof {
            lemma_start(circuit.wires());
            reveal(Fq6::ok);
            reveal(Fq6::val);
            reveal(sub6);
        }
        let c0 = Fq2::sub(circuit, &a.c0, &b.c0);
        let c1 = Fq2::sub(circuit, &a.c1, &b.c1);
        let c2 = Fq2::sub(circuit, &a.c2, &b.c2);
        Fq6 { c0, c1, c2 }
    }

    pub fn neg<C: CircuitContext>(circuit: &mut C, a: &Fq6) -> (r: Fq6)
        requires
            wf(old(circuit).wires()),
            a.ok(old(circuit).wires()),
        ensures
            step(old(circuit).wires(), final(circuit).wires()),
            r.ok(final(circuit).wires()),
            r.val(final(circuit).wires()) == neg6(a.val(old(circuit).wires())),
    {
        proof {
            lemma_start(circuit.wires());
            reveal(Fq6::ok);
            reveal(Fq6::val);
            reveal(neg6);
        }
        let c0 = Fq2::neg(circuit, &a.c0);
        let c1 = Fq2::neg(circuit, &a.c1);
        let c2 = Fq2::neg(circuit, &a.c2);
        Fq6 { c0, c1, c2 }
    }

    pub fn mul_montgomery<C: CircuitContext>(circuit: &mut C, a: &Fq6, b: &Fq6) -> (r: Fq6)
        requires
            wf(old(circuit).wires()),
            a.ok(old(circuit).wires()),
            b.ok(old(circuit).wires()),
        ensures
            step(old(circuit).wires(), final(circuit).wires()),
            r.ok(final(circuit).wires()),
            r.val(final(circuit).wires()) == mul6(
                a.val(old(circuit).wires()),
                b.val(old(circuit).wires()),
            ),
    {
        proof {
            lemma_start(circuit.wires());
            reveal(Fq6::ok);
            reveal(Fq6::val);
            reveal(mul6);
        }
        let m00 = Fq2::mul_montgomery(circuit, &a.c0, &b.c0);
        let m01 = Fq2::mul_montgomery(circuit, &a.c0, &b.c1);
        let m02 = Fq2::mul_montgomery(circuit, &a.c0, &b.c2);
        let m10 = Fq2::mul_montgomery(circuit, &a.c1, &b.c0);
        let m11 = Fq2::mul_montgomery(circuit, &a.c1, &b.c1);
        let m12 = Fq2::mul_montgomery(circuit, &a.c1, &b.c2);
        let m20 = Fq2::mul_montgomery(circuit, &a.c2, &b.c0);
        let m21 = Fq2::mul_montgomery(circuit, &a.c2, &b.c1);
        let m22 = Fq2::mul_montgomery(circuit, &a.c2, &b.c2);
        let s0 = Fq2::add(circuit, &m12, &m21);
        let x0 = Fq2::mul_by_nonresidue(circuit, &s0);
        let c0 = Fq2::add(circuit, &m00, &x0);
        let s1 = Fq2::add(circuit, &m01, &m10);
        let x1 = Fq2::mul_by_nonresidue(circuit, &m22);
        let c1 = Fq2::add(circuit, &s1, &x1);
        let s2 = Fq2::add(circuit, &m02, &m11);
        let c2 = Fq2::add(circuit, &s2, &m20);
        Fq6 { c0, c1, c2 }
    }

    /// The product with `v`.
    pub fn mul_by_nonresidue<C: CircuitContext>(circuit: &mut C, a: &Fq6) -> (r: Fq6)
        requires
            wf(old(circuit).wires()),
            a.ok(old(circuit).wires()),
        ensures
            step(old(circuit).wires(), final(circuit).wires()),
            r.ok(final(circuit).wires()),
            r.val(final(circuit).wires()) == mul_v(a.val(old(circuit).wires())),
    {
        proof {
            lemma_start(circuit.wires());
            reveal(Fq6::ok);
            reveal(Fq6::val);
            reveal(mul_v);
        }
        let c0 = Fq2::mul_by_nonresidue(circuit, &a.c2);
        let c1 = a.c0.clone();
        let c2 = a.c1.clone();
        Fq6 { c0, c1, c2 }
    }

    /// The product with an element of the quadratic extension.
    pub fn mul_by_fq2_montgomery<C: CircuitContext>(circuit: &mut C, a: &Fq6, k: &Fq2) -> (r: Fq6)
        requires
            a.ok(old(circuit).wires()),
            k.ok(old(circuit).wires()),
        ensures
            step(old(circuit).wires(), final(circuit).wires()),
            r.ok(final(circuit).wires()),
            r.val(final(circuit).wires()) == scale6(
                a.val(old(circuit).wires()),
                k.val(old(circuit).wires()),
            ),
    {
        proof {
            lemma_start(circuit.wires());
            reveal(Fq6::ok);
            reveal(Fq6::val);
            reveal(scale6);
        }
        let c0 = Fq2::mul_montgomery(circuit, &a.c0, k);
        let c1 = Fq2::mul_montgomery(circuit, &a.c1, k);
        let c2 = Fq2::mul_montgomery(circuit, &a.c2, k);
        Fq6 { c0, c1, c2 }
    }

    /// The product with `x + y v`.
    pub fn mul_by_01_montgomery<C: CircuitContext>(
        circuit: &mut C,
        a: &Fq6,
        x: &Fq2,
        y: &Fq2,
    ) -> (r: Fq6)
        requires
            wf(old(circuit).wires()),
            a.ok(old(circuit).wires()),
            x.ok(old(circuit).wires()),
            y.ok(old(circuit).wires()),
        ensures
            step(old(circuit).wires(), final(circuit).wires()),
            r.ok(final(circuit).wires()),
            r.val(final(circuit).wires()) == mul6_01(
                a.val(old(circuit).wires()),
                x.val(old(circuit).wires()),
                y.val(old(circuit).wires()),
            ),
    {
        proof {
            lemma_start(circuit.wires());
            reveal(Fq6::ok);
            reveal(Fq6::val);
            reveal(mul6_01);
        }
        let m0x = Fq2::mul_montgomery(circuit, &a.c0, x);
        let m2y = Fq2::mul_montgomery(circuit, &a.c2, y);
        let x0 = Fq2::mul_by_nonresidue(circuit, &m2y);
        let c0 = Fq2::add(circuit, &m0x, &x0);
        let m0y = Fq2::mul_montgomery(circuit, &a.c0, y);
        let m1x = Fq2::mul_montgomery(circuit, &a.c1, x);
        let c1 = Fq2::add(circuit, &m0y, &m1x);
        let m1y = Fq2::mul_montgomery(circuit, &a.c1, y);
        let m2x = Fq2::mul_montgomery(circuit, &a.c2, x);
        let c2 = Fq2::add(circuit, &m1y, &m2x);
        Fq6 { c0, c1, c2 }
    }

    /// The inverse, and zero for zero.
    pub fn inverse_montgomery<C: CircuitContext>(circuit: &mut C, a: &Fq6) -> (r: Fq6)
        requires
            wf(old(circuit).wires()),
            a.ok(old(circuit).wires()),
        ensures
            step(old(circuit).wires(), final(circuit).wires()),
            r.ok(final(circuit).wires()),
            r.val(final(circuit).wires()) == inv6(a.val(old(circuit).wires())),
    {
        proof {
            lemma_start(circuit.wires());
            reveal(Fq6::ok);
            reveal(Fq6::val);
            reveal(inv6);
        }
        let q0 = Fq2::square_montgomery(circuit, &a.c0);
        let q1 = Fq2::square_montgomery(circuit, &a.c1);
        let q2 = Fq2::square_montgomery(circuit, &a.c2);
        let m01 = Fq2::mul_montgomery(circuit, &a.c0, &a.c1);
        let m02 = Fq2::mul_montgomery(circuit, &a.c0, &a.c2);
        let m12 = Fq2::mul_montgomery(circuit, &a.c1, &a.c2);
        let x12 = Fq2::mul_by_nonresidue(circuit, &m12);
        let s0 = Fq2::sub(circuit, &q0, &x12);
        let x2 = Fq2::mul_by_nonresidue(circuit, &q2);
        let s1 = Fq2::sub(circuit, &x2, &m01);
        let s2 = Fq2::sub(circuit, &q1, &m02);
        let n0 = Fq2::mul_montgomery(circuit, &a.c0, &s0);
        let n1 = Fq2::mul_montgomery(circuit, &a.c2, &s1);
        let n2 = Fq2::mul_montgomery(circuit, &a.c1, &s2);
        let n12 = Fq2::add(circuit, &n1, &n2);
        let nx = Fq2::mul_by_nonresidue(circuit, &n12);
        let n = Fq2::add(circuit, &n0, &nx);
        let t = Fq2::inverse_montgomery(circuit, &n);
        let c0 = Fq2::mul_montgomery(circuit, &t, &s0);
        let c1 = Fq2::mul_montgomery(circuit, &t, &s1);
        let c2 = Fq2::mul_montgomery(circuit, &t, &s2);
        Fq6 { c0, c1, c2 }
    }

    /// The given power of the Frobenius map.
    pub fn frobenius_montgomery<C: CircuitContext>(circuit: &mut C, a: &Fq6, i: usize) -> (r: Fq6)
        requires
            wf(old(circuit).wires()),
            a.ok(old(circuit).wires()),
            1 <= i <= 3,
        ensures
            step(old(circuit).wires(), final(circuit).wires()),
            r.ok(final(circuit).wires()),
            r.val(final(circuit).wires()) == frob6(a.val(old(circuit).wires()), i as nat),
    {
        proof {
            lemma_start(circuit.wires());
            reveal(Fq6::ok);
            reveal(Fq6::val);
            reveal(frob6);
        }
        let c0 = Fq2::frobenius_montgomery(circuit, &a.c0, i);
        let f1 = Fq2::frobenius_montgomery(circuit, &a.c1, i);
        let k1 = fq2_as_montgomery(frob6_c1_value(i));
        let c1 = Fq2::mul_by_constant_montgomery(circuit, &f1, k1);
        let f2 = Fq2::frobenius_montgomery(circuit, &a.c2, i);
        let k2 = fq2_as_montgomery(frob6_c2_value(i));
        let c2 = Fq2::mul_by_constant_montgomery(circuit, &f2, k2);
        Fq6 { c0, c1, c2 }
    }

    /// Whether the element equals a constant in Montgomery form.
    pub fn equal_constant<C: CircuitContext>(circuit: &mut C, a: &Fq6, c: Fq6Value) -> (r: WireId)
        requires
            wf(old(circuit).wires()),
            a.ok(old(circuit).wires()),
            c.valid(),
        ensures
            step(old(circuit).wires(), final(circuit).wires()),
            has_wire(final(circuit).wires(), r),
            wire_value(final(circuit).wires(), r) == (a.val(old(circuit).wires()) == decode6(c@)),
    {
        proof {
            lemma_start(circuit.wires());
            reveal(Fq6::ok);
            reveal(Fq6::val);
        }
        let e0 = Fq2::equal_constant(circuit, &a.c0, c.c0);
        let e1 = Fq2::equal_constant(circuit, &a.c1, c.c1);
        let e2 = Fq2::equal_constant(circuit, &a.c2, c.c2);
        let e01 = gate(circuit, GateKind::And, e0, e1);
        gate(circuit, GateKind::And, e01, e2)
    }
}

} // verus!
