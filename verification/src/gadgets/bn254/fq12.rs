//! Elements of the extension of degree twelve on wires.

use crate::circuit::{
    has_wire, lemma_start, step, wf, wire_value, CircuitContext, GateKind, WireId,
};
use crate::gadgets::bn254::fq::gate;
use crate::gadgets::bn254::wires::{group_wires, Fq12, Fq2, Fq6};
use crate::math::tower::{
    conj12, cyclotomic_sqr12, frob12, inv12, lemma_mul12_034, mul12, quartic0, quartic1, sparse034,
    sqr12, three_minus_two, three_plus_two,
};
use crate::native::constants::frob12_c1_value;
use crate::native::tower::{decode12, decode2, fq2_as_montgomery, Fq12Value, Fq2Value};
use vstd::prelude::*;

verus! {

broadcast use group_wires;

/// `(a + b y)^2` for `y^2 = xi`, by its two coefficients.
fn quartic_square<C: CircuitContext>(circuit: &mut C, a: &Fq2, b: &Fq2) -> (r: (Fq2, Fq2))
    requires
        wf(old(circuit).wires()),
        a.ok(old(circuit).wires()),
        b.ok(old(circuit).wires()),
    ensures
        step(old(circuit).wires(), final(circuit).wires()),
        r.0.ok(final(circuit).wires()),
        r.1.ok(final(circuit).wires()),
        r.0.val(final(circuit).wires()) == quartic0(
            a.val(old(circuit).wires()),
            b.val(old(circuit).wires()),
        ),
        r.1.val(final(circuit).wires()) == quartic1(
            a.val(old(circuit).wires()),
            b.val(old(circuit).wires()),
        ),
{
    proof {
        lemma_start(circuit.wires());
    }
    let qa = Fq2::square_montgomery(circuit, a);
    let qb = Fq2::square_montgomery(circuit, b);
    let xb = Fq2::mul_by_nonresidue(circuit, &qb);
    let t0 = Fq2::add(circuit, &qa, &xb);
    let ab = Fq2::mul_montgomery(circuit, a, b);
    let t1 = Fq2::double(circuit, &ab);
    (t0, t1)
}

/// `3 t - 2 z`.
fn three_minus_two_gadget<C: CircuitContext>(circuit: &mut C, t: &Fq2, z: &Fq2) -> (r: Fq2)
    requires
        t.ok(old(circuit).wires()),
        z.ok(old(circuit).wires()),
    ensures
        step(old(circuit).wires(), final(circuit).wires()),
        r.ok(final(circuit).wires()),
        r.val(final(circuit).wires()) == three_minus_two(
            t.val(old(circuit).wires()),
            z.val(old(circuit).wires()),
        ),
{
    proof {
        lemma_start(circuit.wires());
    }
    let d = Fq2::sub(circuit, t, z);
    let dd = Fq2::double(circuit, &d);
    Fq2::add(circuit, &dd, t)
}

/// `3 t + 2 z`.
fn three_plus_two_gadget<C: CircuitContext>(circuit: &mut C, t: &Fq2, z: &Fq2) -> (r: Fq2)
    requires
        t.ok(old(circuit).wires()),
        z.ok(old(circuit).wires()),
    ensures
        step(old(circuit).wires(), final(circuit).wires()),
        r.ok(final(circuit).wires()),
        r.val(final(circuit).wires()) == three_plus_two(
            t.val(old(circuit).wires()),
            z.val(old(circuit).wires()),
        ),
{
    proof {
        lemma_start(circuit.wires());
    }
    let d = Fq2::add(circuit, t, z);
    let dd = Fq2::double(circuit, &d);
    Fq2::add(circuit, &dd, t)
}

impl Fq12 {
    /// A constant. The numbers are the Montgomery representation.
    pub fn new_constant<C: CircuitContext>(circuit: &C, v: Fq12Value) -> (r: Self)
        requires
            wf(circuit.wires()),
            v.valid(),
        ensures
            r.ok(circuit.wires()),
            r.val(circuit.wires()) == decode12(v@),
    {
        proof {
            reveal(Fq12::ok);
            reveal(Fq12::val);
        }
        let c0 = Fq6::new_constant(circuit, v.c0);
        let c1 = Fq6::new_constant(circuit, v.c1);
        Fq12 { c0, c1 }
    }

    pub fn mul_montgomery<C: CircuitContext>(circuit: &mut C, a: &Fq12, b: &Fq12) -> (r: Fq12)
        requires
            wf(old(circuit).wires()),
            a.ok(old(circuit).wires()),
            b.ok(old(circuit).wires()),
        ensures
            step(old(circuit).wires(), final(circuit).wires()),
            r.ok(final(circuit).wires()),
            r.val(final(circuit).wires()) == mul12(
                a.val(old(circuit).wires()),
                b.val(old(circuit).wires()),
            ),
    {
        proof {
            lemma_start(circuit.wires());
            reveal(Fq12::ok);
            reveal(Fq12::val);
            reveal(mul12);
        }
        let m00 = Fq6::mul_montgomery(circuit, &a.c0, &b.c0);
        let m11 = Fq6::mul_montgomery(circuit, &a.c1, &b.c1);
        let v11 = Fq6::mul_by_nonresidue(circuit, &m11);
        let c0 = Fq6::add(circuit, &m00, &v11);
        let m01 = Fq6::mul_montgomery(circuit, &a.c0, &b.c1);
        let m10 = Fq6::mul_montgomery(circuit, &a.c1, &b.c0);
        let c1 = Fq6::add(circuit, &m01, &m10);
        Fq12 { c0, c1 }
    }

    pub fn square_montgomery<C: CircuitContext>(circuit: &mut C, a: &Fq12) -> (r: Fq12)
        requires
            wf(old(circuit).wires()),
            a.ok(old(circuit).wires()),
        ensures
            step(old(circuit).wires(), final(circuit).wires()),
            r.ok(final(circuit).wires()),
            r.val(final(circuit).wires()) == sqr12(a.val(old(circuit).wires())),
    {
        Fq12::mul_montgomery(circuit, a, a)
    }

    /// `c0 - c1 w`.
    pub fn conjugate<C: CircuitContext>(circuit: &mut C, a: &Fq12) -> (r: Fq12)
        requires
            wf(old(circuit).wires()),
            a.ok(old(circuit).wires()),
        ensures
            step(old(circuit).wires(), final(circuit).wires()),
            r.ok(final(circuit).wires()),
            r.val(final(circuit).wires()) == conj12(a.val(old(circuit).wires())),
    {
        proof {
            lemma_start(circuit.wires());
            reveal(Fq12::ok);
            reveal(Fq12::val);
            reveal(conj12);
        }
        let c0 = a.c0.clone();
        let c1 = Fq6::neg(circuit, &a.c1);
        Fq12 { c0, c1 }
    }

    /// The inverse, and zero for zero.
    pub fn inverse_montgomery<C: CircuitContext>(circuit: &mut C, a: &Fq12) -> (r: Fq12)
        requires
            wf(old(circuit).wires()),
            a.ok(old(circuit).wires()),
        ensures
            step(old(circuit).wires(), final(circuit).wires()),
            r.ok(final(circuit).wires()),
            r.val(final(circuit).wires()) == inv12(a.val(old(circuit).wires())),
    {
        proof {
            lemma_start(circuit.wires());
            reveal(Fq12::ok);
            reveal(Fq12::val);
            reveal(inv12);
        }
        let q0 = Fq6::mul_montgomery(circuit, &a.c0, &a.c0);
        let q1 = Fq6::mul_montgomery(circuit, &a.c1, &a.c1);
        let v1 = Fq6::mul_by_nonresidue(circuit, &q1);
        let n = Fq6::sub(circuit, &q0, &v1);
        let t = Fq6::inverse_montgomery(circuit, &n);
        let c0 = Fq6::mul_montgomery(circuit, &a.c0, &t);
        let m1 = Fq6::mul_montgomery(circuit, &a.c1, &t);
        let c1 = Fq6::neg(circuit, &m1);
        Fq12 { c0, c1 }
    }

    /// The given power of the Frobenius map.
    pub fn frobenius_montgomery<C: CircuitContext>(circuit: &mut C, a: &Fq12, i: usize) -> (r: Fq12)
        requires
            wf(old(circuit).wires()),
            a.ok(old(circuit).wires()),
            1 <= i <= 3,
        ensures
            step(old(circuit).wires(), final(circuit).wires()),
            r.ok(final(circuit).wires()),
            r.val(final(circuit).wires()) == frob12(a.val(old(circuit).wires()), i as nat),
    {
        proof {
            lemma_start(circuit.wires());
            reveal(Fq12::ok);
            reveal(Fq12::val);
            reveal(frob12);
        }
        let c0 = Fq6::frobenius_montgomery(circuit, &a.c0, i);
        let f1 = Fq6::frobenius_montgomery(circuit, &a.c1, i);
        let k = Fq2::new_constant(circuit, fq2_as_montgomery(frob12_c1_value(i)));
        let c1 = Fq6::mul_by_fq2_montgomery(circuit, &f1, &k);
        Fq12 { c0, c1 }
    }

    /// The product with the sparse element `c0 + (c3 + c4 v) w`.
    pub fn mul_by_034_montgomery<C: CircuitContext>(
        circuit: &mut C,
        a: &Fq12,
        c0: &Fq2,
        c3: &Fq2,
        c4: &Fq2,
    ) -> (r: Fq12)
        requires
            wf(old(circuit).wires()),
            a.ok(old(circuit).wires()),
            c0.ok(old(circuit).wires()),
            c3.ok(old(circuit).wires()),
            c4.ok(old(circuit).wires()),
        ensures
            step(old(circuit).wires(), final(circuit).wires()),
            r.ok(final(circuit).wires()),
            r.val(final(circuit).wires()) == mul12(
                a.val(old(circuit).wires()),
                sparse034(
                    c0.val(old(circuit).wires()),
                    c3.val(old(circuit).wires()),
                    c4.val(old(circuit).wires()),
                ),
            ),
    {
        proof {
            lemma_start(circuit.wires());
            reveal(Fq12::ok);
            reveal(Fq12::val);
            let s = circuit.wires();
            lemma_mul12_034(a.val(s), c0.val(s), c3.val(s), c4.val(s));
        }
        let k0 = Fq6::mul_by_fq2_montgomery(circuit, &a.c0, c0);
        let b1 = Fq6::mul_by_01_montgomery(circuit, &a.c1, c3, c4);
        let v1 = Fq6::mul_by_nonresidue(circuit, &b1);
        let r0 = Fq6::add(circuit, &k0, &v1);
        let b0 = Fq6::mul_by_01_montgomery(circuit, &a.c0, c3, c4);
        let k1 = Fq6::mul_by_fq2_montgomery(circuit, &a.c1, c0);
        let r1 = Fq6::add(circuit, &b0, &k1);
        Fq12 { c0: r0, c1: r1 }
    }

    /// The product with a sparse element whose last coefficient is a constant in
    /// Montgomery form.
    pub fn mul_by_034_constant4_montgomery<C: CircuitContext>(
        circuit: &mut C,
        a: &Fq12,
        c0: &Fq2,
        c3: &Fq2,
        c4: Fq2Value,
    ) -> (r: Fq12)
        requires
            wf(old(circuit).wires()),
            a.ok(old(circuit).wires()),
            c0.ok(old(circuit).wires()),
            c3.ok(old(circuit).wires()),
            c4.valid(),
        ensures
            step(old(circuit).wires(), final(circuit).wires()),
            r.ok(final(circuit).wires()),
            r.val(final(circuit).wires()) == mul12(
                a.val(old(circuit).wires()),
                sparse034(c0.val(old(circuit).wires()), c3.val(old(circuit).wires()), decode2(c4@)),
            ),
    {
        proof {
            lemma_start(circuit.wires());
        }
        let k = Fq2::new_constant(circuit, c4);
        Fq12::mul_by_034_montgomery(circuit, a, c0, c3, &k)
    }

    /// Whether the element equals a constant in Montgomery form.
    pub fn equal_constant<C: CircuitContext>(circuit: &mut C, a: &Fq12, c: Fq12Value) -> (r: WireId)
        requires
            wf(old(circuit).wires()),
            a.ok(old(circuit).wires()),
            c.valid(),
        ensures
            step(old(circuit).wires(), final(circuit).wires()),
            has_wire(final(circuit).wires(), r),
            wire_value(final(circuit).wires(), r) == (a.val(old(circuit).wires()) == decode12(c@)),
    {
        proof {
            lemma_start(circuit.wires());
            reveal(Fq12::ok);
            reveal(Fq12::val);
        }
        let e0 = Fq6::equal_constant(circuit, &a.c0, c.c0);
        let e1 = Fq6::equal_constant(circuit, &a.c1, c.c1);
        gate(circuit, GateKind::And, e0, e1)
    }

    /// The square of an element of the cyclotomic subgroup, after Granger and
    /// Scott.
    pub fn cyclotomic_square_montgomery<C: CircuitContext>(circuit: &mut C, a: &Fq12) -> (r: Fq12)
        requires
            wf(old(circuit).wires()),
            a.ok(old(circuit).wires()),
        ensures
            step(old(circuit).wires(), final(circuit).wires()),
            r.ok(final(circuit).wires()),
            r.val(final(circuit).wires()) == cyclotomic_sqr12(a.val(old(circuit).wires())),
    {
        proof {
            lemma_start(circuit.wires());
            reveal(Fq12::ok);
            reveal(Fq12::val);
            reveal(Fq6::ok);
            reveal(Fq6::val);
            reveal(cyclotomic_sqr12);
        }
        let (t0, t1) = quartic_square(circuit, &a.c0.c0, &a.c1.c1);
        let (t2, t3) = quartic_square(circuit, &a.c1.c0, &a.c0.c2);
        let (t4, t5) = quartic_square(circuit, &a.c0.c1, &a.c1.c2);
        let x5 = Fq2::mul_by_nonresidue(circuit, &t5);
        let z0 = three_minus_two_gadget(circuit, &t0, &a.c0.c0);
        let z4 = three_minus_two_gadget(circuit, &t2, &a.c0.c1);
        let z3 = three_minus_two_gadget(circuit, &t4, &a.c0.c2);
        let z2 = three_plus_two_gadget(circuit, &x5, &a.c1.c0);
        let z1 = three_plus_two_gadget(circuit, &t1, &a.c1.c1);
        let z5 = three_plus_two_gadget(circuit, &t3, &a.c1.c2);
        Fq12 { c0: Fq6 { c0: z0, c1: z4, c2: z3 }, c1: Fq6 { c0: z2, c1: z1, c2: z5 } }
    }
}

} // verus!
