//! Points of the twist on wires.

use crate::circuit::{has_wire, lemma_start, step, wf, wire_value, CircuitContext, GateKind, WireId};
use crate::gadgets::bn254::fq::gate;
use crate::gadgets::bn254::wires::{group_wires, Fq2, G2Projective};
use crate::math::curve::{add_jac2, chord2, double_jac2, same_point2};
use crate::native::points::{decode_jac2, G2ProjectiveValue};
use vstd::prelude::*;

verus! {

broadcast use group_wires;

impl G2Projective {
    /// A constant. The coordinates are in Montgomery form.
    pub fn new_constant<C: CircuitContext>(circuit: &C, v: G2ProjectiveValue) -> (r: Self)
        requires
            wf(circuit.wires()),
            v.valid(),
        ensures
            r.ok(circuit.wires()),
            r.val(circuit.wires()) == decode_jac2(v@),
    {
        proof {
            reveal(G2Projective::ok);
            reveal(G2Projective::val);
        }
        let x = Fq2::new_constant(circuit, v.x);
        let y = Fq2::new_constant(circuit, v.y);
        let z = Fq2::new_constant(circuit, v.z);
        G2Projective { x, y, z }
    }

    /// Doubling in Jacobian coordinates.
    pub fn double_montgomery<C: CircuitContext>(
        circuit: &mut C,
        p: &G2Projective,
    ) -> (r: G2Projective)
        requires
            p.ok(old(circuit).wires()),
        ensures
            step(old(circuit).wires(), final(circuit).wires()),
            r.ok(final(circuit).wires()),
            r.val(final(circuit).wires()) == double_jac2(p.val(old(circuit).wires())),
    {
        proof {
            lemma_start(circuit.wires());
            reveal(G2Projective::ok);
            reveal(G2Projective::val);
            reveal(double_jac2);
        }
        let a = Fq2::square_montgomery(circuit, &p.x);
        let b = Fq2::square_montgomery(circuit, &p.y);
        let c = Fq2::square_montgomery(circuit, &b);
        let xb = Fq2::add(circuit, &p.x, &b);
        let xb2 = Fq2::square_montgomery(circuit, &xb);
        let ac = Fq2::add(circuit, &a, &c);
        let d0 = Fq2::sub(circuit, &xb2, &ac);
        let d = Fq2::double(circuit, &d0);
        let a2 = Fq2::double(circuit, &a);
        let e = Fq2::add(circuit, &a2, &a);
        let f = Fq2::square_montgomery(circuit, &e);
        let d2 = Fq2::double(circuit, &d);
        let x = Fq2::sub(circuit, &f, &d2);
        let c2 = Fq2::double(circuit, &c);
        let c4 = Fq2::double(circuit, &c2);
        let c8 = Fq2::double(circuit, &c4);
        let dx = Fq2::sub(circuit, &d, &x);
        let edx = Fq2::mul_montgomery(circuit, &e, &dx);
        let y = Fq2::sub(circuit, &edx, &c8);
        let yz = Fq2::mul_montgomery(circuit, &p.y, &p.z);
        let z = Fq2::double(circuit, &yz);
        G2Projective { x, y, z }
    }

    /// Addition in Jacobian coordinates of points that are neither equal nor at
    /// infinity, and whether the points are equal.
    fn chord_montgomery<C: CircuitContext>(
        circuit: &mut C,
        p: &G2Projective,
        q: &G2Projective,
    ) -> (r: (G2Projective, WireId))
        requires
            wf(old(circuit).wires()),
            p.ok(old(circuit).wires()),
            q.ok(old(circuit).wires()),
        ensures
            step(old(circuit).wires(), final(circuit).wires()),
            r.0.ok(final(circuit).wires()),
            r.0.val(final(circuit).wires()) == chord2(
                p.val(old(circuit).wires()),
                q.val(old(circuit).wires()),
            ),
            has_wire(final(circuit).wires(), r.1),
            wire_value(final(circuit).wires(), r.1) == same_point2(
                p.val(old(circuit).wires()),
                q.val(old(circuit).wires()),
            ),
    {
        proof {
            lemma_start(circuit.wires());
            reveal(G2Projective::ok);
            reveal(G2Projective::val);
            reveal(chord2);
            reveal(same_point2);
        }
        let pz2 = Fq2::square_montgomery(circuit, &p.z);
        let qz2 = Fq2::square_montgomery(circuit, &q.z);
        let u1 = Fq2::mul_montgomery(circuit, &p.x, &qz2);
        let u2 = Fq2::mul_montgomery(circuit, &q.x, &pz2);
        let qz3 = Fq2::mul_montgomery(circuit, &qz2, &q.z);
        let pz3 = Fq2::mul_montgomery(circuit, &pz2, &p.z);
        let s1 = Fq2::mul_montgomery(circuit, &p.y, &qz3);
        let s2 = Fq2::mul_montgomery(circuit, &q.y, &pz3);
        let same_u = Fq2::equal(circuit, &u1, &u2);
        let same_s = Fq2::equal(circuit, &s1, &s2);
        let same = gate(circuit, GateKind::And, same_u, same_s);
        let r = Fq2::sub(circuit, &s1, &s2);
        let h = Fq2::sub(circuit, &u1, &u2);
        let h2 = Fq2::square_montgomery(circuit, &h);
        let g = Fq2::mul_montgomery(circuit, &h, &h2);
        let v = Fq2::mul_montgomery(circuit, &u1, &h2);
        let r2 = Fq2::square_montgomery(circuit, &r);
        let r2g = Fq2::add(circuit, &r2, &g);
        let v2 = Fq2::double(circuit, &v);
        let x = Fq2::sub(circuit, &r2g, &v2);
        let vx = Fq2::sub(circuit, &v, &x);
        let rvx = Fq2::mul_montgomery(circuit, &r, &vx);
        let s1g = Fq2::mul_montgomery(circuit, &s1, &g);
        let y = Fq2::sub(circuit, &rvx, &s1g);
        let zz = Fq2::mul_montgomery(circuit, &p.z, &q.z);
        let z = Fq2::mul_montgomery(circuit, &zz, &h);
        (G2Projective { x, y, z }, same)
    }

    /// The first operand where the selector is set, else the second.
    pub fn select<C: CircuitContext>(
        circuit: &mut C,
        p: &G2Projective,
        q: &G2Projective,
        sel: WireId,
    ) -> (r: G2Projective)
        requires
            p.ok(old(circuit).wires()),
            q.ok(old(circuit).wires()),
            has_wire(old(circuit).wires(), sel),
        ensures
            step(old(circuit).wires(), final(circuit).wires()),
            r.ok(final(circuit).wires()),
            r.val(final(circuit).wires()) == (if wire_value(old(circuit).wires(), sel) {
                p.val(old(circuit).wires())
            } else {
                q.val(old(circuit).wires())
            }),
    {
        proof {
            lemma_start(circuit.wires());
            reveal(G2Projective::ok);
            reveal(G2Projective::val);
        }
        let x = Fq2::select(circuit, &p.x, &q.x, sel);
        let y = Fq2::select(circuit, &p.y, &q.y, sel);
        let z = Fq2::select(circuit, &p.z, &q.z, sel);
        G2Projective { x, y, z }
    }

    /// Addition in Jacobian coordinates: of different points, of equal ones, and
    /// where a point is at infinity.
    pub fn add_montgomery<C: CircuitContext>(
        circuit: &mut C,
        p: &G2Projective,
        q: &G2Projective,
    ) -> (r: G2Projective)
        requires
            wf(old(circuit).wires()),
            p.ok(old(circuit).wires()),
            q.ok(old(circuit).wires()),
        ensures
            step(old(circuit).wires(), final(circuit).wires()),
            r.ok(final(circuit).wires()),
            r.val(final(circuit).wires()) == add_jac2(
                p.val(old(circuit).wires()),
                q.val(old(circuit).wires()),
            ),
    {
        proof {
            lemma_start(circuit.wires());
            reveal(G2Projective::ok);
            reveal(G2Projective::val);
        }
        let p_zero = Fq2::equal_zero(circuit, &p.z);
        let q_zero = Fq2::equal_zero(circuit, &q.z);
        let (chord, same) = G2Projective::chord_montgomery(circuit, p, q);
        let doubled = G2Projective::double_montgomery(circuit, p);
        let sum = G2Projective::select(circuit, &doubled, &chord, same);
        let p_or_sum = G2Projective::select(circuit, p, &sum, q_zero);
        G2Projective::select(circuit, q, &p_or_sum, p_zero)
    }
}

} // verus!
