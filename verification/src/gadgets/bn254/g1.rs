//! Points of the curve on wires.

use crate::bits::{bits_value, lemma_bits_value_skip, N_BITS};
use crate::circuit::{
    grows, has_wire, in_range, lemma_start, step, values, wf, wire_value, CircuitContext, GateKind,
    WireId,
};
use crate::gadgets::bn254::fq::{gate, Fq};
use crate::gadgets::bn254::wires::{group_wires, Fr, G1Projective};
use crate::math::curve::{
    add1, chord1, double1, jac1, lemma_double1_zero, msm1, same_point1, times1, Jac1,
};
use crate::math::field::lemma_decode_zero;
use crate::native::points::{decode_jac1, g1_as_montgomery, g1_zero, G1ProjectiveValue};
use vstd::prelude::*;

verus! {

broadcast use group_wires;

impl G1Projective {
    /// A constant. The coordinates are in Montgomery form.
    pub fn new_constant<C: CircuitContext>(circuit: &C, v: G1ProjectiveValue) -> (r: Self)
        requires
            wf(circuit.wires()),
            v.valid(),
        ensures
            r.ok(circuit.wires()),
            r.val(circuit.wires()) == decode_jac1(v@),
    {
        proof {
            reveal(G1Projective::ok);
            reveal(G1Projective::val);
        }
        let x = Fq::new_constant(circuit, v.x);
        let y = Fq::new_constant(circuit, v.y);
        let z = Fq::new_constant(circuit, v.z);
        G1Projective { x, y, z }
    }

    /// Doubling in Jacobian coordinates.
    pub fn double_montgomery<C: CircuitContext>(
        circuit: &mut C,
        p: &G1Projective,
    ) -> (r: G1Projective)
        requires
            p.ok(old(circuit).wires()),
        ensures
            step(old(circuit).wires(), final(circuit).wires()),
            r.ok(final(circuit).wires()),
            r.val(final(circuit).wires()) == double1(p.val(old(circuit).wires())),
    {
        proof {
            lemma_start(circuit.wires());
            reveal(G1Projective::ok);
            reveal(G1Projective::val);
            reveal(double1);
        }
        let a = Fq::square_montgomery(circuit, &p.x);
        let b = Fq::square_montgomery(circuit, &p.y);
        let c = Fq::square_montgomery(circuit, &b);
        let xb = Fq::add(circuit, &p.x, &b);
        let xb2 = Fq::square_montgomery(circuit, &xb);
        let ac = Fq::add(circuit, &a, &c);
        let d0 = Fq::sub(circuit, &xb2, &ac);
        let d = Fq::double(circuit, &d0);
        let a2 = Fq::double(circuit, &a);
        let e = Fq::add(circuit, &a2, &a);
        let f = Fq::square_montgomery(circuit, &e);
        let d2 = Fq::double(circuit, &d);
        let x = Fq::sub(circuit, &f, &d2);
        let c2 = Fq::double(circuit, &c);
        let c4 = Fq::double(circuit, &c2);
        let c8 = Fq::double(circuit, &c4);
        let dx = Fq::sub(circuit, &d, &x);
        let edx = Fq::mul_montgomery(circuit, &e, &dx);
        let y = Fq::sub(circuit, &edx, &c8);
        let yz = Fq::mul_montgomery(circuit, &p.y, &p.z);
        let z = Fq::double(circuit, &yz);
        G1Projective { x, y, z }
    }

    /// Addition in Jacobian coordinates of points that are neither equal nor at
    /// infinity, and whether the points are equal.
    fn chord_montgomery<C: CircuitContext>(
        circuit: &mut C,
        p: &G1Projective,
        q: &G1Projective,
    ) -> (r: (G1Projective, WireId))
        requires
            wf(old(circuit).wires()),
            p.ok(old(circuit).wires()),
            q.ok(old(circuit).wires()),
        ensures
            step(old(circuit).wires(), final(circuit).wires()),
            r.0.ok(final(circuit).wires()),
            r.0.val(final(circuit).wires()) == chord1(
                p.val(old(circuit).wires()),
                q.val(old(circuit).wires()),
            ),
            has_wire(final(circuit).wires(), r.1),
            wire_value(final(circuit).wires(), r.1) == same_point1(
                p.val(old(circuit).wires()),
                q.val(old(circuit).wires()),
            ),
    {
        proof {
            lemma_start(circuit.wires());
            reveal(G1Projective::ok);
            reveal(G1Projective::val);
            reveal(chord1);
            reveal(same_point1);
        }
        let pz2 = Fq::square_montgomery(circuit, &p.z);
        let qz2 = Fq::square_montgomery(circuit, &q.z);
        let u1 = Fq::mul_montgomery(circuit, &p.x, &qz2);
        let u2 = Fq::mul_montgomery(circuit, &q.x, &pz2);
        let qz3 = Fq::mul_montgomery(circuit, &qz2, &q.z);
        let pz3 = Fq::mul_montgomery(circuit, &pz2, &p.z);
        let s1 = Fq::mul_montgomery(circuit, &p.y, &qz3);
        let s2 = Fq::mul_montgomery(circuit, &q.y, &pz3);
        let same_u = Fq::equal(circuit, &u1, &u2);
        let same_s = Fq::equal(circuit, &s1, &s2);
        let same = gate(circuit, GateKind::And, same_u, same_s);
        let r = Fq::sub(circuit, &s1, &s2);
        let h = Fq::sub(circuit, &u1, &u2);
        let h2 = Fq::square_montgomery(circuit, &h);
        let g = Fq::mul_montgomery(circuit, &h, &h2);
        let v = Fq::mul_montgomery(circuit, &u1, &h2);
        let r2 = Fq::square_montgomery(circuit, &r);
        let r2g = Fq::add(circuit, &r2, &g);
        let v2 = Fq::double(circuit, &v);
        let x = Fq::sub(circuit, &r2g, &v2);
        let vx = Fq::sub(circuit, &v, &x);
        let rvx = Fq::mul_montgomery(circuit, &r, &vx);
        let s1g = Fq::mul_montgomery(circuit, &s1, &g);
        let y = Fq::sub(circuit, &rvx, &s1g);
        let zz = Fq::mul_montgomery(circuit, &p.z, &q.z);
        let z = Fq::mul_montgomery(circuit, &zz, &h);
        (G1Projective { x, y, z }, same)
    }

    /// The first operand where the selector is set, else the second.
    pub fn select<C: CircuitContext>(
        circuit: &mut C,
        p: &G1Projective,
        q: &G1Projective,
        sel: WireId,
    ) -> (r: G1Projective)
        requires
            p.ok(old(circuit).wires()),
            q.ok(old(circuit).wires()),
            has_wire(old(circuit).wires(), sel),
        ensures
            step(old(circuit).wires(), final(circuit).wires()),
            r.ok(final(circuit).wires()),
            r.val(final(circuit).wires()) == (if wire_value(old(circuit).wires(), sel) {
                p.val(old(circuit).wires())
            } else {
                q.val(old(circuit).wires())
            }),
    {
        proof {
            lemma_start(circuit.wires());
            reveal(G1Projective::ok);
            reveal(G1Projective::val);
        }
        let x = Fq::select(circuit, &p.x, &q.x, sel);
        let y = Fq::select(circuit, &p.y, &q.y, sel);
        let z = Fq::select(circuit, &p.z, &q.z, sel);
        G1Projective { x, y, z }
    }

    /// Addition in Jacobian coordinates: of different points, of equal ones, and
    /// where a point is at infinity.
    pub fn add_montgomery<C: CircuitContext>(
        circuit: &mut C,
        p: &G1Projective,
        q: &G1Projective,
    ) -> (r: G1Projective)
        requires
            wf(old(circuit).wires()),
            p.ok(old(circuit).wires()),
            q.ok(old(circuit).wires()),
        ensures
            step(old(circuit).wires(), final(circuit).wires()),
            r.ok(final(circuit).wires()),
            r.val(final(circuit).wires()) == add1(
                p.val(old(circuit).wires()),
                q.val(old(circuit).wires()),
            ),
    {
        proof {
            lemma_start(circuit.wires());
            reveal(G1Projective::ok);
            reveal(G1Projective::val);
        }
        let p_zero = Fq::equal_zero(circuit, &p.z);
        let q_zero = Fq::equal_zero(circuit, &q.z);
        let (chord, same) = G1Projective::chord_montgomery(circuit, p, q);
        let doubled = G1Projective::double_montgomery(circuit, p);
        let sum = G1Projective::select(circuit, &doubled, &chord, same);
        let p_or_sum = G1Projective::select(circuit, p, &sum, q_zero);
        G1Projective::select(circuit, q, &p_or_sum, p_zero)
    }

    /// The multiple of a point by a scalar on wires, by doubling and adding.
    pub fn times_montgomery<C: CircuitContext>(
        circuit: &mut C,
        p: &G1Projective,
        scalar: &Fr,
    ) -> (r: G1Projective)
        requires
            wf(old(circuit).wires()),
            p.ok(old(circuit).wires()),
            scalar.ok(old(circuit).wires()),
        ensures
            step(old(circuit).wires(), final(circuit).wires()),
            r.ok(final(circuit).wires()),
            r.val(final(circuit).wires()) == times1(
                p.val(old(circuit).wires()),
                scalar.val(old(circuit).wires()),
            ),
    {
        let ghost s0 = circuit.wires();
        let ghost pv = p.val(s0);
        let ghost b = values(s0, scalar.0@);
        proof {
            lemma_start(s0);
            lemma_double1_zero();
            lemma_decode_zero();
            reveal(Fr::ok);
            reveal(Fr::val);
        }
        let mut r = G1Projective::new_constant(circuit, g1_zero());
        let mut k: usize = N_BITS;
        assert(b.skip(k as int) =~= Seq::<bool>::empty());
        while k > 0
            invariant
                k <= N_BITS == scalar.0.len() == b.len(),
                in_range(s0, scalar.0@),
                b == values(s0, scalar.0@),
                wf(s0),
                p.ok(s0),
                pv == p.val(s0),
                double1(jac1(0, 0, 0)) == jac1(0, 0, 0),
                step(s0, circuit.wires()),
                grows(s0, circuit.wires()),
                r.ok(circuit.wires()),
                r.val(circuit.wires()) == times1(pv, bits_value(b.skip(k as int))),
            decreases k,
        {
            k = k - 1;
            proof {
                lemma_bits_value_skip(b, k as int);
            }
            let bit = scalar.0[k];
            assert(has_wire(s0, bit) && wire_value(s0, bit) == b[k as int]) by {
                reveal(has_wire);
                reveal(wire_value);
                assert(scalar.0@[k as int].0 < s0.len());
            }
            let d = G1Projective::double_montgomery(circuit, &r);
            let sum = G1Projective::add_montgomery(circuit, &d, p);
            r = G1Projective::select(circuit, &sum, &d, bit);
        }
        assert(b.skip(0) =~= b);
        r
    }

    /// The sum of constant points, each times its scalar on wires, as many as
    /// there are of both.
    pub fn msm_with_constant_bases_montgomery<C: CircuitContext>(
        circuit: &mut C,
        scalars: &Vec<Fr>,
        bases: &Vec<G1ProjectiveValue>,
    ) -> (r: G1Projective)
        requires
            wf(old(circuit).wires()),
            forall|i: int| 0 <= i < scalars.len() ==> (#[trigger] scalars@[i]).ok(old(circuit).wires()),
            forall|i: int| 0 <= i < bases.len() ==> (#[trigger] bases@[i]).valid(),
        ensures
            step(old(circuit).wires(), final(circuit).wires()),
            r.ok(final(circuit).wires()),
            r.val(final(circuit).wires()) == msm1(
                scalar_values(old(circuit).wires(), scalars@),
                point_values(bases@),
                if scalars@.len() <= bases@.len() {
                    scalars@.len()
                } else {
                    bases@.len()
                },
            ),
    {
        let ghost s0 = circuit.wires();
        let ghost sv = scalar_values(s0, scalars@);
        let ghost pv = point_values(bases@);
        proof {
            lemma_start(s0);
            lemma_decode_zero();
        }
        let mut r = G1Projective::new_constant(circuit, g1_zero());
        let mut i: usize = 0;
        while i < scalars.len() && i < bases.len()
            invariant
                i <= scalars.len(),
                i <= bases.len(),
                wf(s0),
                forall|j: int| 0 <= j < scalars.len() ==> (#[trigger] scalars@[j]).ok(s0),
                forall|j: int| 0 <= j < bases.len() ==> (#[trigger] bases@[j]).valid(),
                sv == scalar_values(s0, scalars@),
                pv == point_values(bases@),
                step(s0, circuit.wires()),
                grows(s0, circuit.wires()),
                r.ok(circuit.wires()),
                r.val(circuit.wires()) == msm1(sv, pv, i as nat),
            decreases scalars.len() - i,
        {
            assert(scalars@[i as int].ok(s0) && bases@[i as int].valid());
            let base = G1Projective::new_constant(circuit, g1_as_montgomery(bases[i]));
            let t = G1Projective::times_montgomery(circuit, &base, &scalars[i]);
            r = G1Projective::add_montgomery(circuit, &r, &t);
            i = i + 1;
        }
        r
    }
}

/// The numbers that scalars on wires carry.
pub open spec fn scalar_values(s: Seq<bool>, scalars: Seq<Fr>) -> Seq<nat> {
    Seq::new(scalars.len(), |i: int| scalars[i].val(s))
}

/// The points by their coordinates.
pub open spec fn point_values(points: Seq<G1ProjectiveValue>) -> Seq<Jac1> {
    Seq::new(points.len(), |i: int| points[i]@)
}

} // verus!
