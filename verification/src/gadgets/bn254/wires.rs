//! Extension field elements and points by their wires, and what later
//! construction leaves as it is.

use crate::bits::{bits_value, N_BITS};
use crate::circuit::{group_circuit, in_range, step, values, WireId};
use crate::gadgets::bn254::fq::Fq;
use crate::math::curve::{jac1, jac2, reduced_jac1, reduced_jac2, Jac1, Jac2};
use crate::math::tower::{
    ext12, ext2, ext6, reduced12, reduced2, reduced6, Ext12, Ext2, Ext6,
};
use vstd::prelude::*;

verus! {

/// An element `c0 + c1 u` by its wires, in Montgomery form.
#[derive(Debug)]
pub struct Fq2 {
    pub c0: Fq,
    pub c1: Fq,
}

impl Fq2 {
    /// The wires carry field elements.
    #[verifier::opaque]
    pub open spec fn ok(&self, s: Seq<bool>) -> bool {
        self.c0.ok(s) && self.c1.ok(s)
    }

    /// What the wires carry.
    #[verifier::opaque]
    pub open spec fn val(&self, s: Seq<bool>) -> Ext2 {
        ext2(self.c0.val(s), self.c1.val(s))
    }

    /// The wires, in order.
    pub open spec fn wire_ids(&self) -> Seq<WireId> {
        self.c0.wire_ids() + self.c1.wire_ids()
    }

    pub fn from_components(c0: Fq, c1: Fq) -> (r: Self)
        ensures
            r == (Fq2 { c0, c1 }),
            forall|s: Seq<bool>| #[trigger] r.ok(s) == (c0.ok(s) && c1.ok(s)),
            forall|s: Seq<bool>| #[trigger] r.val(s) == ext2(c0.val(s), c1.val(s)),
    {
        proof {
            reveal(Fq2::ok);
            reveal(Fq2::val);
        }
        Fq2 { c0, c1 }
    }
}

impl Clone for Fq2 {
    fn clone(&self) -> (r: Self)
        ensures
            forall|s: Seq<bool>| #[trigger] r.ok(s) == self.ok(s),
            forall|s: Seq<bool>| #[trigger] r.val(s) == self.val(s),
            r.wire_ids() == self.wire_ids(),
    {
        proof {
            reveal(Fq2::ok);
            reveal(Fq2::val);
        }
        Fq2 { c0: self.c0.clone(), c1: self.c1.clone() }
    }
}

pub broadcast proof fn lemma_step_fq2_ok(a: Seq<bool>, b: Seq<bool>, f: Fq2)
    requires
        #[trigger] step(a, b),
        f.ok(a),
    ensures
        #[trigger] f.ok(b),
{
    broadcast use group_circuit;

    reveal(Fq2::ok);
}

pub broadcast proof fn lemma_step_fq2_val(a: Seq<bool>, b: Seq<bool>, f: Fq2)
    requires
        #[trigger] step(a, b),
        f.ok(a),
    ensures
        #[trigger] f.val(b) == f.val(a),
{
    broadcast use group_circuit;

    reveal(Fq2::ok);
    reveal(Fq2::val);
}

pub broadcast proof fn lemma_fq2_reduced(s: Seq<bool>, f: Fq2)
    ensures
        reduced2(#[trigger] f.val(s)),
{
    broadcast use group_circuit;

    reveal(Fq2::val);
}

/// An element `c0 + c1 v + c2 v^2` by its wires, in Montgomery form.
#[derive(Debug)]
pub struct Fq6 {
    pub c0: Fq2,
    pub c1: Fq2,
    pub c2: Fq2,
}

impl Fq6 {
    /// The wires carry field elements.
    #[verifier::opaque]
    pub open spec fn ok(&self, s: Seq<bool>) -> bool {
        self.c0.ok(s) && self.c1.ok(s) && self.c2.ok(s)
    }

    /// What the wires carry.
    #[verifier::opaque]
    pub open spec fn val(&self, s: Seq<bool>) -> Ext6 {
        ext6(self.c0.val(s), self.c1.val(s), self.c2.val(s))
    }

    /// The wires, in order.
    pub open spec fn wire_ids(&self) -> Seq<WireId> {
        self.c0.wire_ids() + self.c1.wire_ids() + self.c2.wire_ids()
    }

    pub fn from_components(c0: Fq2, c1: Fq2, c2: Fq2) -> (r: Self)
        ensures
            r == (Fq6 { c0, c1, c2 }),
            forall|s: Seq<bool>| #[trigger] r.ok(s) == (c0.ok(s) && c1.ok(s) && c2.ok(s)),
            forall|s: Seq<bool>| #[trigger] r.val(s) == ext6(c0.val(s), c1.val(s), c2.val(s)),
    {
        proof {
            reveal(Fq6::ok);
            reveal(Fq6::val);
        }
        Fq6 { c0, c1, c2 }
    }
}

impl Clone for Fq6 {
    fn clone(&self) -> (r: Self)
        ensures
            forall|s: Seq<bool>| #[trigger] r.ok(s) == self.ok(s),
            forall|s: Seq<bool>| #[trigger] r.val(s) == self.val(s),
            r.wire_ids() == self.wire_ids(),
    {
        proof {
            reveal(Fq6::ok);
            reveal(Fq6::val);
        }
        Fq6 { c0: self.c0.clone(), c1: self.c1.clone(), c2: self.c2.clone() }
    }
}

pub broadcast proof fn lemma_step_fq6_ok(a: Seq<bool>, b: Seq<bool>, f: Fq6)
    requires
        #[trigger] step(a, b),
        f.ok(a),
    ensures
        #[trigger] f.ok(b),
{
    broadcast use {lemma_step_fq2_ok, lemma_step_fq2_val, lemma_fq2_reduced};

    reveal(Fq6::ok);
}

pub broadcast proof fn lemma_step_fq6_val(a: Seq<bool>, b: Seq<bool>, f: Fq6)
    requires
        #[trigger] step(a, b),
        f.ok(a),
    ensures
        #[trigger] f.val(b) == f.val(a),
{
    broadcast use {lemma_step_fq2_ok, lemma_step_fq2_val, lemma_fq2_reduced};

    reveal(Fq6::ok);
    reveal(Fq6::val);
}

pub broadcast proof fn lemma_fq6_reduced(s: Seq<bool>, f: Fq6)
    ensures
        reduced6(#[trigger] f.val(s)),
{
    broadcast use {lemma_step_fq2_ok, lemma_step_fq2_val, lemma_fq2_reduced};

    reveal(Fq6::val);
}

/// An element `c0 + c1 w` by its wires, in Montgomery form.
#[derive(Debug)]
pub struct Fq12 {
    pub c0: Fq6,
    pub c1: Fq6,
}

impl Fq12 {
    /// The wires carry field elements.
    #[verifier::opaque]
    pub open spec fn ok(&self, s: Seq<bool>) -> bool {
        self.c0.ok(s) && self.c1.ok(s)
    }

    /// What the wires carry.
    #[verifier::opaque]
    pub open spec fn val(&self, s: Seq<bool>) -> Ext12 {
        ext12(self.c0.val(s), self.c1.val(s))
    }

    /// The wires, in order.
    pub open spec fn wire_ids(&self) -> Seq<WireId> {
        self.c0.wire_ids() + self.c1.wire_ids()
    }

    pub fn from_components(c0: Fq6, c1: Fq6) -> (r: Self)
        ensures
            r == (Fq12 { c0, c1 }),
            forall|s: Seq<bool>| #[trigger] r.ok(s) == (c0.ok(s) && c1.ok(s)),
            forall|s: Seq<bool>| #[trigger] r.val(s) == ext12(c0.val(s), c1.val(s)),
    {
        proof {
            reveal(Fq12::ok);
            reveal(Fq12::val);
        }
        Fq12 { c0, c1 }
    }
}

impl Clone for Fq12 {
    fn clone(&self) -> (r: Self)
        ensures
            forall|s: Seq<bool>| #[trigger] r.ok(s) == self.ok(s),
            forall|s: Seq<bool>| #[trigger] r.val(s) == self.val(s),
            r.wire_ids() == self.wire_ids(),
    {
        proof {
            reveal(Fq12::ok);
            reveal(Fq12::val);
        }
        Fq12 { c0: self.c0.clone(), c1: self.c1.clone() }
    }
}

pub broadcast proof fn lemma_step_fq12_ok(a: Seq<bool>, b: Seq<bool>, f: Fq12)
    requires
        #[trigger] step(a, b),
        f.ok(a),
    ensures
        #[trigger] f.ok(b),
{
    broadcast use {lemma_step_fq6_ok, lemma_step_fq6_val, lemma_fq6_reduced};

    reveal(Fq12::ok);
}

pub broadcast proof fn lemma_step_fq12_val(a: Seq<bool>, b: Seq<bool>, f: Fq12)
    requires
        #[trigger] step(a, b),
        f.ok(a),
    ensures
        #[trigger] f.val(b) == f.val(a),
{
    broadcast use {lemma_step_fq6_ok, lemma_step_fq6_val, lemma_fq6_reduced};

    reveal(Fq12::ok);
    reveal(Fq12::val);
}

pub broadcast proof fn lemma_fq12_reduced(s: Seq<bool>, f: Fq12)
    ensures
        reduced12(#[trigger] f.val(s)),
{
    broadcast use {lemma_step_fq6_ok, lemma_step_fq6_val, lemma_fq6_reduced};

    reveal(Fq12::val);
}

/// A point of the curve by the wires of its coordinates, in Montgomery form.
#[derive(Debug)]
pub struct G1Projective {
    pub x: Fq,
    pub y: Fq,
    pub z: Fq,
}

impl G1Projective {
    /// The wires carry field elements.
    #[verifier::opaque]
    pub open spec fn ok(&self, s: Seq<bool>) -> bool {
        self.x.ok(s) && self.y.ok(s) && self.z.ok(s)
    }

    /// What the wires carry.
    #[verifier::opaque]
    pub open spec fn val(&self, s: Seq<bool>) -> Jac1 {
        jac1(self.x.val(s), self.y.val(s), self.z.val(s))
    }

    /// The wires, in order.
    pub open spec fn wire_ids(&self) -> Seq<WireId> {
        self.x.wire_ids() + self.y.wire_ids() + self.z.wire_ids()
    }

    pub fn from_components(x: Fq, y: Fq, z: Fq) -> (r: Self)
        ensures
            r == (G1Projective { x, y, z }),
            forall|s: Seq<bool>| #[trigger] r.ok(s) == (x.ok(s) && y.ok(s) && z.ok(s)),
            forall|s: Seq<bool>| #[trigger] r.val(s) == jac1(x.val(s), y.val(s), z.val(s)),
    {
        proof {
            reveal(G1Projective::ok);
            reveal(G1Projective::val);
        }
        G1Projective { x, y, z }
    }
}

impl Clone for G1Projective {
    fn clone(&self) -> (r: Self)
        ensures
            forall|s: Seq<bool>| #[trigger] r.ok(s) == self.ok(s),
            forall|s: Seq<bool>| #[trigger] r.val(s) == self.val(s),
            r.wire_ids() == self.wire_ids(),
    {
        proof {
            reveal(G1Projective::ok);
            reveal(G1Projective::val);
        }
        G1Projective { x: self.x.clone(), y: self.y.clone(), z: self.z.clone() }
    }
}

pub broadcast proof fn lemma_step_g1projective_ok(a: Seq<bool>, b: Seq<bool>, f: G1Projective)
    requires
        #[trigger] step(a, b),
        f.ok(a),
    ensures
        #[trigger] f.ok(b),
{
    broadcast use group_circuit;

    reveal(G1Projective::ok);
}

pub broadcast proof fn lemma_step_g1projective_val(a: Seq<bool>, b: Seq<bool>, f: G1Projective)
    requires
        #[trigger] step(a, b),
        f.ok(a),
    ensures
        #[trigger] f.val(b) == f.val(a),
{
    broadcast use group_circuit;

    reveal(G1Projective::ok);
    reveal(G1Projective::val);
}

pub broadcast proof fn lemma_g1projective_reduced(s: Seq<bool>, f: G1Projective)
    ensures
        reduced_jac1(#[trigger] f.val(s)),
{
    broadcast use group_circuit;

    reveal(G1Projective::val);
}

/// A point of the twist by the wires of its coordinates, in Montgomery form.
#[derive(Debug)]
pub struct G2Projective {
    pub x: Fq2,
    pub y: Fq2,
    pub z: Fq2,
}

impl G2Projective {
    /// The wires carry field elements.
    #[verifier::opaque]
    pub open spec fn ok(&self, s: Seq<bool>) -> bool {
        self.x.ok(s) && self.y.ok(s) && self.z.ok(s)
    }

    /// What the wires carry.
    #[verifier::opaque]
    pub open spec fn val(&self, s: Seq<bool>) -> Jac2 {
        jac2(self.x.val(s), self.y.val(s), self.z.val(s))
    }

    /// The wires, in order.
    pub open spec fn wire_ids(&self) -> Seq<WireId> {
        self.x.wire_ids() + self.y.wire_ids() + self.z.wire_ids()
    }

    pub fn from_components(x: Fq2, y: Fq2, z: Fq2) -> (r: Self)
        ensures
            r == (G2Projective { x, y, z }),
            forall|s: Seq<bool>| #[trigger] r.ok(s) == (x.ok(s) && y.ok(s) && z.ok(s)),
            forall|s: Seq<bool>| #[trigger] r.val(s) == jac2(x.val(s), y.val(s), z.val(s)),
    {
        proof {
            reveal(G2Projective::ok);
            reveal(G2Projective::val);
        }
        G2Projective { x, y, z }
    }
}

impl Clone for G2Projective {
    fn clone(&self) -> (r: Self)
        ensures
            forall|s: Seq<bool>| #[trigger] r.ok(s) == self.ok(s),
            forall|s: Seq<bool>| #[trigger] r.val(s) == self.val(s),
            r.wire_ids() == self.wire_ids(),
    {
        proof {
            reveal(G2Projective::ok);
            reveal(G2Projective::val);
        }
        G2Projective { x: self.x.clone(), y: self.y.clone(), z: self.z.clone() }
    }
}

pub broadcast proof fn lemma_step_g2projective_ok(a: Seq<bool>, b: Seq<bool>, f: G2Projective)
    requires
        #[trigger] step(a, b),
        f.ok(a),
    ensures
        #[trigger] f.ok(b),
{
    broadcast use {lemma_step_fq2_ok, lemma_step_fq2_val, lemma_fq2_reduced};

    reveal(G2Projective::ok);
}

pub broadcast proof fn lemma_step_g2projective_val(a: Seq<bool>, b: Seq<bool>, f: G2Projective)
    requires
        #[trigger] step(a, b),
        f.ok(a),
    ensures
        #[trigger] f.val(b) == f.val(a),
{
    broadcast use {lemma_step_fq2_ok, lemma_step_fq2_val, lemma_fq2_reduced};

    reveal(G2Projective::ok);
    reveal(G2Projective::val);
}

pub broadcast proof fn lemma_g2projective_reduced(s: Seq<bool>, f: G2Projective)
    ensures
        reduced_jac2(#[trigger] f.val(s)),
{
    broadcast use {lemma_step_fq2_ok, lemma_step_fq2_val, lemma_fq2_reduced};

    reveal(G2Projective::val);
}

/// A scalar by its wires, as a plain number, lowest digit first.
#[derive(Debug)]
pub struct Fr(pub Vec<WireId>);

impl Fr {
    /// The wires are as many as a scalar has digits.
    #[verifier::opaque]
    pub open spec fn ok(&self, s: Seq<bool>) -> bool {
        self.0@.len() == N_BITS && in_range(s, self.0@)
    }

    /// The number that the wires carry.
    #[verifier::opaque]
    pub open spec fn val(&self, s: Seq<bool>) -> nat {
        bits_value(values(s, self.0@))
    }

    /// The wires, in order.
    pub open spec fn wire_ids(&self) -> Seq<WireId> {
        self.0@
    }
}

pub broadcast proof fn lemma_step_fr_ok(a: Seq<bool>, b: Seq<bool>, f: Fr)
    requires
        #[trigger] step(a, b),
        f.ok(a),
    ensures
        #[trigger] f.ok(b),
{
    reveal(Fr::ok);
    reveal(step);
}

pub broadcast proof fn lemma_step_fr_val(a: Seq<bool>, b: Seq<bool>, f: Fr)
    requires
        #[trigger] step(a, b),
        f.ok(a),
    ensures
        #[trigger] f.val(b) == f.val(a),
{
    reveal(Fr::ok);
    reveal(Fr::val);
    reveal(step);
    assert(values(b, f.0@) =~= values(a, f.0@));
}

pub broadcast group group_wires {
    group_circuit,
    lemma_step_fq2_ok,
    lemma_step_fq2_val,
    lemma_fq2_reduced,
    lemma_step_fq6_ok,
    lemma_step_fq6_val,
    lemma_fq6_reduced,
    lemma_step_fq12_ok,
    lemma_step_fq12_val,
    lemma_fq12_reduced,
    lemma_step_g1projective_ok,
    lemma_step_g1projective_val,
    lemma_g1projective_reduced,
    lemma_step_g2projective_ok,
    lemma_step_g2projective_val,
    lemma_g2projective_reduced,
    lemma_step_fr_ok,
    lemma_step_fr_val,
}

} // verus!
