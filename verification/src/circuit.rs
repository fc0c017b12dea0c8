//! Circuits by their wires: the interface that gadgets build on, and a context
//! that executes a circuit while it is built.

use crate::bits::{bits_from_number, bits_value, lemma_modulus_bits, number_from_bits, N_BITS};
use crate::math::field::{
    decode, fadd, finv, fmul, fsub, lemma_decode_add, lemma_decode_inv, lemma_decode_mul,
    lemma_decode_sub, lemma_decode_zero, lemma_finv_zero, modulus,
};
use crate::math::prime_modulus::lemma_field;
use crate::math::ring::{lemma_stands_add, lemma_stands_same, lemma_stands_sub};
use crate::native::fq::{
    fq_add, fq_inverse, fq_mul, fq_radix_inv, fq_radix_sq, fq_sub, fq_zero, FqValue,
};
use vstd::prelude::*;

verus! {

/// The identifier of a wire: its position in the order in which wires are
/// issued.
#[derive(Clone, Copy, Debug, PartialEq, Eq, Structural)]
pub struct WireId(pub usize);

/// The wire that carries `false` in every circuit.
pub fn false_wire() -> (w: WireId)
    ensures
        w == WireId(0),
{
    WireId(0)
}

/// The wire that carries `true` in every circuit.
pub fn true_wire() -> (w: WireId)
    ensures
        w == WireId(1),
{
    WireId(1)
}

/// The boolean gates.
#[derive(Clone, Copy, Debug, PartialEq, Eq, Structural)]
pub enum GateKind {
    And,
    Xor,
}

pub open spec fn gate_value(kind: GateKind, a: bool, b: bool) -> bool {
    match kind {
        GateKind::And => a && b,
        GateKind::Xor => a != b,
    }
}

/// The gates on base field elements.
#[derive(Clone, Copy, Debug, PartialEq, Eq, Structural)]
pub enum FieldOp {
    Add,
    Sub,
    Mul,
    /// The inverse of the first operand, and zero for zero.
    Inverse,
}

pub open spec fn field_value(op: FieldOp, a: nat, b: nat) -> nat {
    match op {
        FieldOp::Add => fadd(a, b),
        FieldOp::Sub => fsub(a, b),
        FieldOp::Mul => fmul(a, b),
        FieldOp::Inverse => finv(a),
    }
}

/// The two constant wires are in place.
#[verifier::opaque]
pub open spec fn wf(s: Seq<bool>) -> bool {
    s.len() >= 2 && !s[0] && s[1]
}

/// The wires exist.
pub open spec fn in_range(s: Seq<bool>, w: Seq<WireId>) -> bool {
    forall|i: int| 0 <= i < w.len() ==> (#[trigger] w[i]).0 < s.len()
}

/// What the wires carry.
pub open spec fn values(s: Seq<bool>, w: Seq<WireId>) -> Seq<bool> {
    Seq::new(w.len(), |i: int| s[w[i].0 as int])
}

/// The wires are those from `start` on, in order.
pub open spec fn consecutive(w: Seq<WireId>, start: nat) -> bool {
    forall|i: int| 0 <= i < w.len() ==> (#[trigger] w[i]).0 == start + i
}

/// Wires that were not fed.
pub open spec fn zeros(n: nat) -> Seq<bool> {
    Seq::new(n, |i: int| false)
}

/// Wires that were issued one after another are different wires.
pub proof fn lemma_consecutive_distinct(w: Seq<WireId>, start: nat)
    requires
        consecutive(w, start),
    ensures
        w.no_duplicates(),
{
    assert forall|i: int, j: int| 0 <= i < w.len() && 0 <= j < w.len() && i != j implies w[i]
        != w[j] by {
        assert(w[i].0 == start + i);
        assert(w[j].0 == start + j);
    }
}

/// The wires carry the Montgomery representation of a base field element.
#[verifier::opaque]
pub open spec fn is_element(s: Seq<bool>, w: Seq<WireId>) -> bool {
    w.len() == N_BITS && in_range(s, w) && bits_value(values(s, w)) < modulus()
}

/// The base field element whose Montgomery representation the wires carry.
#[verifier::opaque]
pub open spec fn element(s: Seq<bool>, w: Seq<WireId>) -> nat {
    decode(bits_value(values(s, w)))
}

/// One part of a circuit's construction: wires are added, none changes.
#[verifier::opaque]
pub open spec fn step(a: Seq<bool>, b: Seq<bool>) -> bool {
    a.len() <= b.len() && forall|i: int| 0 <= i < a.len() ==> b[i] == a[i]
}

/// Any number of steps.
#[verifier::opaque]
pub open spec fn grows(a: Seq<bool>, b: Seq<bool>) -> bool {
    step(a, b)
}

/// The wire exists.
#[verifier::opaque]
pub open spec fn has_wire(s: Seq<bool>, w: WireId) -> bool {
    w.0 < s.len()
}

/// What the wire carries.
#[verifier::opaque]
pub open spec fn wire_value(s: Seq<bool>, w: WireId) -> bool {
    s[w.0 as int]
}

pub proof fn lemma_start(a: Seq<bool>)
    ensures
        grows(a, a),
{
    reveal(step);
    reveal(grows);
}

pub broadcast proof fn lemma_grows_step(z: Seq<bool>, a: Seq<bool>, b: Seq<bool>)
    requires
        #[trigger] grows(z, a),
        #[trigger] step(a, b),
    ensures
        grows(z, b),
{
    reveal(step);
    reveal(grows);
}

pub broadcast proof fn lemma_grows_is_step(a: Seq<bool>, b: Seq<bool>)
    requires
        grows(a, b),
    ensures
        #[trigger] step(a, b),
{
    reveal(grows);
}

pub broadcast proof fn lemma_step_is_element(a: Seq<bool>, b: Seq<bool>, w: Seq<WireId>)
    requires
        #[trigger] step(a, b),
        is_element(a, w),
    ensures
        #[trigger] is_element(b, w),
{
    reveal(step);
    reveal(is_element);
    assert(values(b, w) =~= values(a, w));
}

pub broadcast proof fn lemma_step_element(a: Seq<bool>, b: Seq<bool>, w: Seq<WireId>)
    requires
        #[trigger] step(a, b),
        is_element(a, w),
    ensures
        #[trigger] element(b, w) == element(a, w),
{
    reveal(step);
    reveal(is_element);
    reveal(element);
    assert(values(b, w) =~= values(a, w));
}

pub broadcast proof fn lemma_step_has_wire(a: Seq<bool>, b: Seq<bool>, w: WireId)
    requires
        #[trigger] step(a, b),
        has_wire(a, w),
    ensures
        #[trigger] has_wire(b, w),
{
    reveal(step);
    reveal(has_wire);
}

pub broadcast proof fn lemma_step_wire_value(a: Seq<bool>, b: Seq<bool>, w: WireId)
    requires
        #[trigger] step(a, b),
        has_wire(a, w),
    ensures
        #[trigger] wire_value(b, w) == wire_value(a, w),
{
    reveal(step);
    reveal(has_wire);
    reveal(wire_value);
}

pub broadcast proof fn lemma_step_wf(a: Seq<bool>, b: Seq<bool>)
    requires
        #[trigger] step(a, b),
        wf(a),
    ensures
        #[trigger] wf(b),
{
    reveal(step);
    reveal(wf);
}

pub broadcast proof fn lemma_element_reduced(s: Seq<bool>, w: Seq<WireId>)
    ensures
        #[trigger] element(s, w) < modulus(),
{
    reveal(element);
    crate::math::field::lemma_decode_reduced(bits_value(values(s, w)));
}

/// What later construction leaves as it is.
pub broadcast group group_circuit {
    lemma_grows_step,
    lemma_grows_is_step,
    lemma_step_is_element,
    lemma_step_element,
    lemma_step_has_wire,
    lemma_step_wire_value,
    lemma_step_wf,
    lemma_element_reduced,
}

/// What a gadget needs of the circuit that it is added to.
pub trait CircuitContext: Sized {
    /// The value of each wire issued so far.
    spec fn wires(&self) -> Seq<bool>;

    /// Issues a wire for an input, `false` until it is fed.
    fn issue_wire(&mut self) -> (w: WireId)
        ensures
            final(self).wires() == old(self).wires().push(false),
            w.0 == old(self).wires().len(),
    ;

    /// Adds a boolean gate.
    fn add_gate(&mut self, kind: GateKind, a: WireId, b: WireId) -> (c: WireId)
        requires
            a.0 < old(self).wires().len(),
            b.0 < old(self).wires().len(),
        ensures
            final(self).wires() == old(self).wires().push(
                gate_value(kind, old(self).wires()[a.0 as int], old(self).wires()[b.0 as int]),
            ),
            c.0 == old(self).wires().len(),
    ;

    /// Adds a gate on base field elements in Montgomery form.
    fn add_field_gate(&mut self, op: FieldOp, a: &Vec<WireId>, b: &Vec<WireId>) -> (c: Vec<WireId>)
        requires
            is_element(old(self).wires(), a@),
            is_element(old(self).wires(), b@),
        ensures
            step(old(self).wires(), final(self).wires()),
            is_element(final(self).wires(), c@),
            element(final(self).wires(), c@) == field_value(
                op,
                element(old(self).wires(), a@),
                element(old(self).wires(), b@),
            ),
    ;
}

/// The context that computes the value of each wire as it is issued.
pub struct ExecuteMode {
    pub values: Vec<bool>,
}

impl ExecuteMode {
    pub fn new() -> (r: Self)
        ensures
            r.wires() == seq![false, true],
            wf(r.wires()),
    {
        let mut values: Vec<bool> = Vec::new();
        values.push(false);
        values.push(true);
        proof {
            reveal(wf);
        }
        assert(values@ =~= seq![false, true]);
        ExecuteMode { values }
    }

    /// Sets the value of an input wire.
    pub fn feed_wire(&mut self, w: WireId, value: bool)
        requires
            w.0 < old(self).wires().len(),
        ensures
            final(self).wires() == old(self).wires().update(w.0 as int, value),
    {
        self.values.set(w.0, value);
    }

    /// The value of a wire.
    pub fn lookup_wire(&self, w: WireId) -> (r: bool)
        requires
            w.0 < self.wires().len(),
        ensures
            r == self.wires()[w.0 as int],
    {
        self.values[w.0]
    }

    /// The number that wires carry.
    pub fn read_number(&self, w: &Vec<WireId>) -> (r: FqValue)
        requires
            w.len() == N_BITS,
            in_range(self.wires(), w@),
        ensures
            r@ == bits_value(values(self.wires(), w@)),
    {
        let mut b: Vec<bool> = Vec::new();
        let mut i: usize = 0;
        while i < w.len()
            invariant
                i <= w.len(),
                in_range(self.wires(), w@),
                b@ == values(self.wires(), w@.take(i as int)),
            decreases w.len() - i,
        {
            let ghost b0 = b@;
            b.push(self.values[w[i].0]);
            assert(b@ =~= values(self.wires(), w@.take(i + 1)));
            i = i + 1;
        }
        assert(w@.take(i as int) =~= w@);
        number_from_bits(&b)
    }

    /// Issues wires that carry a number.
    fn issue_number(&mut self, v: FqValue) -> (w: Vec<WireId>)
        requires
            v.valid(),
        ensures
            step(old(self).wires(), final(self).wires()),
            is_element(final(self).wires(), w@),
            element(final(self).wires(), w@) == decode(v@),
    {
        proof {
            lemma_modulus_bits();
        }
        let b = bits_from_number(v);
        let ghost s0 = self.wires();
        let mut w: Vec<WireId> = Vec::new();
        let mut i: usize = 0;
        while i < b.len()
            invariant
                i <= b.len(),
                w@.len() == i,
                self.wires() == s0 + b@.take(i as int),
                forall|j: int| 0 <= j < i ==> (#[trigger] w@[j]).0 == s0.len() + j,
            decreases b.len() - i,
        {
            w.push(WireId(self.values.len()));
            self.values.push(b[i]);
            assert(self.wires() =~= s0 + b@.take(i + 1));
            i = i + 1;
        }
        proof {
            assert(b@.take(i as int) =~= b@);
            assert(values(self.wires(), w@) =~= b@);
            reveal(step);
            reveal(is_element);
            reveal(element);
        }
        w
    }
}

impl CircuitContext for ExecuteMode {
    open spec fn wires(&self) -> Seq<bool> {
        self.values@
    }

    fn issue_wire(&mut self) -> (w: WireId) {
        let w = WireId(self.values.len());
        self.values.push(false);
        w
    }

    fn add_gate(&mut self, kind: GateKind, a: WireId, b: WireId) -> (c: WireId) {
        let c = WireId(self.values.len());
        let x = self.values[a.0];
        let y = self.values[b.0];
        let z = match kind {
            GateKind::And => x && y,
            GateKind::Xor => x != y,
        };
        self.values.push(z);
        c
    }

    fn add_field_gate(
        &mut self,
        op: FieldOp,
        a: &Vec<WireId>,
        b: &Vec<WireId>,
    ) -> (c: Vec<WireId>) {
        proof {
            reveal(is_element);
            reveal(element);
        }
        let x = self.read_number(a);
        let r = match op {
            FieldOp::Add => {
                let y = self.read_number(b);
                proof {
                    lemma_decode_add(x@, y@);
                }
                fq_add(x, y)
            },
            FieldOp::Sub => {
                let y = self.read_number(b);
                proof {
                    lemma_decode_sub(x@, y@);
                }
                fq_sub(x, y)
            },
            FieldOp::Mul => {
                let y = self.read_number(b);
                proof {
                    lemma_decode_mul(x@, y@);
                }
                fq_mul(fq_mul(x, y), fq_radix_inv())
            },
            FieldOp::Inverse => match fq_inverse(x) {
                Some(w) => {
                    proof {
                        lemma_decode_inv(x@, w@);
                    }
                    fq_mul(w, fq_radix_sq())
                },
                None => {
                    proof {
                        lemma_decode_zero();
                        lemma_finv_zero();
                    }
                    fq_zero()
                },
            },
        };
        self.issue_number(r)
    }
}

/// What gates give: both for `and`, one of two for `xor`, and for the gates on
/// elements sum, difference, product and inverse.
pub proof fn lemma_gates(x: bool, y: bool, a: nat, b: nat)
    ensures
        gate_value(GateKind::And, true, y) == y,
        gate_value(GateKind::And, x, true) == x,
        !gate_value(GateKind::And, false, y),
        gate_value(GateKind::Xor, x, x) == false,
        gate_value(GateKind::Xor, x, !x),
        gate_value(GateKind::Xor, gate_value(GateKind::Xor, x, y), y) == x,
        fadd(field_value(FieldOp::Sub, a, b), b) == fadd(a, 0),
        field_value(FieldOp::Add, a, b) == fadd(a, b),
        field_value(FieldOp::Mul, a, b) == fmul(a, b),
        0 < a < modulus() ==> fmul(a, field_value(FieldOp::Inverse, a, b)) == 1,
        field_value(FieldOp::Inverse, 0, b) == 0,
{
    let (x, y) = (a as int, b as int);
    lemma_stands_sub(a, x, b, y);
    lemma_stands_add(fsub(a, b), x - y, b, y);
    lemma_stands_add(a, x, 0, 0);
    lemma_stands_same(fadd(fsub(a, b), b), fadd(a, 0), x);
    lemma_finv_zero();
    if 0 < a < modulus() {
        lemma_field(a);
    }
}

/// What is said of wires, wire by wire: a step keeps all that there were, the first
/// two are the constants, and wires carry the values at their places.
pub proof fn lemma_wires(a: Seq<bool>, b: Seq<bool>, w: Seq<WireId>, n: nat, i: int)
    ensures
        step(a, b) ==> a.len() <= b.len() && (0 <= i < a.len() ==> b[i] == a[i]),
        a.len() <= b.len() && b.take(a.len() as int) == a ==> step(a, b),
        wf(a) <==> a.len() >= 2 && !a[0] && a[1],
        values(a, w).len() == w.len(),
        0 <= i < w.len() ==> values(a, w)[i] == a[w[i].0 as int],
        0 <= i < w.len() ==> wire_value(a, w[i]) == a[w[i].0 as int],
        0 <= i < w.len() ==> (has_wire(a, w[i]) <==> w[i].0 < a.len()),
        consecutive(w, n) && 0 <= i < w.len() ==> w[i].0 == n + i,
        zeros(n).len() == n,
        0 <= i < n ==> !zeros(n)[i],
        in_range(a, w) && 0 <= i < w.len() ==> w[i].0 < a.len(),
{
    reveal(step);
    reveal(wf);
    reveal(wire_value);
    reveal(has_wire);
    if a.len() <= b.len() && b.take(a.len() as int) == a {
        assert forall|k: int| 0 <= k < a.len() implies b[k] == a[k] by {
            assert(b.take(a.len() as int)[k] == b[k]);
        }
    }
}

} // verus!
