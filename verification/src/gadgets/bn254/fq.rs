//! Base field elements on wires.

use crate::bits::{
    bits_from_number, bits_value, lemma_bits_unique, lemma_bits_value_skip, lemma_modulus_bits,
    N_BITS,
};
use crate::circuit::{
    element, false_wire, gate_value, group_circuit, grows, has_wire, in_range, is_element,
    lemma_start, step, true_wire, values, wf, wire_value, CircuitContext, FieldOp, GateKind, WireId,
};
use crate::math::field::{
    decode, fadd, finv, fmul, fneg, fpow, fsub, lemma_constants, lemma_decode_reduced,
    lemma_decode_zero, lemma_encode_decode, lemma_fmul_one, lemma_fsub_zero, one_half,
    sqrt_exponent,
};
use crate::math::tower::is_nonresidue;
use crate::native::fq::{
    fq_as_montgomery, fq_euler_exponent, fq_half, fq_neg, fq_one, fq_sqrt_exponent, fq_zero,
    FqValue,
};
use vstd::prelude::*;

verus! {

broadcast use group_circuit;

/// A base field element by its wires, in Montgomery form, lowest digit first.
#[derive(Debug)]
pub struct Fq(pub Vec<WireId>);

impl Clone for Fq {
    fn clone(&self) -> (r: Self)
        ensures
            r.0@ == self.0@,
    {
        let mut v: Vec<WireId> = Vec::new();
        let mut i: usize = 0;
        while i < self.0.len()
            invariant
                i <= self.0.len(),
                v@ == self.0@.take(i as int),
            decreases self.0.len() - i,
        {
            v.push(self.0[i]);
            i = i + 1;
            assert(v@ =~= self.0@.take(i as int));
        }
        assert(v@ =~= self.0@);
        Fq(v)
    }
}

/// Adds a boolean gate.
pub fn gate<C: CircuitContext>(circuit: &mut C, kind: GateKind, a: WireId, b: WireId) -> (c: WireId)
    requires
        has_wire(old(circuit).wires(), a),
        has_wire(old(circuit).wires(), b),
    ensures
        step(old(circuit).wires(), final(circuit).wires()),
        has_wire(final(circuit).wires(), c),
        wire_value(final(circuit).wires(), c) == gate_value(
            kind,
            wire_value(old(circuit).wires(), a),
            wire_value(old(circuit).wires(), b),
        ),
{
    proof {
        reveal(has_wire);
        reveal(wire_value);
        reveal(step);
    }
    circuit.add_gate(kind, a, b)
}

/// The wires of the first operand where the selector is set, else those of
/// the second.
pub fn select<C: CircuitContext>(
    circuit: &mut C,
    a: &Vec<WireId>,
    b: &Vec<WireId>,
    sel: WireId,
) -> (c: Vec<WireId>)
    requires
        a.len() == b.len(),
        in_range(old(circuit).wires(), a@),
        in_range(old(circuit).wires(), b@),
        has_wire(old(circuit).wires(), sel),
    ensures
        step(old(circuit).wires(), final(circuit).wires()),
        in_range(final(circuit).wires(), c@),
        values(final(circuit).wires(), c@) == (if wire_value(old(circuit).wires(), sel) {
            values(old(circuit).wires(), a@)
        } else {
            values(old(circuit).wires(), b@)
        }),
{
    let ghost s0 = circuit.wires();
    let ghost flag = wire_value(s0, sel);
    let mut c: Vec<WireId> = Vec::new();
    let mut i: usize = 0;
    proof {
        lemma_start(s0);
    }
    while i < a.len()
        invariant
            i <= a.len() == b.len(),
            c.len() == i,
            in_range(s0, a@),
            in_range(s0, b@),
            has_wire(s0, sel),
            flag == wire_value(s0, sel),
            step(s0, circuit.wires()),
            grows(s0, circuit.wires()),
            forall|j: int| 0 <= j < i ==> has_wire(circuit.wires(), #[trigger] c@[j]),
            forall|j: int|
                0 <= j < i ==> wire_value(circuit.wires(), #[trigger] c@[j]) == wire_value(
                    s0,
                    if flag {
                        a@[j]
                    } else {
                        b@[j]
                    },
                ),
        decreases a.len() - i,
    {
        let ghost s1 = circuit.wires();
        let x = a[i];
        let y = b[i];
        assert(has_wire(s0, x) && has_wire(s0, y)) by {
            reveal(has_wire);
            assert(a@[i as int].0 < s0.len());
            assert(b@[i as int].0 < s0.len());
        }
        let d = gate(circuit, GateKind::Xor, x, y);
        let e = gate(circuit, GateKind::And, sel, d);
        let w = gate(circuit, GateKind::Xor, y, e);
        c.push(w);
        i = i + 1;
    }
    proof {
        reveal(has_wire);
        reveal(wire_value);
        let s1 = circuit.wires();
        assert forall|j: int| 0 <= j < c.len() implies (#[trigger] c@[j]).0 < s1.len() by {
            assert(has_wire(s1, c@[j]));
        }
        assert(values(s1, c@) =~= if flag {
            values(s0, a@)
        } else {
            values(s0, b@)
        });
    }
    c
}

impl Fq {
    /// The wires carry a field element.
    pub open spec fn ok(&self, s: Seq<bool>) -> bool {
        is_element(s, self.0@)
    }

    /// The field element that the wires carry.
    pub open spec fn val(&self, s: Seq<bool>) -> nat {
        element(s, self.0@)
    }

    /// The wires, in order.
    pub open spec fn wire_ids(&self) -> Seq<WireId> {
        self.0@
    }

    /// A constant by the constant wires. The number is the Montgomery
    /// representation of the element.
    pub fn new_constant<C: CircuitContext>(circuit: &C, v: FqValue) -> (r: Self)
        requires
            wf(circuit.wires()),
            v.valid(),
        ensures
            r.ok(circuit.wires()),
            r.val(circuit.wires()) == decode(v@),
    {
        proof {
            lemma_modulus_bits();
        }
        let b = bits_from_number(v);
        let mut w: Vec<WireId> = Vec::new();
        let mut i: usize = 0;
        while i < b.len()
            invariant
                i <= b.len(),
                w.len() == i,
                forall|j: int|
                    0 <= j < i ==> (#[trigger] w@[j]).0 == if b@[j] {
                        1usize
                    } else {
                        0usize
                    },
            decreases b.len() - i,
        {
            if b[i] {
                w.push(true_wire());
            } else {
                w.push(false_wire());
            }
            i = i + 1;
        }
        proof {
            reveal(wf);
            reveal(is_element);
            reveal(element);
            let s = circuit.wires();
            assert(values(s, w@) =~= b@);
        }
        Fq(w)
    }

    pub fn add<C: CircuitContext>(circuit: &mut C, a: &Fq, b: &Fq) -> (r: Fq)
        requires
            a.ok(old(circuit).wires()),
            b.ok(old(circuit).wires()),
        ensures
            step(old(circuit).wires(), final(circuit).wires()),
            r.ok(final(circuit).wires()),
            r.val(final(circuit).wires()) == fadd(
                a.val(old(circuit).wires()),
                b.val(old(circuit).wires()),
            ),
    {
        Fq(circuit.add_field_gate(FieldOp::Add, &a.0, &b.0))
    }

    pub fn sub<C: CircuitContext>(circuit: &mut C, a: &Fq, b: &Fq) -> (r: Fq)
        requires
            a.ok(old(circuit).wires()),
            b.ok(old(circuit).wires()),
        ensures
            step(old(circuit).wires(), final(circuit).wires()),
            r.ok(final(circuit).wires()),
            r.val(final(circuit).wires()) == fsub(
                a.val(old(circuit).wires()),
                b.val(old(circuit).wires()),
            ),
    {
        Fq(circuit.add_field_gate(FieldOp::Sub, &a.0, &b.0))
    }

    pub fn mul_montgomery<C: CircuitContext>(circuit: &mut C, a: &Fq, b: &Fq) -> (r: Fq)
        requires
            a.ok(old(circuit).wires()),
            b.ok(old(circuit).wires()),
        ensures
            step(old(circuit).wires(), final(circuit).wires()),
            r.ok(final(circuit).wires()),
            r.val(final(circuit).wires()) == fmul(
                a.val(old(circuit).wires()),
                b.val(old(circuit).wires()),
            ),
    {
        Fq(circuit.add_field_gate(FieldOp::Mul, &a.0, &b.0))
    }

    pub fn square_montgomery<C: CircuitContext>(circuit: &mut C, a: &Fq) -> (r: Fq)
        requires
            a.ok(old(circuit).wires()),
        ensures
            step(old(circuit).wires(), final(circuit).wires()),
            r.ok(final(circuit).wires()),
            r.val(final(circuit).wires()) == fmul(
                a.val(old(circuit).wires()),
                a.val(old(circuit).wires()),
            ),
    {
        Fq(circuit.add_field_gate(FieldOp::Mul, &a.0, &a.0))
    }

    /// The inverse, and zero for zero.
    pub fn inverse_montgomery<C: CircuitContext>(circuit: &mut C, a: &Fq) -> (r: Fq)
        requires
            a.ok(old(circuit).wires()),
        ensures
            step(old(circuit).wires(), final(circuit).wires()),
            r.ok(final(circuit).wires()),
            r.val(final(circuit).wires()) == finv(a.val(old(circuit).wires())),
    {
        Fq(circuit.add_field_gate(FieldOp::Inverse, &a.0, &a.0))
    }

    pub fn double<C: CircuitContext>(circuit: &mut C, a: &Fq) -> (r: Fq)
        requires
            a.ok(old(circuit).wires()),
        ensures
            step(old(circuit).wires(), final(circuit).wires()),
            r.ok(final(circuit).wires()),
            r.val(final(circuit).wires()) == fadd(
                a.val(old(circuit).wires()),
                a.val(old(circuit).wires()),
            ),
    {
        Fq::add(circuit, a, a)
    }

    pub fn neg<C: CircuitContext>(circuit: &mut C, a: &Fq) -> (r: Fq)
        requires
            wf(old(circuit).wires()),
            a.ok(old(circuit).wires()),
        ensures
            step(old(circuit).wires(), final(circuit).wires()),
            r.ok(final(circuit).wires()),
            r.val(final(circuit).wires()) == fneg(a.val(old(circuit).wires())),
    {
        let zero = Fq::new_constant(circuit, fq_zero());
        proof {
            lemma_decode_zero();
        }
        Fq::sub(circuit, &zero, a)
    }

    /// The sum with a constant in Montgomery form.
    pub fn add_constant<C: CircuitContext>(circuit: &mut C, a: &Fq, c: FqValue) -> (r: Fq)
        requires
            wf(old(circuit).wires()),
            a.ok(old(circuit).wires()),
            c.valid(),
        ensures
            step(old(circuit).wires(), final(circuit).wires()),
            r.ok(final(circuit).wires()),
            r.val(final(circuit).wires()) == fadd(a.val(old(circuit).wires()), decode(c@)),
    {
        let k = Fq::new_constant(circuit, c);
        Fq::add(circuit, a, &k)
    }

    /// The product with a constant in Montgomery form.
    pub fn mul_by_constant_montgomery<C: CircuitContext>(
        circuit: &mut C,
        a: &Fq,
        c: FqValue,
    ) -> (r: Fq)
        requires
            wf(old(circuit).wires()),
            a.ok(old(circuit).wires()),
            c.valid(),
        ensures
            step(old(circuit).wires(), final(circuit).wires()),
            r.ok(final(circuit).wires()),
            r.val(final(circuit).wires()) == fmul(a.val(old(circuit).wires()), decode(c@)),
    {
        let k = Fq::new_constant(circuit, c);
        Fq::mul_montgomery(circuit, a, &k)
    }

    pub fn half<C: CircuitContext>(circuit: &mut C, a: &Fq) -> (r: Fq)
        requires
            wf(old(circuit).wires()),
            a.ok(old(circuit).wires()),
        ensures
            step(old(circuit).wires(), final(circuit).wires()),
            r.ok(final(circuit).wires()),
            r.val(final(circuit).wires()) == fmul(a.val(old(circuit).wires()), one_half()),
    {
        Fq::mul_by_constant_montgomery(circuit, a, fq_as_montgomery(fq_half()))
    }

    /// The power with a constant exponent.
    pub fn exp_by_constant_montgomery<C: CircuitContext>(
        circuit: &mut C,
        a: &Fq,
        exponent: FqValue,
    ) -> (r: Fq)
        requires
            wf(old(circuit).wires()),
            a.ok(old(circuit).wires()),
            exponent.valid(),
        ensures
            step(old(circuit).wires(), final(circuit).wires()),
            r.ok(final(circuit).wires()),
            r.val(final(circuit).wires()) == fpow(a.val(old(circuit).wires()), exponent@),
    {
        let ghost s0 = circuit.wires();
        let ghost av = a.val(s0);
        proof {
            lemma_start(s0);
            lemma_modulus_bits();
            lemma_constants();
            lemma_fmul_one(1);
        }
        let b = bits_from_number(exponent);
        let mut r = Fq::new_constant(circuit, fq_as_montgomery(fq_one()));
        let mut k: usize = b.len();
        assert(b@.skip(k as int) =~= Seq::<bool>::empty());
        while k > 0
            invariant
                k <= b.len(),
                wf(s0),
                a.ok(s0),
                av == a.val(s0),
                fmul(1, 1) == 1,
                step(s0, circuit.wires()),
                grows(s0, circuit.wires()),
                r.ok(circuit.wires()),
                r.val(circuit.wires()) == fpow(av, bits_value(b@.skip(k as int))),
            decreases k,
        {
            k = k - 1;
            proof {
                lemma_bits_value_skip(b@, k as int);
            }
            r = Fq::square_montgomery(circuit, &r);
            if b[k] {
                r = Fq::mul_montgomery(circuit, &r, a);
            }
        }
        assert(b@.skip(0) =~= b@);
        r
    }

    /// The power with exponent `(p + 1) / 4`: a square root of a square.
    pub fn sqrt_montgomery<C: CircuitContext>(circuit: &mut C, a: &Fq) -> (r: Fq)
        requires
            wf(old(circuit).wires()),
            a.ok(old(circuit).wires()),
        ensures
            step(old(circuit).wires(), final(circuit).wires()),
            r.ok(final(circuit).wires()),
            r.val(final(circuit).wires()) == fpow(a.val(old(circuit).wires()), sqrt_exponent()),
    {
        Fq::exp_by_constant_montgomery(circuit, a, fq_sqrt_exponent())
    }

    /// Whether the element equals a constant in Montgomery form.
    pub fn equal_constant<C: CircuitContext>(circuit: &mut C, a: &Fq, c: FqValue) -> (r: WireId)
        requires
            wf(old(circuit).wires()),
            a.ok(old(circuit).wires()),
            c.valid(),
        ensures
            step(old(circuit).wires(), final(circuit).wires()),
            has_wire(final(circuit).wires(), r),
            wire_value(final(circuit).wires(), r) == (a.val(old(circuit).wires()) == decode(c@)),
    {
        let ghost s0 = circuit.wires();
        proof {
            lemma_start(s0);
            lemma_modulus_bits();
        }
        let b = bits_from_number(c);
        let mut acc = true_wire();
        let one = true_wire();
        let zero = false_wire();
        let mut i: usize = 0;
        let ghost av = values(s0, a.0@);
        assert(has_wire(s0, one) && wire_value(s0, one) && has_wire(s0, zero) && !wire_value(s0, zero))
            by {
            reveal(wf);
            reveal(has_wire);
            reveal(wire_value);
        }
        assert(in_range(s0, a.0@) && a.0.len() == N_BITS) by {
            reveal(is_element);
        }
        assert(av.take(0) =~= b@.take(0));
        while i < N_BITS
            invariant
                i <= N_BITS == a.0.len() == b.len(),
                in_range(s0, a.0@),
                av == values(s0, a.0@),
                has_wire(s0, one) && wire_value(s0, one),
                has_wire(s0, zero) && !wire_value(s0, zero),
                step(s0, circuit.wires()),
                grows(s0, circuit.wires()),
                has_wire(circuit.wires(), acc),
                wire_value(circuit.wires(), acc) == (av.take(i as int) == b@.take(i as int)),
            decreases N_BITS - i,
        {
            let ghost a0 = av.take(i as int);
            let ghost b0 = b@.take(i as int);
            let w = a.0[i];
            assert(has_wire(s0, w) && wire_value(s0, w) == av[i as int]) by {
                reveal(has_wire);
                reveal(wire_value);
                assert(a.0@[i as int].0 < s0.len());
            }
            let k = if b[i] {
                one
            } else {
                zero
            };
            let differs = gate(circuit, GateKind::Xor, w, k);
            let agrees = gate(circuit, GateKind::Xor, differs, one);
            acc = gate(circuit, GateKind::And, acc, agrees);
            proof {
                assert(av.take(i + 1) =~= a0.push(av[i as int]));
                assert(b@.take(i + 1) =~= b0.push(b@[i as int]));
                if av.take(i + 1) == b@.take(i + 1) {
                    assert(a0 =~= av.take(i + 1).drop_last());
                    assert(b0 =~= b@.take(i + 1).drop_last());
                    assert(av[i as int] == av.take(i + 1).last());
                    assert(b@[i as int] == b@.take(i + 1).last());
                }
            }
            i = i + 1;
        }
        proof {
            assert(av.take(i as int) =~= av);
            assert(b@.take(i as int) =~= b@);
            reveal(is_element);
            reveal(element);
            if a.val(s0) == decode(c@) {
                lemma_encode_decode(bits_value(av));
                lemma_encode_decode(c@);
                lemma_bits_unique(av, b@);
            }
        }
        acc
    }

    /// Whether the element is zero.
    pub fn equal_zero<C: CircuitContext>(circuit: &mut C, a: &Fq) -> (r: WireId)
        requires
            wf(old(circuit).wires()),
            a.ok(old(circuit).wires()),
        ensures
            step(old(circuit).wires(), final(circuit).wires()),
            has_wire(final(circuit).wires(), r),
            wire_value(final(circuit).wires(), r) == (a.val(old(circuit).wires()) == 0),
    {
        proof {
            lemma_decode_zero();
        }
        Fq::equal_constant(circuit, a, fq_zero())
    }

    /// Whether two elements are equal.
    pub fn equal<C: CircuitContext>(circuit: &mut C, a: &Fq, b: &Fq) -> (r: WireId)
        requires
            wf(old(circuit).wires()),
            a.ok(old(circuit).wires()),
            b.ok(old(circuit).wires()),
        ensures
            step(old(circuit).wires(), final(circuit).wires()),
            has_wire(final(circuit).wires(), r),
            wire_value(final(circuit).wires(), r) == (a.val(old(circuit).wires()) == b.val(
                old(circuit).wires(),
            )),
    {
        proof {
            lemma_start(circuit.wires());
            reveal(element);
            lemma_decode_reduced(bits_value(values(circuit.wires(), a.0@)));
            lemma_decode_reduced(bits_value(values(circuit.wires(), b.0@)));
            lemma_fsub_zero(a.val(circuit.wires()), b.val(circuit.wires()));
        }
        let d = Fq::sub(circuit, a, b);
        Fq::equal_zero(circuit, &d)
    }

    /// The first operand where the selector is set, else the second.
    pub fn select<C: CircuitContext>(circuit: &mut C, a: &Fq, b: &Fq, sel: WireId) -> (r: Fq)
        requires
            a.ok(old(circuit).wires()),
            b.ok(old(circuit).wires()),
            has_wire(old(circuit).wires(), sel),
        ensures
            step(old(circuit).wires(), final(circuit).wires()),
            r.ok(final(circuit).wires()),
            r.val(final(circuit).wires()) == (if wire_value(old(circuit).wires(), sel) {
                a.val(old(circuit).wires())
            } else {
                b.val(old(circuit).wires())
            }),
    {
        proof {
            reveal(is_element);
            reveal(element);
        }
        let c = select(circuit, &a.0, &b.0, sel);
        assert(c.len() == values(circuit.wires(), c@).len());
        Fq(c)
    }

    /// Whether the element is a quadratic nonresidue.
    pub fn is_qnr_montgomery<C: CircuitContext>(circuit: &mut C, a: &Fq) -> (r: WireId)
        requires
            wf(old(circuit).wires()),
            a.ok(old(circuit).wires()),
        ensures
            step(old(circuit).wires(), final(circuit).wires()),
            has_wire(final(circuit).wires(), r),
            wire_value(final(circuit).wires(), r) == is_nonresidue(a.val(old(circuit).wires())),
    {
        let ghost s0 = circuit.wires();
        proof {
            lemma_start(s0);
            lemma_constants();
            crate::math::field::lemma_fneg_neg(1);
        }
        let e = Fq::exp_by_constant_montgomery(circuit, a, fq_euler_exponent());
        Fq::equal_constant(circuit, &e, fq_as_montgomery(fq_neg(fq_one())))
    }
}

} // verus!
