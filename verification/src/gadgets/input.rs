//! Input wires: how they are issued, listed and fed.

use crate::bits::{bits_from_number, digits, lemma_digits_value, lemma_modulus_bits, N_BITS};
use crate::circuit::{
    consecutive, element, in_range, is_element, values, zeros, CircuitContext, ExecuteMode, WireId,
};
use crate::gadgets::bn254::fq::Fq;
use crate::gadgets::bn254::wires::{Fq12, Fq2, Fq6, Fr, G1Projective, G2Projective};
use crate::math::curve::{Jac1, Jac2};
use crate::math::field::{encode, lemma_decode_encode, modulus};
use crate::math::tower::Ext2;
use crate::native::fq::{fq_as_montgomery, FqValue};
use crate::native::points::{G1ProjectiveValue, G2ProjectiveValue};
use crate::native::tower::Fq2Value;
use vstd::arithmetic::power2::pow2;
use vstd::prelude::*;

verus! {

fn issue_wires<C: CircuitContext>(circuit: &mut C, n: usize) -> (r: Vec<WireId>)
    ensures
        r@.len() == n,
        consecutive(r@, old(circuit).wires().len()),
        final(circuit).wires() == old(circuit).wires() + zeros(n as nat),
{
    let mut v: Vec<WireId> = Vec::new();
    let mut i: usize = 0;
    let ghost s0 = circuit.wires();
    assert(s0 + zeros(0) =~= s0);
    while i < n
        invariant
            i <= n,
            v@.len() == i,
            consecutive(v@, s0.len()),
            circuit.wires() == s0 + zeros(i as nat),
        decreases n - i,
    {
        let w = circuit.issue_wire();
        v.push(w);
        i = i + 1;
        assert(circuit.wires() =~= s0 + zeros(i as nat));
    }
    v
}

pub fn copy_wires(w: &Vec<WireId>) -> (r: Vec<WireId>)
    ensures
        r@ == w@,
{
    let mut v: Vec<WireId> = Vec::new();
    let mut i: usize = 0;
    while i < w.len()
        invariant
            i <= w.len(),
            v@ == w@.take(i as int),
        decreases w.len() - i,
    {
        v.push(w[i]);
        i = i + 1;
        assert(v@ =~= w@.take(i as int));
    }
    assert(v@ =~= w@);
    v
}

impl Fq {
    /// There are as many wires as digits.
    pub open spec fn shaped(&self) -> bool {
        self.0@.len() == N_BITS
    }

    /// Issues wires for an input.
    pub fn new<C: CircuitContext>(circuit: &mut C) -> (r: Self)
        ensures
            r.shaped(),
            consecutive(r.wire_ids(), old(circuit).wires().len()),
            final(circuit).wires() == old(circuit).wires() + zeros(254),
    {
        Fq(issue_wires(circuit, N_BITS))
    }

    /// The wires, in order.
    pub fn to_wires_vec(&self) -> (r: Vec<WireId>)
        ensures
            r@ == self.wire_ids(),
    {
        copy_wires(&self.0)
    }

    /// Issues as many wires again.
    pub fn clone_from<C: CircuitContext>(&self, circuit: &mut C) -> (r: Self)
        ensures
            r.shaped(),
            consecutive(r.wire_ids(), old(circuit).wires().len()),
            final(circuit).wires() == old(circuit).wires() + zeros(254),
    {
        Fq::new(circuit)
    }
}

impl Fr {
    /// There are as many wires as digits.
    pub open spec fn shaped(&self) -> bool {
        self.0@.len() == N_BITS
    }

    /// Issues wires for an input.
    pub fn new<C: CircuitContext>(circuit: &mut C) -> (r: Self)
        ensures
            r.shaped(),
            consecutive(r.wire_ids(), old(circuit).wires().len()),
            final(circuit).wires() == old(circuit).wires() + zeros(254),
    {
        Fr(issue_wires(circuit, N_BITS))
    }

    /// The wires, in order.
    pub fn to_wires_vec(&self) -> (r: Vec<WireId>)
        ensures
            r@ == self.wire_ids(),
    {
        copy_wires(&self.0)
    }

    /// Issues as many wires again.
    pub fn clone_from<C: CircuitContext>(&self, circuit: &mut C) -> (r: Self)
        ensures
            r.shaped(),
            consecutive(r.wire_ids(), old(circuit).wires().len()),
            final(circuit).wires() == old(circuit).wires() + zeros(254),
    {
        Fr::new(circuit)
    }
}

impl Fq2 {
    /// There are as many wires as digits.
    pub open spec fn shaped(&self) -> bool {
        self.c0.shaped() && self.c1.shaped()
    }

    /// Issues wires for an input.
    pub fn new<C: CircuitContext>(circuit: &mut C) -> (r: Self)
        ensures
            r.shaped(),
            r.wire_ids().len() == 508,
            consecutive(r.wire_ids(), old(circuit).wires().len()),
            final(circuit).wires() == old(circuit).wires() + zeros(508),
    {
        let ghost s0 = circuit.wires();
        let c0 = Fq::new(circuit);
        let c1 = Fq::new(circuit);
        assert(circuit.wires() =~= s0 + zeros(508));
        Fq2 { c0, c1 }
    }

    /// The wires, in order.
    pub fn to_wires_vec(&self) -> (r: Vec<WireId>)
        ensures
            r@ == self.wire_ids(),
    {
        let mut ids: Vec<WireId> = Vec::new();
        ids.append(&mut self.c0.to_wires_vec());
        ids.append(&mut self.c1.to_wires_vec());
        assert(ids@ =~= self.wire_ids());
        ids
    }

    /// Issues as many wires again.
    pub fn clone_from<C: CircuitContext>(&self, circuit: &mut C) -> (r: Self)
        ensures
            r.shaped(),
            r.wire_ids().len() == 508,
            consecutive(r.wire_ids(), old(circuit).wires().len()),
            final(circuit).wires() == old(circuit).wires() + zeros(508),
    {
        Fq2::new(circuit)
    }
}

impl Fq6 {
    /// There are as many wires as digits.
    pub open spec fn shaped(&self) -> bool {
        self.c0.shaped() && self.c1.shaped() && self.c2.shaped()
    }

    /// Issues wires for an input.
    pub fn new<C: CircuitContext>(circuit: &mut C) -> (r: Self)
        ensures
            r.shaped(),
            r.wire_ids().len() == 1524,
            consecutive(r.wire_ids(), old(circuit).wires().len()),
            final(circuit).wires() == old(circuit).wires() + zeros(1524),
    {
        let ghost s0 = circuit.wires();
        let c0 = Fq2::new(circuit);
        let c1 = Fq2::new(circuit);
        let c2 = Fq2::new(circuit);
        assert(circuit.wires() =~= s0 + zeros(1524));
        Fq6 { c0, c1, c2 }
    }

    /// The wires, in order.
    pub fn to_wires_vec(&self) -> (r: Vec<WireId>)
        ensures
            r@ == self.wire_ids(),
    {
        let mut ids: Vec<WireId> = Vec::new();
        ids.append(&mut self.c0.to_wires_vec());
        ids.append(&mut self.c1.to_wires_vec());
        ids.append(&mut self.c2.to_wires_vec());
        assert(ids@ =~= self.wire_ids());
        ids
    }

    /// Issues as many wires again.
    pub fn clone_from<C: CircuitContext>(&self, circuit: &mut C) -> (r: Self)
        ensures
            r.shaped(),
            r.wire_ids().len() == 1524,
            consecutive(r.wire_ids(), old(circuit).wires().len()),
            final(circuit).wires() == old(circuit).wires() + zeros(1524),
    {
        Fq6::new(circuit)
    }
}

impl Fq12 {
    /// There are as many wires as digits.
    pub open spec fn shaped(&self) -> bool {
        self.c0.shaped() && self.c1.shaped()
    }

    /// Issues wires for an input.
    pub fn new<C: CircuitContext>(circuit: &mut C) -> (r: Self)
        ensures
            r.shaped(),
            r.wire_ids().len() == 3048,
            consecutive(r.wire_ids(), old(circuit).wires().len()),
            final(circuit).wires() == old(circuit).wires() + zeros(3048),
    {
        let ghost s0 = circuit.wires();
        let c0 = Fq6::new(circuit);
        let c1 = Fq6::new(circuit);
        assert(circuit.wires() =~= s0 + zeros(3048));
        Fq12 { c0, c1 }
    }

    /// The wires, in order.
    pub fn to_wires_vec(&self) -> (r: Vec<WireId>)
        ensures
            r@ == self.wire_ids(),
    {
        let mut ids: Vec<WireId> = Vec::new();
        ids.append(&mut self.c0.to_wires_vec());
        ids.append(&mut self.c1.to_wires_vec());
        assert(ids@ =~= self.wire_ids());
        ids
    }

    /// Issues as many wires again.
    pub fn clone_from<C: CircuitContext>(&self, circuit: &mut C) -> (r: Self)
        ensures
            r.shaped(),
            r.wire_ids().len() == 3048,
            consecutive(r.wire_ids(), old(circuit).wires().len()),
            final(circuit).wires() == old(circuit).wires() + zeros(3048),
    {
        Fq12::new(circuit)
    }
}

impl G1Projective {
    /// There are as many wires as digits.
    pub open spec fn shaped(&self) -> bool {
        self.x.shaped() && self.y.shaped() && self.z.shaped()
    }

    /// Issues wires for an input.
    pub fn new<C: CircuitContext>(circuit: &mut C) -> (r: Self)
        ensures
            r.shaped(),
            r.wire_ids().len() == 762,
            consecutive(r.wire_ids(), old(circuit).wires().len()),
            final(circuit).wires() == old(circuit).wires() + zeros(762),
    {
        let ghost s0 = circuit.wires();
        let x = Fq::new(circuit);
        let y = Fq::new(circuit);
        let z = Fq::new(circuit);
        assert(circuit.wires() =~= s0 + zeros(762));
        G1Projective { x, y, z }
    }

    /// The wires, in order.
    pub fn to_wires_vec(&self) -> (r: Vec<WireId>)
        ensures
            r@ == self.wire_ids(),
    {
        let mut ids: Vec<WireId> = Vec::new();
        ids.append(&mut self.x.to_wires_vec());
        ids.append(&mut self.y.to_wires_vec());
        ids.append(&mut self.z.to_wires_vec());
        assert(ids@ =~= self.wire_ids());
        ids
    }

    /// Issues as many wires again.
    pub fn clone_from<C: CircuitContext>(&self, circuit: &mut C) -> (r: Self)
        ensures
            r.shaped(),
            r.wire_ids().len() == 762,
            consecutive(r.wire_ids(), old(circuit).wires().len()),
            final(circuit).wires() == old(circuit).wires() + zeros(762),
    {
        G1Projective::new(circuit)
    }
}

impl G2Projective {
    /// There are as many wires as digits.
    pub open spec fn shaped(&self) -> bool {
        self.x.shaped() && self.y.shaped() && self.z.shaped()
    }

    /// Issues wires for an input.
    pub fn new<C: CircuitContext>(circuit: &mut C) -> (r: Self)
        ensures
            r.shaped(),
            r.wire_ids().len() == 1524,
            consecutive(r.wire_ids(), old(circuit).wires().len()),
            final(circuit).wires() == old(circuit).wires() + zeros(1524),
    {
        let ghost s0 = circuit.wires();
        let x = Fq2::new(circuit);
        let y = Fq2::new(circuit);
        let z = Fq2::new(circuit);
        assert(circuit.wires() =~= s0 + zeros(1524));
        G2Projective { x, y, z }
    }

    /// The wires, in order.
    pub fn to_wires_vec(&self) -> (r: Vec<WireId>)
        ensures
            r@ == self.wire_ids(),
    {
        let mut ids: Vec<WireId> = Vec::new();
        ids.append(&mut self.x.to_wires_vec());
        ids.append(&mut self.y.to_wires_vec());
        ids.append(&mut self.z.to_wires_vec());
        assert(ids@ =~= self.wire_ids());
        ids
    }

    /// Issues as many wires again.
    pub fn clone_from<C: CircuitContext>(&self, circuit: &mut C) -> (r: Self)
        ensures
            r.shaped(),
            r.wire_ids().len() == 1524,
            consecutive(r.wire_ids(), old(circuit).wires().len()),
            final(circuit).wires() == old(circuit).wires() + zeros(1524),
    {
        G2Projective::new(circuit)
    }
}

/// What wires carry after each of `w` was fed with its digit of `b`, in order.
pub open spec fn feed(s: Seq<bool>, w: Seq<WireId>, b: Seq<bool>) -> Seq<bool>
    decreases w.len(),
{
    if w.len() == 0 {
        s
    } else {
        feed(s, w.drop_last(), b.drop_last()).update(w.last().0 as int, b.last())
    }
}

proof fn lemma_in_range_drop_last(s: Seq<bool>, w: Seq<WireId>)
    requires
        in_range(s, w),
        w.len() > 0,
    ensures
        in_range(s, w.drop_last()),
        w.last().0 < s.len(),
{
    assert forall|i: int| 0 <= i < w.drop_last().len() implies (#[trigger] w.drop_last()[i]).0
        < s.len() by {
        assert(w[i].0 < s.len());
    }
    assert(w[w.len() - 1].0 < s.len());
}

pub proof fn lemma_feed_len(s: Seq<bool>, w: Seq<WireId>, b: Seq<bool>)
    requires
        in_range(s, w),
    ensures
        feed(s, w, b).len() == s.len(),
    decreases w.len(),
{
    if w.len() > 0 {
        lemma_in_range_drop_last(s, w);
        lemma_feed_len(s, w.drop_last(), b.drop_last());
    }
}

/// Feeding one list and then another is feeding both in one.
pub proof fn lemma_feed_concat(
    s: Seq<bool>,
    w1: Seq<WireId>,
    b1: Seq<bool>,
    w2: Seq<WireId>,
    b2: Seq<bool>,
)
    requires
        w1.len() == b1.len(),
        w2.len() == b2.len(),
    ensures
        feed(feed(s, w1, b1), w2, b2) == feed(s, w1 + w2, b1 + b2),
    decreases w2.len(),
{
    if w2.len() == 0 {
        assert(w1 + w2 =~= w1);
        assert(b1 + b2 =~= b1);
    } else {
        lemma_feed_concat(s, w1, b1, w2.drop_last(), b2.drop_last());
        assert((w1 + w2).drop_last() =~= w1 + w2.drop_last());
        assert((b1 + b2).drop_last() =~= b1 + b2.drop_last());
    }
}

/// A wire that is not among those fed keeps its value.
pub proof fn lemma_feed_other(s: Seq<bool>, w: Seq<WireId>, b: Seq<bool>, i: int)
    requires
        0 <= i < s.len(),
        in_range(s, w),
        forall|j: int| 0 <= j < w.len() ==> (#[trigger] w[j]).0 != i,
    ensures
        feed(s, w, b)[i] == s[i],
    decreases w.len(),
{
    if w.len() > 0 {
        lemma_in_range_drop_last(s, w);
        lemma_feed_len(s, w.drop_last(), b.drop_last());
        assert forall|j: int| 0 <= j < w.drop_last().len() implies (#[trigger] w.drop_last()[j]).0
            != i by {
            assert(w[j].0 != i);
        }
        lemma_feed_other(s, w.drop_last(), b.drop_last(), i);
        assert(w.last() == w[w.len() - 1]);
    }
}

/// Different wires carry what they were fed.
pub proof fn lemma_feed_values(s: Seq<bool>, w: Seq<WireId>, b: Seq<bool>)
    requires
        w.len() == b.len(),
        in_range(s, w),
        w.no_duplicates(),
    ensures
        values(feed(s, w, b), w) == b,
    decreases w.len(),
{
    if w.len() > 0 {
        let w0 = w.drop_last();
        let b0 = b.drop_last();
        let s0 = feed(s, w0, b0);
        lemma_in_range_drop_last(s, w);
        lemma_feed_len(s, w0, b0);
        lemma_feed_values(s, w0, b0);
        let t = feed(s, w, b);
        assert forall|i: int| 0 <= i < w.len() implies #[trigger] values(t, w)[i] == b[i] by {
            if i < w0.len() {
                assert(w[i] != w.last());
                assert(w[i].0 != w.last().0);
                assert(values(s0, w0)[i] == b0[i]);
                assert(w[i].0 < s.len());
            } else {
                assert(w[i].0 < s.len());
            }
        }
        assert(values(t, w) =~= b);
    } else {
        assert(values(feed(s, w, b), w) =~= b);
    }
}

/// Feeds wires with the digits of a number.
pub fn feed_number(cache: &mut ExecuteMode, w: &Vec<WireId>, v: FqValue)
    requires
        w.len() == N_BITS,
        in_range(old(cache).wires(), w@),
        v@ < pow2(254),
    ensures
        final(cache).wires() == feed(old(cache).wires(), w@, digits(v@, 254)),
        final(cache).wires().len() == old(cache).wires().len(),
{
    let b = bits_from_number(v);
    let ghost s0 = cache.wires();
    let mut i: usize = 0;
    assert(w@.take(0) =~= Seq::<WireId>::empty());
    while i < N_BITS
        invariant
            i <= N_BITS == w.len() == b.len(),
            in_range(s0, w@),
            cache.wires().len() == s0.len(),
            cache.wires() == feed(s0, w@.take(i as int), b@.take(i as int)),
        decreases N_BITS - i,
    {
        assert(w@[i as int].0 < s0.len());
        cache.feed_wire(w[i], b[i]);
        i = i + 1;
        assert(w@.take(i as int).drop_last() =~= w@.take(i - 1));
        assert(b@.take(i as int).drop_last() =~= b@.take(i - 1));
    }
    assert(w@.take(i as int) =~= w@);
    assert(b@.take(i as int) =~= b@);
}

/// The digits of the Montgomery representation of an element.
pub open spec fn fq_digits(v: nat) -> Seq<bool> {
    digits(encode(v), 254)
}

pub open spec fn fq2_digits(v: Ext2) -> Seq<bool> {
    fq_digits(v.c0) + fq_digits(v.c1)
}

pub open spec fn g1_digits(p: Jac1) -> Seq<bool> {
    fq_digits(p.x) + fq_digits(p.y) + fq_digits(p.z)
}

pub open spec fn g2_digits(p: Jac2) -> Seq<bool> {
    fq2_digits(p.x) + fq2_digits(p.y) + fq2_digits(p.z)
}

/// Feeds wires with the Montgomery representation of an element.
pub fn feed_fq(cache: &mut ExecuteMode, w: &Fq, v: FqValue)
    requires
        w.shaped(),
        in_range(old(cache).wires(), w.wire_ids()),
        v.valid(),
    ensures
        final(cache).wires() == feed(old(cache).wires(), w.wire_ids(), fq_digits(v@)),
        final(cache).wires().len() == old(cache).wires().len(),
{
    proof {
        lemma_modulus_bits();
    }
    feed_number(cache, &w.0, fq_as_montgomery(v));
}

pub proof fn lemma_in_range_concat(s: Seq<bool>, w1: Seq<WireId>, w2: Seq<WireId>)
    requires
        in_range(s, w1 + w2),
    ensures
        in_range(s, w1),
        in_range(s, w2),
{
    assert forall|i: int| 0 <= i < w1.len() implies (#[trigger] w1[i]).0 < s.len() by {
        assert((w1 + w2)[i].0 < s.len());
    }
    assert forall|i: int| 0 <= i < w2.len() implies (#[trigger] w2[i]).0 < s.len() by {
        assert((w1 + w2)[w1.len() + i].0 < s.len());
    }
}

pub fn feed_fq2(cache: &mut ExecuteMode, w: &Fq2, v: Fq2Value)
    requires
        w.shaped(),
        in_range(old(cache).wires(), w.wire_ids()),
        v.valid(),
    ensures
        final(cache).wires() == feed(old(cache).wires(), w.wire_ids(), fq2_digits(v@)),
        final(cache).wires().len() == old(cache).wires().len(),
{
    let ghost s0 = cache.wires();
    proof {
        lemma_in_range_concat(s0, w.c0.wire_ids(), w.c1.wire_ids());
    }
    feed_fq(cache, &w.c0, v.c0);
    feed_fq(cache, &w.c1, v.c1);
    proof {
        lemma_feed_concat(
            s0,
            w.c0.wire_ids(),
            fq_digits(v@.c0),
            w.c1.wire_ids(),
            fq_digits(v@.c1),
        );
    }
}

pub fn feed_g1(cache: &mut ExecuteMode, w: &G1Projective, v: G1ProjectiveValue)
    requires
        w.shaped(),
        in_range(old(cache).wires(), w.wire_ids()),
        v.valid(),
    ensures
        final(cache).wires() == feed(old(cache).wires(), w.wire_ids(), g1_digits(v@)),
        final(cache).wires().len() == old(cache).wires().len(),
{
    let ghost s0 = cache.wires();
    let ghost x = w.x.wire_ids();
    let ghost y = w.y.wire_ids();
    let ghost z = w.z.wire_ids();
    proof {
        lemma_in_range_concat(s0, x + y, z);
        lemma_in_range_concat(s0, x, y);
    }
    feed_fq(cache, &w.x, v.x);
    feed_fq(cache, &w.y, v.y);
    feed_fq(cache, &w.z, v.z);
    proof {
        lemma_feed_concat(s0, x, fq_digits(v@.x), y, fq_digits(v@.y));
        lemma_feed_concat(s0, x + y, fq_digits(v@.x) + fq_digits(v@.y), z, fq_digits(v@.z));
    }
}

pub fn feed_g2(cache: &mut ExecuteMode, w: &G2Projective, v: G2ProjectiveValue)
    requires
        w.shaped(),
        in_range(old(cache).wires(), w.wire_ids()),
        v.valid(),
    ensures
        final(cache).wires() == feed(old(cache).wires(), w.wire_ids(), g2_digits(v@)),
        final(cache).wires().len() == old(cache).wires().len(),
{
    let ghost s0 = cache.wires();
    let ghost x = w.x.wire_ids();
    let ghost y = w.y.wire_ids();
    let ghost z = w.z.wire_ids();
    proof {
        lemma_in_range_concat(s0, x + y, z);
        lemma_in_range_concat(s0, x, y);
    }
    feed_fq2(cache, &w.x, v.x);
    feed_fq2(cache, &w.y, v.y);
    feed_fq2(cache, &w.z, v.z);
    proof {
        lemma_feed_concat(s0, x, fq2_digits(v@.x), y, fq2_digits(v@.y));
        lemma_feed_concat(s0, x + y, fq2_digits(v@.x) + fq2_digits(v@.y), z, fq2_digits(v@.z));
    }
}

/// Wires that carry the digits of an element carry the element.
pub proof fn lemma_carries_fq(s: Seq<bool>, w: Fq, v: nat)
    requires
        v < modulus(),
        in_range(s, w.wire_ids()),
        values(s, w.wire_ids()) == fq_digits(v),
    ensures
        w.ok(s),
        w.val(s) == v,
{
    lemma_modulus_bits();
    crate::math::field::lemma_encode_reduced(v);
    lemma_digits_value(encode(v), 254);
    lemma_decode_encode(v);
    reveal(is_element);
    reveal(element);
    assert(w.0@.len() == values(s, w.0@).len());
}

/// Two lists of wires carry what their concatenation carries.
pub proof fn lemma_carries_concat(
    s: Seq<bool>,
    w1: Seq<WireId>,
    w2: Seq<WireId>,
    b1: Seq<bool>,
    b2: Seq<bool>,
)
    requires
        w1.len() == b1.len(),
        in_range(s, w1 + w2),
        values(s, w1 + w2) == b1 + b2,
    ensures
        in_range(s, w1),
        in_range(s, w2),
        values(s, w1) == b1,
        values(s, w2) == b2,
{
    lemma_in_range_concat(s, w1, w2);
    let v = values(s, w1 + w2);
    assert(v.len() == w1.len() + w2.len());
    assert(values(s, w1) =~= v.take(w1.len() as int));
    assert(values(s, w2) =~= v.skip(w1.len() as int));
    assert(b1 =~= (b1 + b2).take(w1.len() as int));
    assert(b2 =~= (b1 + b2).skip(w1.len() as int));
}

pub proof fn lemma_carries_fq2(s: Seq<bool>, w: Fq2, v: Ext2)
    requires
        w.shaped(),
        crate::math::tower::reduced2(v),
        in_range(s, w.wire_ids()),
        values(s, w.wire_ids()) == fq2_digits(v),
    ensures
        w.ok(s),
        w.val(s) == v,
{
    lemma_carries_concat(s, w.c0.wire_ids(), w.c1.wire_ids(), fq_digits(v.c0), fq_digits(v.c1));
    lemma_carries_fq(s, w.c0, v.c0);
    lemma_carries_fq(s, w.c1, v.c1);
    reveal(Fq2::ok);
    reveal(Fq2::val);
}

pub proof fn lemma_carries_g1(s: Seq<bool>, w: G1Projective, v: Jac1)
    requires
        w.shaped(),
        crate::math::curve::reduced_jac1(v),
        in_range(s, w.wire_ids()),
        values(s, w.wire_ids()) == g1_digits(v),
    ensures
        w.ok(s),
        w.val(s) == v,
{
    let x = w.x.wire_ids();
    let y = w.y.wire_ids();
    let z = w.z.wire_ids();
    lemma_carries_concat(s, x + y, z, fq_digits(v.x) + fq_digits(v.y), fq_digits(v.z));
    lemma_carries_concat(s, x, y, fq_digits(v.x), fq_digits(v.y));
    lemma_carries_fq(s, w.x, v.x);
    lemma_carries_fq(s, w.y, v.y);
    lemma_carries_fq(s, w.z, v.z);
    reveal(G1Projective::ok);
    reveal(G1Projective::val);
}

pub proof fn lemma_carries_g2(s: Seq<bool>, w: G2Projective, v: Jac2)
    requires
        w.shaped(),
        crate::math::curve::reduced_jac2(v),
        in_range(s, w.wire_ids()),
        values(s, w.wire_ids()) == g2_digits(v),
    ensures
        w.ok(s),
        w.val(s) == v,
{
    let x = w.x.wire_ids();
    let y = w.y.wire_ids();
    let z = w.z.wire_ids();
    lemma_carries_concat(s, x + y, z, fq2_digits(v.x) + fq2_digits(v.y), fq2_digits(v.z));
    lemma_carries_concat(s, x, y, fq2_digits(v.x), fq2_digits(v.y));
    lemma_carries_fq2(s, w.x, v.x);
    lemma_carries_fq2(s, w.y, v.y);
    lemma_carries_fq2(s, w.z, v.z);
    reveal(G2Projective::ok);
    reveal(G2Projective::val);
}

} // verus!
