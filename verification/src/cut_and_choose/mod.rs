//! The cut-and-choose protocol: many instances of a circuit are garbled and
//! committed to, some are opened for inspection and the others are kept for
//! evaluation.

use crate::bytes::{hex, write_commit_hex};
use crate::circuit::{has_wire, step, wf, wire_value, CircuitContext, WireId};
use crate::gadgets::groth16::{
    groth16_verify_compressed_with_pairing, Groth16VerifyCompressedInputWires,
};
use crate::hashers::sha256::{
    commit_label_with, Commit, DefaultLabelCommitHasher, LabelCommitHasher,
};
use crate::label::{lemma_xor_twice, S};
use crate::native::tower::Fq12Value;
use vstd::prelude::*;
use vstd::string::StringExecFns;

pub mod ciphertext_repository;
pub mod garbler;
pub mod laws;

verus! {

/// The seed that an instance is garbled from.
pub type Seed = u64;

/// The bound on lanes that are chosen automatically.
pub const DEFAULT_LANES: usize = 8;

/// The hash of all ciphertexts of an instance.
pub type CiphertextCommit = [u8; 16];

/// Builds a circuit on wires that were issued for its input.
pub trait ModeBuilder<W> {
    /// Whether the circuit can be built on these wires.
    spec fn accepts(&self, s: Seq<bool>, irepr: W) -> bool;

    /// The circuit's output for what the wires carry.
    spec fn output(&self, s: Seq<bool>, irepr: W) -> bool;

    fn build_single<C: CircuitContext>(&self, root: &mut C, irepr: &W) -> (r: WireId)
        requires
            wf(old(root).wires()),
            self.accepts(old(root).wires(), *irepr),
        ensures
            step(old(root).wires(), final(root).wires()),
            has_wire(final(root).wires(), r),
            wire_value(final(root).wires(), r) == self.output(old(root).wires(), *irepr),
    ;
}

/// Builds the verifier of compressed proofs, for a given right side of the
/// verification equation.
#[derive(Clone, Copy, Debug)]
pub struct CompressedVerifier {
    pub alpha_beta: Fq12Value,
}

impl ModeBuilder<Groth16VerifyCompressedInputWires> for CompressedVerifier {
    open spec fn accepts(&self, s: Seq<bool>, irepr: Groth16VerifyCompressedInputWires) -> bool {
        irepr.ok(s) && self.alpha_beta.valid()
    }

    open spec fn output(&self, s: Seq<bool>, irepr: Groth16VerifyCompressedInputWires) -> bool {
        irepr.product(s) == self.alpha_beta@
    }

    fn build_single<C: CircuitContext>(
        &self,
        root: &mut C,
        irepr: &Groth16VerifyCompressedInputWires,
    ) -> (r: WireId) {
        groth16_verify_compressed_with_pairing(root, irepr, self.alpha_beta)
    }
}

/// Commitments to both labels of a wire.
#[derive(Clone, Copy, Debug, PartialEq, Eq)]
pub struct LabelCommit<H: Copy> {
    pub commit_label0: H,
    pub commit_label1: H,
}

/// A label with the nonce, where there is one, added.
pub open spec fn with_nonce(label: S, nonce: Option<S>) -> u128 {
    match nonce {
        Some(n) => label.0 ^ n.0,
        None => label.0,
    }
}

/// What is hashed for a label under a nonce gives the label back once the nonce is
/// added to it again, so that no two nonces give the same word for one label, and
/// no two labels for one nonce. Without a nonce it is the label itself.
pub proof fn lemma_with_nonce(label: S, other: S, nonce: S, next: S)
    ensures
        with_nonce(label, Some(nonce)) ^ nonce.0 == label.0,
        with_nonce(label, None) == label.0,
        with_nonce(label, Some(nonce)) == with_nonce(label, Some(next)) ==> nonce == next,
        with_nonce(label, Some(nonce)) == with_nonce(other, Some(nonce)) ==> label == other,
{
    lemma_xor_twice(label.0, nonce.0);
    lemma_xor_twice(label.0, next.0);
    lemma_xor_twice(other.0, nonce.0);
}

impl<H: Copy + View<V = Seq<u8>>> LabelCommit<H> {
    /// Commits to both labels, each with the nonce added where there is one.
    pub fn new<Hasher: LabelCommitHasher<Output = H>>(
        label0: S,
        label1: S,
        nonce: &Option<S>,
    ) -> (r: Self)
        ensures
            r.commit_label0@ == Hasher::commitment(with_nonce(label0, *nonce)),
            r.commit_label1@ == Hasher::commitment(with_nonce(label1, *nonce)),
            *nonce is None ==> r.commit_label0@ == Hasher::commitment(label0.0),
            *nonce is None ==> r.commit_label1@ == Hasher::commitment(label1.0),
            *nonce matches Some(n) ==> r.commit_label0@ == Hasher::commitment(label0.0 ^ n.0),
            *nonce matches Some(n) ==> r.commit_label1@ == Hasher::commitment(label1.0 ^ n.0),
    {
        match nonce {
            Some(n) => LabelCommit {
                commit_label0: commit_label_with::<Hasher>(label0.bitxor(*n)),
                commit_label1: commit_label_with::<Hasher>(label1.bitxor(*n)),
            },
            None => LabelCommit {
                commit_label0: commit_label_with::<Hasher>(label0),
                commit_label1: commit_label_with::<Hasher>(label1),
            },
        }
    }
}

impl<H: Copy> LabelCommit<H> {
    /// The commitment to the label that stands for a value.
    pub fn commit_for_value(&self, bit: bool) -> (r: H)
        ensures
            r == (if bit {
                self.commit_label1
            } else {
                self.commit_label0
            }),
    {
        if bit {
            self.commit_label1
        } else {
            self.commit_label0
        }
    }
}

impl<const N: usize> LabelCommit<[u8; N]> {
    /// Both commitments in hexadecimal digits.
    pub fn to_string(&self) -> (r: String)
        ensures
            r@ == "LabelCommit { label0: 0x"@ + hex(self.commit_label0@) + ", label1: 0x"@ + hex(
                self.commit_label1@,
            ) + " }"@,
    {
        let mut s = String::from_str("LabelCommit { label0: 0x");
        write_commit_hex(&mut s, self.commit_label0.as_slice());
        s.append(", label1: 0x");
        write_commit_hex(&mut s, self.commit_label1.as_slice());
        s.append(" }");
        s
    }
}

/// Commits to a label with the default hash.
pub fn commit_label(label: S) -> (r: Commit)
    ensures
        r@ == DefaultLabelCommitHasher::commitment(label.0),
{
    commit_label_with::<DefaultLabelCommitHasher>(label)
}

/// What both parties of the protocol agree on: how many instances are garbled,
/// how many of them are kept for evaluation, and the circuit's input.
#[derive(Clone, Debug, PartialEq, Eq)]
pub struct Config<I> {
    total: usize,
    to_finalize: usize,
    input: I,
}

impl<I> Config<I> {
    pub closed spec fn spec_total(&self) -> usize {
        self.total
    }

    pub closed spec fn spec_to_finalize(&self) -> usize {
        self.to_finalize
    }

    pub closed spec fn spec_input(&self) -> I {
        self.input
    }

    pub fn new(total: usize, to_finalize: usize, input: I) -> (r: Self)
        ensures
            r.spec_total() == total,
            r.spec_to_finalize() == to_finalize,
            r.spec_input() == input,
    {
        Config { total, to_finalize, input }
    }

    /// The number of instances.
    pub fn total(&self) -> (r: usize)
        ensures
            r == self.spec_total(),
    {
        self.total
    }

    /// The number of instances that stay closed.
    pub fn to_finalize(&self) -> (r: usize)
        ensures
            r == self.spec_to_finalize(),
    {
        self.to_finalize
    }

    /// The circuit's input.
    pub fn input(&self) -> (r: &I)
        ensures
            *r == self.spec_input(),
    {
        &self.input
    }
}

/// How many groups of `n` the instances make, the last one perhaps smaller.
pub open spec fn groups(instances: nat, n: nat) -> nat {
    if instances % n == 0 {
        instances / n
    } else {
        instances / n + 1
    }
}

/// Whether `n` lanes are allowed and leave work for all threads.
pub open spec fn lanes_fit(n: nat, instances: nat, threads: nat, lanes: nat) -> bool {
    n <= lanes && groups(instances, n) >= threads
}

/// The number of lanes: one where each instance can have a thread, else the
/// largest of sixteen, eight, four and two that is allowed and leaves work for
/// all threads, else as many as are allowed, up to eight.
pub open spec fn picked_lanes(instances: nat, threads: nat, lanes: nat) -> nat {
    if instances <= threads {
        1
    } else if lanes_fit(16, instances, threads, lanes) {
        16
    } else if lanes_fit(8, instances, threads, lanes) {
        8
    } else if lanes_fit(4, instances, threads, lanes) {
        4
    } else if lanes_fit(2, instances, threads, lanes) {
        2
    } else if lanes <= 8 {
        lanes
    } else {
        8
    }
}

/// Whether so many instances can be garbled side by side.
pub open spec fn lane_count(n: nat) -> bool {
    n == 1 || n == 2 || n == 4 || n == 8 || n == 16
}

/// Where the bound is a number of lanes, so is the number chosen, and it is
/// within the bound.
pub proof fn lemma_picked_lanes(instances: nat, threads: nat, lanes: nat)
    requires
        lane_count(lanes),
    ensures
        lane_count(picked_lanes(instances, threads, lanes)),
        picked_lanes(instances, threads, lanes) <= lanes,
{
}

/// The groups have room for all instances, and one group less has not.
pub proof fn lemma_groups(instances: nat, n: nat)
    requires
        n > 0,
    ensures
        groups(instances, n) * n >= instances,
        (groups(instances, n) - 1) * n < instances,
{
    vstd::arithmetic::div_mod::lemma_fundamental_div_mod(instances as int, n as int);
    let (q, r) = (instances / n, instances % n);
    assert(q * n == n * q && (q + 1) * n == n * q + n && (q - 1) * n == n * q - n)
        by (nonlinear_arith);
}

/// So many groups are enough for all threads where one group less for each of
/// them but one would leave instances over.
proof fn lemma_enough_groups(instances: nat, n: nat, threads: nat)
    requires
        n > 0,
    ensures
        groups(instances, n) >= threads <==> (threads - 1) * n < instances,
{
    let g = groups(instances, n);
    lemma_groups(instances, n);
    assert(g >= threads ==> (threads - 1) * n <= (g - 1) * n) by (nonlinear_arith)
        requires
            n > 0,
    ;
    assert(g < threads ==> g * n <= (threads - 1) * n) by (nonlinear_arith)
        requires
            n > 0,
    ;
}

/// The number of lanes is one where each instance can have a thread. Else it is
/// the largest of two, four, eight and sixteen that is allowed and leaves work for
/// the last thread when all others have a full group, and where there is none, as
/// many as are allowed, up to eight.
pub proof fn lemma_best_lanes(instances: nat, threads: nat, lanes: nat, c: nat)
    requires
        c == 2 || c == 4 || c == 8 || c == 16,
    ensures
        instances <= threads ==> picked_lanes(instances, threads, lanes) == 1,
        instances > threads && c <= lanes && (threads - 1) * c < instances ==> ({
            let r = picked_lanes(instances, threads, lanes);
            &&& c <= r <= lanes
            &&& r == 2 || r == 4 || r == 8 || r == 16
            &&& (threads - 1) * r < instances
        }),
        instances > threads && (lanes < 2 || (threads - 1) * 2 >= instances) && (lanes < 4 || (
        threads - 1) * 4 >= instances) && (lanes < 8 || (threads - 1) * 8 >= instances) && (lanes
            < 16 || (threads - 1) * 16 >= instances) ==> picked_lanes(instances, threads, lanes)
            == (if lanes <= 8 {
            lanes
        } else {
            8
        }),
{
    lemma_enough_groups(instances, 2, threads);
    lemma_enough_groups(instances, 4, threads);
    lemma_enough_groups(instances, 8, threads);
    lemma_enough_groups(instances, 16, threads);
}

fn group_count(instances: usize, n: usize) -> (r: usize)
    requires
        n >= 2,
    ensures
        r == groups(instances as nat, n as nat),
{
    let q = instances / n;
    if instances % n == 0 {
        q
    } else {
        assert(q <= instances / 2) by (nonlinear_arith)
            requires
                q == instances / n,
                n >= 2,
        ;
        q + 1
    }
}

/// Chooses the number of lanes.
pub fn pick_lanes(instances: usize, threads: usize, lanes: usize) -> (r: usize)
    ensures
        r == picked_lanes(instances as nat, threads as nat, lanes as nat),
{
    if instances <= threads {
        return 1;
    }
    if 16 <= lanes && group_count(instances, 16) >= threads {
        return 16;
    }
    if 8 <= lanes && group_count(instances, 8) >= threads {
        return 8;
    }
    if 4 <= lanes && group_count(instances, 4) >= threads {
        return 4;
    }
    if 2 <= lanes && group_count(instances, 2) >= threads {
        return 2;
    }
    if lanes <= 8 {
        lanes
    } else {
        8
    }
}

/// Chooses the cores, by their position, that `n` threads are pinned to: every
/// other one where there are twice as many cores as threads, else the first
/// ones, and none where the cores are not known.
pub fn select_cores_for_affinity(cores: Option<usize>, n: usize) -> (r: Vec<usize>)
    ensures
        match cores {
            Some(count) => if count >= 2 * n {
                r@ =~= Seq::new(n as nat, |i: int| (2 * i) as usize)
            } else if count >= n {
                r@ =~= Seq::new(n as nat, |i: int| i as usize)
            } else {
                r@ =~= Seq::new(count as nat, |i: int| i as usize)
            },
            None => r@.len() == 0,
        },
{
    let mut r: Vec<usize> = Vec::new();
    match cores {
        Some(count) => {
            let every_other = n <= count / 2;
            let take = if n <= count {
                n
            } else {
                count
            };
            let mut i: usize = 0;
            while i < take
                invariant
                    i <= take <= count,
                    every_other ==> 2 * take <= count,
                    r@.len() == i,
                    forall|j: int|
                        0 <= j < i ==> #[trigger] r@[j] == (if every_other {
                            2 * j
                        } else {
                            j
                        }),
                decreases take - i,
            {
                if every_other {
                    r.push(2 * i);
                } else {
                    r.push(i);
                }
                i = i + 1;
            }
        },
        None => {},
    }
    r
}

} // verus!
