//! The garbler's side of the protocol: its instances, the commitments to them,
//! and their opening.

use crate::cut_and_choose::{
    lane_count, pick_lanes, picked_lanes, with_nonce, CiphertextCommit, Config, LabelCommit, Seed,
    DEFAULT_LANES,
};
use crate::hashers::sha256::{commit_label_with, DefaultLabelCommitHasher, LabelCommitHasher};
use crate::label::{GarbledWire, S};
use crate::order::{
    in_order, increasing, lemma_in_order_within, list_contains, sorted, sorted_unique,
};
use crate::soldering::WiresInput;
use vstd::prelude::*;

verus! {

/// A garbled circuit, as far as it is kept: the labels of its constant, output
/// and input wires, and the hash of its ciphertexts.
#[derive(Debug)]
pub struct GarbledInstance {
    pub false_wire_constant: GarbledWire,
    pub true_wire_constant: GarbledWire,
    pub output_wire_values: GarbledWire,
    pub input_wire_values: Vec<GarbledWire>,
    pub ciphertext_handler_result: CiphertextCommit,
}

/// What an instance is, apart from where it is held.
pub struct InstanceModel {
    pub false_wire_constant: GarbledWire,
    pub true_wire_constant: GarbledWire,
    pub output_wire_values: GarbledWire,
    pub input_wire_values: Seq<GarbledWire>,
    pub ciphertext_handler_result: Seq<u8>,
}

impl View for GarbledInstance {
    type V = InstanceModel;

    open spec fn view(&self) -> InstanceModel {
        InstanceModel {
            false_wire_constant: self.false_wire_constant,
            true_wire_constant: self.true_wire_constant,
            output_wire_values: self.output_wire_values,
            input_wire_values: self.input_wire_values@,
            ciphertext_handler_result: self.ciphertext_handler_result@,
        }
    }
}

pub open spec fn instance_models(s: Seq<GarbledInstance>) -> Seq<InstanceModel> {
    Seq::new(s.len(), |i: int| s[i]@)
}

/// What garbling several instances side by side gives: for each wire and each
/// lane its labels, and for each lane the hash of its ciphertexts.
#[derive(Debug)]
pub struct LaneOutputs {
    pub false_wire_constant: Vec<GarbledWire>,
    pub true_wire_constant: Vec<GarbledWire>,
    pub output_value: Vec<GarbledWire>,
    /// One row for each input wire, with one entry for each lane.
    pub input_wire_values: Vec<Vec<GarbledWire>>,
    pub ciphertext_handler_result: Vec<CiphertextCommit>,
}

impl LaneOutputs {
    /// There are `n` lanes everywhere.
    pub open spec fn has_lanes(&self, n: nat) -> bool {
        &&& self.false_wire_constant@.len() == n
        &&& self.true_wire_constant@.len() == n
        &&& self.output_value@.len() == n
        &&& self.ciphertext_handler_result@.len() == n
        &&& forall|j: int|
            0 <= j < self.input_wire_values@.len() ==> (#[trigger] self.input_wire_values@[j])@.len()
                == n
    }

    /// The instance of a lane.
    pub open spec fn lane(&self, i: int) -> InstanceModel {
        InstanceModel {
            false_wire_constant: self.false_wire_constant@[i],
            true_wire_constant: self.true_wire_constant@[i],
            output_wire_values: self.output_value@[i],
            input_wire_values: Seq::new(
                self.input_wire_values@.len(),
                |j: int| self.input_wire_values@[j]@[i],
            ),
            ciphertext_handler_result: self.ciphertext_handler_result@[i]@,
        }
    }

    /// The instances of the first `m` lanes.
    pub open spec fn lanes(&self, m: nat) -> Seq<InstanceModel> {
        Seq::new(m, |i: int| self.lane(i))
    }
}

/// The seeds of `n` lanes: those of the chunk, and the last one again for the
/// lanes that are left.
pub fn lane_seeds(chunk: &[Seed], n: usize) -> (r: Vec<Seed>)
    requires
        chunk@.len() <= n,
    ensures
        r@.len() == n,
        forall|i: int|
            0 <= i < n ==> #[trigger] r@[i] == (if i < chunk@.len() {
                chunk@[i]
            } else if chunk@.len() > 0 {
                chunk@.last()
            } else {
                0
            }),
{
    let m = chunk.len();
    let last: Seed = if m > 0 {
        chunk[m - 1]
    } else {
        0
    };
    let mut r: Vec<Seed> = Vec::new();
    let mut i: usize = 0;
    while i < n
        invariant
            i <= n,
            m == chunk@.len(),
            m > 0 ==> last == chunk@.last(),
            m == 0 ==> last == 0,
            r@.len() == i,
            forall|j: int|
                0 <= j < i ==> #[trigger] r@[j] == (if j < chunk@.len() {
                    chunk@[j]
                } else if chunk@.len() > 0 {
                    chunk@.last()
                } else {
                    0
                }),
        decreases n - i,
    {
        if i < m {
            r.push(chunk[i]);
        } else {
            r.push(last);
        }
        i = i + 1;
    }
    r
}

/// The instances of a chunk of `m` seeds, from what garbling them side by side
/// gave. Lanes beyond the chunk are dropped.
pub fn garble_multilane_chunk(m: usize, res: &LaneOutputs, n: usize) -> (r: Vec<GarbledInstance>)
    requires
        m <= n,
        res.has_lanes(n as nat),
    ensures
        instance_models(r@) == res.lanes(m as nat),
        r@.len() == m,
        forall|i: int|
            0 <= i < m ==> {
                &&& (#[trigger] r@[i]).false_wire_constant == res.false_wire_constant@[i]
                &&& r@[i].true_wire_constant == res.true_wire_constant@[i]
                &&& r@[i].output_wire_values == res.output_value@[i]
                &&& r@[i].ciphertext_handler_result == res.ciphertext_handler_result@[i]
                &&& r@[i].input_wire_values@.len() == res.input_wire_values@.len()
            },
        forall|i: int, j: int|
            0 <= i < m && 0 <= j < res.input_wire_values@.len()
                ==> #[trigger] r@[i].input_wire_values@[j] == res.input_wire_values@[j]@[i],
{
    let mut out: Vec<GarbledInstance> = Vec::new();
    let mut i: usize = 0;
    while i < m
        invariant
            i <= m <= n,
            res.has_lanes(n as nat),
            out@.len() == i,
            forall|k: int| 0 <= k < i ==> (#[trigger] out@[k])@ == res.lane(k),
            forall|k: int|
                0 <= k < i ==> {
                    &&& (#[trigger] out@[k]).false_wire_constant == res.false_wire_constant@[k]
                    &&& out@[k].true_wire_constant == res.true_wire_constant@[k]
                    &&& out@[k].output_wire_values == res.output_value@[k]
                    &&& out@[k].ciphertext_handler_result == res.ciphertext_handler_result@[k]
                    &&& out@[k].input_wire_values@.len() == res.input_wire_values@.len()
                },
            forall|k: int, j: int|
                0 <= k < i && 0 <= j < res.input_wire_values@.len()
                    ==> #[trigger] out@[k].input_wire_values@[j] == res.input_wire_values@[j]@[k],
        decreases m - i,
    {
        let mut inputs: Vec<GarbledWire> = Vec::new();
        let mut j: usize = 0;
        while j < res.input_wire_values.len()
            invariant
                i < n,
                res.has_lanes(n as nat),
                j <= res.input_wire_values@.len(),
                inputs@.len() == j,
                forall|k: int|
                    0 <= k < j ==> #[trigger] inputs@[k] == res.input_wire_values@[k]@[i as int],
            decreases res.input_wire_values@.len() - j,
        {
            assert(res.input_wire_values@[j as int]@.len() == n);
            inputs.push(res.input_wire_values[j][i]);
            j = j + 1;
        }
        assert(inputs@ =~= res.lane(i as int).input_wire_values);
        out.push(
            GarbledInstance {
                false_wire_constant: res.false_wire_constant[i],
                true_wire_constant: res.true_wire_constant[i],
                output_wire_values: res.output_value[i],
                input_wire_values: inputs,
                ciphertext_handler_result: res.ciphertext_handler_result[i],
            },
        );
        i = i + 1;
    }
    assert(instance_models(out@) =~= res.lanes(m as nat));
    out
}

/// The next batch of what is left: the largest that is allowed and full.
pub open spec fn next_batch(left: nat, lanes: nat) -> nat {
    if lanes >= 16 && left >= 16 {
        16
    } else if lanes >= 8 && left >= 8 {
        8
    } else if lanes >= 4 && left >= 4 {
        4
    } else if lanes >= 2 && left >= 2 {
        2
    } else {
        1
    }
}

/// The sizes of the batches of what is left.
pub open spec fn batch_sizes(left: nat, lanes: nat) -> Seq<nat>
    decreases left,
{
    if left == 0 {
        Seq::empty()
    } else {
        seq![next_batch(left, lanes)] + batch_sizes(
            (left - next_batch(left, lanes)) as nat,
            lanes,
        )
    }
}

pub open spec fn sum_of(s: Seq<nat>) -> nat
    decreases s.len(),
{
    if s.len() == 0 {
        0
    } else {
        s[0] + sum_of(s.skip(1))
    }
}

/// The batches take all instances, each of them is full, and none has more
/// lanes than are allowed.
pub proof fn lemma_batches_cover(total: nat, lanes: nat)
    requires
        lane_count(lanes),
    ensures
        sum_of(batch_sizes(total, lanes)) == total,
        forall|i: int|
            0 <= i < batch_sizes(total, lanes).len() ==> lane_count(
                #[trigger] batch_sizes(total, lanes)[i],
            ) && batch_sizes(total, lanes)[i] <= lanes,
    decreases total,
{
    if total > 0 {
        let t = next_batch(total, lanes);
        let rest = batch_sizes((total - t) as nat, lanes);
        let all = batch_sizes(total, lanes);
        lemma_batches_cover((total - t) as nat, lanes);
        assert(all.skip(1) =~= rest);
        assert forall|i: int| 0 <= i < all.len() implies lane_count(#[trigger] all[i]) && all[i]
            <= lanes by {
            if i > 0 {
                assert(all[i] == rest[i - 1]);
            }
        }
    }
}

/// All batches but those at the end have as many lanes as are allowed: these
/// are as many as fit into the instances.
pub proof fn lemma_head_batches(total: nat, lanes: nat, i: int)
    requires
        lane_count(lanes),
        0 <= i < total / lanes,
    ensures
        i < batch_sizes(total, lanes).len(),
        batch_sizes(total, lanes)[i] == lanes,
    decreases total,
{
    assert(total >= lanes) by (nonlinear_arith)
        requires
            total / lanes > 0,
            lanes > 0,
    ;
    let t = next_batch(total, lanes);
    assert(t == lanes);
    let rest = (total - lanes) as nat;
    assert(rest / lanes == total / lanes - 1) by {
        vstd::arithmetic::div_mod::lemma_div_minus_one(total as int, lanes as int);
    }
    if i > 0 {
        lemma_head_batches(rest, lanes, i - 1);
        assert(batch_sizes(total, lanes)[i] == batch_sizes(rest, lanes)[i - 1]);
    }
}

/// Plans the batches in which instances are garbled.
pub fn plan_batches(total: usize, lanes: usize) -> (r: Vec<usize>)
    requires
        lane_count(lanes as nat),
    ensures
        r@.len() == batch_sizes(total as nat, lanes as nat).len(),
        forall|i: int|
            0 <= i < r@.len() ==> #[trigger] r@[i] == batch_sizes(total as nat, lanes as nat)[i],
{
    let ghost all = batch_sizes(total as nat, lanes as nat);
    let mut r: Vec<usize> = Vec::new();
    let mut left: usize = total;
    assert(all.skip(0) =~= all);
    while left > 0
        invariant
            lane_count(lanes as nat),
            all == batch_sizes(total as nat, lanes as nat),
            r@.len() <= all.len(),
            all.skip(r@.len() as int) == batch_sizes(left as nat, lanes as nat),
            forall|i: int| 0 <= i < r@.len() ==> #[trigger] r@[i] == all[i],
        decreases left,
    {
        let take: usize = if lanes >= 16 && left >= 16 {
            16
        } else if lanes >= 8 && left >= 8 {
            8
        } else if lanes >= 4 && left >= 4 {
            4
        } else if lanes >= 2 && left >= 2 {
            2
        } else {
            1
        };
        let ghost k = r@.len() as int;
        proof {
            let rest = batch_sizes(left as nat, lanes as nat);
            assert(rest[0] == take);
            assert(all.skip(k).len() == all.len() - k);
            assert(all.skip(k)[0] == all[k]);
            assert(all.skip(k + 1) =~= all.skip(k).skip(1));
            assert(rest.skip(1) =~= batch_sizes((left - take) as nat, lanes as nat));
        }
        r.push(take);
        left = left - take;
    }
    r
}

/// The number of lanes for so many instances and threads.
pub open spec fn opt_cpu_lanes(total: usize, threads: usize) -> nat {
    picked_lanes(
        total as nat,
        if threads == 0 {
            1
        } else {
            threads as nat
        },
        DEFAULT_LANES as nat,
    )
}

/// The sizes of the batches for so many instances and threads.
pub open spec fn opt_cpu_sizes(total: usize, threads: usize) -> Seq<nat> {
    batch_sizes(total as nat, opt_cpu_lanes(total, threads))
}

/// Plans the batches for so many instances and threads.
pub fn opt_cpu_batches(total: usize, threads: usize) -> (r: Vec<usize>)
    ensures
        r@.len() == opt_cpu_sizes(total, threads).len(),
        forall|i: int| 0 <= i < r@.len() ==> #[trigger] r@[i] == opt_cpu_sizes(total, threads)[i],
{
    let threads = if threads == 0 {
        1
    } else {
        threads
    };
    plan_batches(total, pick_lanes(total, threads, DEFAULT_LANES))
}

/// Where the `k`-th batch starts.
pub open spec fn batch_start(sizes: Seq<nat>, k: int) -> int {
    sum_of(sizes.take(k)) as int
}

/// The first batch starts at the first instance, and each other where the one
/// before it ends.
pub proof fn lemma_batch_start(sizes: Seq<nat>, k: int)
    requires
        0 <= k < sizes.len(),
    ensures
        batch_start(sizes, 0) == 0,
        batch_start(sizes, k + 1) == batch_start(sizes, k) + sizes[k],
        batch_start(sizes, k + 1) <= sum_of(sizes),
    decreases sizes.len() - k,
{
    assert(sizes.take(0) =~= Seq::empty());
    assert(sizes.take(k + 1) =~= sizes.take(k).push(sizes[k]));
    lemma_sum_push(sizes.take(k), sizes[k]);
    if k + 1 < sizes.len() {
        lemma_batch_start(sizes, k + 1);
    } else {
        assert(sizes.take(k + 1) =~= sizes);
    }
}

/// The seeds of each batch: one after the other, as many as the batch has
/// lanes.
pub fn opt_cpu_seeds(seeds: &[Seed], threads: usize) -> (r: Vec<Vec<Seed>>)
    ensures
        r@.len() == opt_cpu_sizes(seeds@.len() as usize, threads).len(),
        forall|k: int|
            0 <= k < r@.len() ==> (#[trigger] r@[k])@ == seeds@.subrange(
                batch_start(opt_cpu_sizes(seeds@.len() as usize, threads), k),
                batch_start(opt_cpu_sizes(seeds@.len() as usize, threads), k + 1),
            ),
{
    let ghost all = opt_cpu_sizes(seeds@.len() as usize, threads);
    let total: usize = seeds.len();
    let sizes = opt_cpu_batches(total, threads);
    proof {
        lemma_batches_cover(total as nat, opt_cpu_lanes(total, threads));
        assert(all.take(0) =~= Seq::empty());
    }
    let mut r: Vec<Vec<Seed>> = Vec::new();
    let mut start: usize = 0;
    let mut k: usize = 0;
    while k < sizes.len()
        invariant
            k <= sizes@.len(),
            sizes@.len() == all.len(),
            forall|i: int| 0 <= i < all.len() ==> #[trigger] sizes@[i] == all[i],
            sum_of(all) == total,
            total == seeds@.len(),
            start == batch_start(all, k as int),
            start <= seeds@.len(),
            r@.len() == k,
            forall|i: int|
                0 <= i < k ==> (#[trigger] r@[i])@ == seeds@.subrange(
                    batch_start(all, i),
                    batch_start(all, i + 1),
                ),
        decreases sizes@.len() - k,
    {
        proof {
            lemma_batch_start(all, k as int);
        }
        let size: usize = sizes[k];
        let end: usize = start + size;
        let mut chunk: Vec<Seed> = Vec::new();
        let mut i: usize = start;
        while i < end
            invariant
                start <= i <= end <= seeds@.len(),
                chunk@ == seeds@.subrange(start as int, i as int),
            decreases end - i,
        {
            chunk.push(seeds[i]);
            i = i + 1;
            assert(chunk@ =~= seeds@.subrange(start as int, i as int));
        }
        r.push(chunk);
        start = end;
        k = k + 1;
    }
    r
}

/// The `j`-th lane of the `k`-th batch is the instance of the seed at the same
/// place: the instances stand in the order of their seeds.
pub proof fn lemma_instance_of_seed(
    batches: Seq<LaneOutputs>,
    sizes: Seq<nat>,
    n: nat,
    k: int,
    j: int,
)
    requires
        0 <= k < n <= sizes.len(),
        0 <= j < sizes[k],
    ensures
        batch_start(sizes, k) + j < batch_models(batches, sizes, n).len(),
        batch_models(batches, sizes, n)[batch_start(sizes, k) + j] == batches[k].lane(j),
    decreases n,
{
    lemma_batch_models_len(batches, sizes, n);
    lemma_batch_models_len(batches, sizes, (n - 1) as nat);
    lemma_batch_start(sizes, n - 1);
    if k < n - 1 {
        lemma_instance_of_seed(batches, sizes, (n - 1) as nat, k, j);
    }
}

/// The instances of the first `k` batches.
pub open spec fn batch_models(batches: Seq<LaneOutputs>, sizes: Seq<nat>, k: nat) -> Seq<
    InstanceModel,
>
    decreases k,
{
    if k == 0 {
        Seq::empty()
    } else {
        batch_models(batches, sizes, (k - 1) as nat) + batches[k - 1].lanes(sizes[k - 1])
    }
}

proof fn lemma_batch_models_len(batches: Seq<LaneOutputs>, sizes: Seq<nat>, k: nat)
    requires
        k <= sizes.len(),
    ensures
        batch_models(batches, sizes, k).len() == sum_of(sizes.take(k as int)),
    decreases k,
{
    if k > 0 {
        lemma_batch_models_len(batches, sizes, (k - 1) as nat);
        assert(sizes.take(k as int) =~= sizes.take(k - 1).push(sizes[k - 1]));
        lemma_sum_push(sizes.take(k - 1), sizes[k - 1]);
    }
}

proof fn lemma_sum_push(s: Seq<nat>, x: nat)
    ensures
        sum_of(s.push(x)) == sum_of(s) + x,
    decreases s.len(),
{
    if s.len() > 0 {
        lemma_sum_push(s.skip(1), x);
        assert(s.push(x).skip(1) =~= s.skip(1).push(x));
        assert(s.push(x)[0] == s[0]);
    } else {
        assert(s.push(x).skip(1) =~= s);
        assert(s.push(x)[0] == x);
    }
}

/// The hashes of a wire's two labels, each with the nonce added where there is
/// one.
pub open spec fn wire_commitment<H: LabelCommitHasher>(w: GarbledWire, nonce: Option<S>) -> (
    Seq<u8>,
    Seq<u8>,
) {
    (H::commitment(with_nonce(w.label0, nonce)), H::commitment(with_nonce(w.label1, nonce)))
}

pub open spec fn wire_commitments<H: LabelCommitHasher>(
    wires: Seq<GarbledWire>,
    nonce: Option<S>,
) -> Seq<(Seq<u8>, Seq<u8>)> {
    Seq::new(wires.len(), |i: int| wire_commitment::<H>(wires[i], nonce))
}

/// The bytes of commitments.
pub open spec fn commit_bytes<T: Copy + View<V = Seq<u8>>>(c: Seq<LabelCommit<T>>) -> Seq<
    (Seq<u8>, Seq<u8>),
> {
    Seq::new(c.len(), |i: int| (c[i].commit_label0@, c[i].commit_label1@))
}

/// The first commitment to an instance: to its ciphertexts, its input and
/// output labels, and its constants.
#[derive(PartialEq, Eq)]
pub struct CommitPhaseOne<H: LabelCommitHasher = DefaultLabelCommitHasher> {
    ciphertext_hash: CiphertextCommit,
    input_commitments: Vec<LabelCommit<H::Output>>,
    output_label1_commit: H::Output,
    output_label0_commit: H::Output,
    true_constant: u128,
    false_constant: u128,
}

/// What a first commitment says.
pub struct PhaseOneModel {
    pub ciphertext_hash: Seq<u8>,
    pub input_commitments: Seq<(Seq<u8>, Seq<u8>)>,
    pub output_label1_commit: Seq<u8>,
    pub output_label0_commit: Seq<u8>,
    pub true_constant: u128,
    pub false_constant: u128,
}

/// The first commitment to an instance.
pub open spec fn phase_one<H: LabelCommitHasher>(m: InstanceModel) -> PhaseOneModel {
    PhaseOneModel {
        ciphertext_hash: m.ciphertext_handler_result,
        input_commitments: wire_commitments::<H>(m.input_wire_values, None),
        output_label1_commit: H::commitment(m.output_wire_values.label1.0),
        output_label0_commit: H::commitment(m.output_wire_values.label0.0),
        true_constant: m.true_wire_constant.label1.0,
        false_constant: m.false_wire_constant.label0.0,
    }
}

fn commit_output_label1<H: LabelCommitHasher>(wire: &GarbledWire) -> (r: H::Output)
    ensures
        r@ == H::commitment(wire.label1.0),
{
    commit_label_with::<H>(wire.label1)
}

fn commit_output_label0<H: LabelCommitHasher>(wire: &GarbledWire) -> (r: H::Output)
    ensures
        r@ == H::commitment(wire.label0.0),
{
    commit_label_with::<H>(wire.label0)
}

fn commit_input_wires<H: LabelCommitHasher>(
    inputs: &Vec<GarbledWire>,
    nonce: Option<S>,
) -> (r: Vec<LabelCommit<H::Output>>)
    ensures
        commit_bytes(r@) == wire_commitments::<H>(inputs@, nonce),
        r@.len() == inputs@.len(),
        forall|i: int|
            0 <= i < inputs@.len() ==> match nonce {
                Some(n) => {
                    &&& (#[trigger] r@[i]).commit_label0@ == H::commitment(inputs@[i].label0.0 ^ n.0)
                    &&& r@[i].commit_label1@ == H::commitment(inputs@[i].label1.0 ^ n.0)
                },
                None => {
                    &&& r@[i].commit_label0@ == H::commitment(inputs@[i].label0.0)
                    &&& r@[i].commit_label1@ == H::commitment(inputs@[i].label1.0)
                },
            },
{
    let mut r: Vec<LabelCommit<H::Output>> = Vec::new();
    let mut i: usize = 0;
    while i < inputs.len()
        invariant
            i <= inputs@.len(),
            r@.len() == i,
            forall|j: int|
                0 <= j < i ==> ((#[trigger] r@[j]).commit_label0@, r@[j].commit_label1@)
                    == wire_commitment::<H>(inputs@[j], nonce),
            forall|j: int|
                0 <= j < i ==> match nonce {
                    Some(n) => {
                        &&& (#[trigger] r@[j]).commit_label0@ == H::commitment(
                            inputs@[j].label0.0 ^ n.0,
                        )
                        &&& r@[j].commit_label1@ == H::commitment(inputs@[j].label1.0 ^ n.0)
                    },
                    None => {
                        &&& r@[j].commit_label0@ == H::commitment(inputs@[j].label0.0)
                        &&& r@[j].commit_label1@ == H::commitment(inputs@[j].label1.0)
                    },
                },
        decreases inputs@.len() - i,
    {
        let w = inputs[i];
        r.push(LabelCommit::<H::Output>::new::<H>(w.label0, w.label1, &nonce));
        i = i + 1;
    }
    assert(commit_bytes(r@) =~= wire_commitments::<H>(inputs@, nonce));
    r
}

fn copy_commits<T: Copy>(c: &Vec<LabelCommit<T>>) -> (r: Vec<LabelCommit<T>>)
    ensures
        r@ == c@,
{
    let mut r: Vec<LabelCommit<T>> = Vec::new();
    let mut i: usize = 0;
    while i < c.len()
        invariant
            i <= c@.len(),
            r@ == c@.take(i as int),
        decreases c@.len() - i,
    {
        let x = LabelCommit { commit_label0: c[i].commit_label0, commit_label1: c[i].commit_label1 };
        r.push(x);
        i = i + 1;
        assert(r@ =~= c@.take(i as int));
    }
    assert(r@ =~= c@);
    r
}

impl<H: LabelCommitHasher> CommitPhaseOne<H> {
    pub closed spec fn model(&self) -> PhaseOneModel {
        PhaseOneModel {
            ciphertext_hash: self.ciphertext_hash@,
            input_commitments: commit_bytes(self.input_commitments@),
            output_label1_commit: self.output_label1_commit@,
            output_label0_commit: self.output_label0_commit@,
            true_constant: self.true_constant,
            false_constant: self.false_constant,
        }
    }

    pub fn new(
        ciphertext_hash: CiphertextCommit,
        input_commitments: Vec<LabelCommit<H::Output>>,
        output_label1_commit: H::Output,
        output_label0_commit: H::Output,
        true_constant: u128,
        false_constant: u128,
    ) -> (r: Self)
        ensures
            r.model() == (PhaseOneModel {
                ciphertext_hash: ciphertext_hash@,
                input_commitments: commit_bytes(input_commitments@),
                output_label1_commit: output_label1_commit@,
                output_label0_commit: output_label0_commit@,
                true_constant: true_constant,
                false_constant: false_constant,
            }),
            r.raw().ciphertext_hash == ciphertext_hash,
            r.raw().input_commitments == input_commitments,
            r.raw().output_label1_commit == output_label1_commit,
            r.raw().output_label0_commit == output_label0_commit,
            r.raw().true_constant == true_constant,
            r.raw().false_constant == false_constant,
    {
        CommitPhaseOne {
            ciphertext_hash,
            input_commitments,
            output_label1_commit,
            output_label0_commit,
            true_constant,
            false_constant,
        }
    }

    /// The first commitment to an instance, without nonce.
    pub fn from_instance(instance: &GarbledInstance) -> (r: Self)
        ensures
            r.model() == phase_one::<H>(instance@),
            r.model().ciphertext_hash == instance.ciphertext_handler_result@,
            r.model().true_constant == instance.true_wire_constant.label1.0,
            r.model().false_constant == instance.false_wire_constant.label0.0,
            r.model().output_label1_commit == H::commitment(instance.output_wire_values.label1.0),
            r.model().output_label0_commit == H::commitment(instance.output_wire_values.label0.0),
            r.model().input_commitments.len() == instance.input_wire_values@.len(),
            forall|i: int|
                0 <= i < instance.input_wire_values@.len()
                    ==> #[trigger] r.model().input_commitments[i] == (
                    H::commitment(instance.input_wire_values@[i].label0.0),
                    H::commitment(instance.input_wire_values@[i].label1.0),
                ),
    {
        CommitPhaseOne {
            ciphertext_hash: instance.ciphertext_handler_result,
            input_commitments: commit_input_wires::<H>(&instance.input_wire_values, None),
            output_label1_commit: commit_output_label1::<H>(&instance.output_wire_values),
            output_label0_commit: commit_output_label0::<H>(&instance.output_wire_values),
            true_constant: instance.true_wire_constant.select(true).to_u128(),
            false_constant: instance.false_wire_constant.select(false).to_u128(),
        }
    }

    pub fn ciphertext_hash(&self) -> (r: CiphertextCommit)
        ensures
            r@ == self.model().ciphertext_hash,
            r == self.raw().ciphertext_hash,
    {
        self.ciphertext_hash
    }

    pub fn input_commitments(&self) -> (r: &[LabelCommit<H::Output>])
        ensures
            r@ == self.raw().input_commitments@,
            commit_bytes(r@) == self.model().input_commitments,
    {
        self.input_commitments.as_slice()
    }

    /// The commitment to the output label that stands for `true`.
    pub fn output_commit_true(&self) -> (r: H::Output)
        ensures
            r@ == self.model().output_label1_commit,
            r == self.raw().output_label1_commit,
    {
        self.output_label1_commit
    }

    /// The commitment to the output label that stands for `false`.
    pub fn output_commit_false(&self) -> (r: H::Output)
        ensures
            r@ == self.model().output_label0_commit,
            r == self.raw().output_label0_commit,
    {
        self.output_label0_commit
    }

    pub fn true_constant(&self) -> (r: u128)
        ensures
            r == self.model().true_constant,
            r == self.raw().true_constant,
    {
        self.true_constant
    }

    pub fn false_constant(&self) -> (r: u128)
        ensures
            r == self.model().false_constant,
            r == self.raw().false_constant,
    {
        self.false_constant
    }

    pub fn from_raw_parts(parts: CommitPhaseOneRawParts<H::Output>) -> (r: Self)
        ensures
            r.model() == parts.model(),
            r.raw() == parts,
    {
        CommitPhaseOne {
            ciphertext_hash: parts.ciphertext_hash,
            input_commitments: parts.input_commitments,
            output_label1_commit: parts.output_label1_commit,
            output_label0_commit: parts.output_label0_commit,
            true_constant: parts.true_constant,
            false_constant: parts.false_constant,
        }
    }

    /// The parts that make up a commitment.
    pub closed spec fn raw(&self) -> CommitPhaseOneRawParts<H::Output> {
        CommitPhaseOneRawParts {
            ciphertext_hash: self.ciphertext_hash,
            input_commitments: self.input_commitments,
            output_label1_commit: self.output_label1_commit,
            output_label0_commit: self.output_label0_commit,
            true_constant: self.true_constant,
            false_constant: self.false_constant,
        }
    }

    pub fn into_raw_parts(self) -> (r: CommitPhaseOneRawParts<H::Output>)
        ensures
            r == self.raw(),
            r.model() == self.model(),
    {
        CommitPhaseOneRawParts {
            ciphertext_hash: self.ciphertext_hash,
            input_commitments: self.input_commitments,
            output_label1_commit: self.output_label1_commit,
            output_label0_commit: self.output_label0_commit,
            true_constant: self.true_constant,
            false_constant: self.false_constant,
        }
    }
}

impl<H: LabelCommitHasher> Clone for CommitPhaseOne<H> {
    fn clone(&self) -> (r: Self)
        ensures
            r.model() == self.model(),
            r.raw().input_commitments@ == self.raw().input_commitments@,
            r.raw().ciphertext_hash == self.raw().ciphertext_hash,
            r.raw().output_label1_commit == self.raw().output_label1_commit,
            r.raw().output_label0_commit == self.raw().output_label0_commit,
            r.raw().true_constant == self.raw().true_constant,
            r.raw().false_constant == self.raw().false_constant,
    {
        CommitPhaseOne {
            ciphertext_hash: self.ciphertext_hash,
            input_commitments: copy_commits(&self.input_commitments),
            output_label1_commit: self.output_label1_commit,
            output_label0_commit: self.output_label0_commit,
            true_constant: self.true_constant,
            false_constant: self.false_constant,
        }
    }
}

/// The parts of a first commitment.
pub struct CommitPhaseOneRawParts<T: Copy> {
    pub ciphertext_hash: CiphertextCommit,
    pub input_commitments: Vec<LabelCommit<T>>,
    pub output_label1_commit: T,
    pub output_label0_commit: T,
    pub true_constant: u128,
    pub false_constant: u128,
}

impl<T: Copy + View<V = Seq<u8>>> CommitPhaseOneRawParts<T> {
    pub open spec fn model(&self) -> PhaseOneModel {
        PhaseOneModel {
            ciphertext_hash: self.ciphertext_hash@,
            input_commitments: commit_bytes(self.input_commitments@),
            output_label1_commit: self.output_label1_commit@,
            output_label0_commit: self.output_label0_commit@,
            true_constant: self.true_constant,
            false_constant: self.false_constant,
        }
    }
}

/// The second commitment to an instance: to its input labels with a nonce
/// added.
#[derive(PartialEq, Eq)]
pub struct CommitPhaseTwo<H: LabelCommitHasher = DefaultLabelCommitHasher> {
    input_commitments: Vec<LabelCommit<H::Output>>,
}

impl<H: LabelCommitHasher> CommitPhaseTwo<H> {
    /// The bytes of the commitments.
    pub closed spec fn model(&self) -> Seq<(Seq<u8>, Seq<u8>)> {
        commit_bytes(self.input_commitments@)
    }

    /// The commitments themselves.
    pub closed spec fn raw(&self) -> Vec<LabelCommit<H::Output>> {
        self.input_commitments
    }

    pub fn new(input_commitments: Vec<LabelCommit<H::Output>>) -> (r: Self)
        ensures
            r.raw() == input_commitments,
            r.model() == commit_bytes(input_commitments@),
    {
        CommitPhaseTwo { input_commitments }
    }

    /// The second commitment to an instance.
    pub fn from_instance(instance: &GarbledInstance, nonce: S) -> (r: Self)
        ensures
            r.model() == wire_commitments::<H>(instance@.input_wire_values, Some(nonce)),
            r.model().len() == instance.input_wire_values@.len(),
            forall|i: int|
                0 <= i < instance.input_wire_values@.len() ==> #[trigger] r.model()[i] == (
                    H::commitment(instance.input_wire_values@[i].label0.0 ^ nonce.0),
                    H::commitment(instance.input_wire_values@[i].label1.0 ^ nonce.0),
                ),
    {
        CommitPhaseTwo {
            input_commitments: commit_input_wires::<H>(&instance.input_wire_values, Some(nonce)),
        }
    }

    pub fn input_commitments(&self) -> (r: &[LabelCommit<H::Output>])
        ensures
            r@ == self.raw()@,
            commit_bytes(r@) == self.model(),
    {
        self.input_commitments.as_slice()
    }

    pub fn into_inner(self) -> (r: Vec<LabelCommit<H::Output>>)
        ensures
            r == self.raw(),
            commit_bytes(r@) == self.model(),
    {
        self.input_commitments
    }

    pub fn from_raw_parts(input_commitments: Vec<LabelCommit<H::Output>>) -> (r: Self)
        ensures
            r.raw() == input_commitments,
            r.model() == commit_bytes(input_commitments@),
    {
        CommitPhaseTwo { input_commitments }
    }

    pub fn into_raw_parts(self) -> (r: Vec<LabelCommit<H::Output>>)
        ensures
            r == self.raw(),
            commit_bytes(r@) == self.model(),
    {
        self.input_commitments
    }
}

impl<H: LabelCommitHasher> Clone for CommitPhaseTwo<H> {
    fn clone(&self) -> (r: Self)
        ensures
            r.model() == self.model(),
            r.raw()@ == self.raw()@,
    {
        CommitPhaseTwo { input_commitments: copy_commits(&self.input_commitments) }
    }
}

/// Both commitments to all instances.
pub type Commitment<H> = (Vec<CommitPhaseOne<H>>, Vec<CommitPhaseTwo<H>>);

/// The opening of one instance: its seed is revealed, or it stays closed and
/// its ciphertexts go to the handler at the given position.
#[derive(Clone, Copy, Debug, PartialEq, Eq, Structural)]
pub enum OpenForInstance {
    Open(usize, Seed),
    Closed { index: usize, handler: usize },
}

/// An instance to garble again for the handler at the given position. This is
/// for the garbler itself: the seed stays secret.
#[derive(Clone, Copy, PartialEq, Eq, Structural)]
pub struct Regarble {
    pub index: usize,
    pub seed: Seed,
    pub handler: usize,
}

/// The instances by whether they are opened or stay closed.
#[derive(Debug)]
pub struct OpenCommit {
    pub open: Vec<(usize, Seed)>,
    pub closed: Vec<(usize, Seed)>,
}

/// How far the garbler is.
#[derive(Debug)]
pub enum GarblerStage {
    Generating { seeds: Vec<Seed> },
    PreparedForEval { indexes_to_eval: Vec<usize> },
}

impl GarblerStage {
    /// Moves on to evaluation and gives the seeds back.
    pub fn next_stage(&mut self, indexes_to_eval: Vec<usize>) -> (r: Vec<Seed>)
        requires
            *old(self) is Generating,
        ensures
            *final(self) == (GarblerStage::PreparedForEval { indexes_to_eval }),
            *old(self) == (GarblerStage::Generating { seeds: r }),
    {
        let mut n = GarblerStage::PreparedForEval { indexes_to_eval };
        std::mem::swap(self, &mut n);
        match n {
            GarblerStage::Generating { seeds } => seeds,
            GarblerStage::PreparedForEval { indexes_to_eval: _ } => Vec::new(),
        }
    }
}

/// The seeds, with their indexes, of the first `n` instances that are listed,
/// or of those that are not.
pub open spec fn picked(seeds: Seq<Seed>, indexes: Seq<usize>, listed: bool, n: nat) -> Seq<
    (usize, Seed),
>
    decreases n,
{
    if n == 0 {
        Seq::empty()
    } else {
        let before = picked(seeds, indexes, listed, (n - 1) as nat);
        let index = (n - 1) as usize;
        if indexes.contains(index) == listed {
            before.push((index, seeds[n - 1]))
        } else {
            before
        }
    }
}

/// Every instance is either opened or stays closed, never both: its seed is in
/// the part that its index belongs to and in no other, the parts hold nothing
/// else, each in the order of the instances, and together they are as many as
/// the instances.
pub proof fn lemma_opened_or_closed(seeds: Seq<Seed>, indexes: Seq<usize>, n: nat)
    requires
        n <= seeds.len(),
        n <= usize::MAX,
    ensures
        picked(seeds, indexes, true, n).len() + picked(seeds, indexes, false, n).len() == n,
        forall|i: usize, listed: bool|
            i < n ==> (#[trigger] picked(seeds, indexes, listed, n).contains((i, seeds[i as int]))
                <==> indexes.contains(i) == listed),
        forall|e: (usize, Seed), listed: bool| #[trigger]
            picked(seeds, indexes, listed, n).contains(e) ==> e.0 < n && e.1 == seeds[e.0 as int],
        forall|listed: bool, a: int, b: int|
            0 <= a < b < picked(seeds, indexes, listed, n).len() ==> (#[trigger] picked(
                seeds,
                indexes,
                listed,
                n,
            )[a]).0 < (#[trigger] picked(seeds, indexes, listed, n)[b]).0,
    decreases n,
{
    if n > 0 {
        let k = (n - 1) as nat;
        lemma_opened_or_closed(seeds, indexes, k);
        let last = k as usize;
        let e0 = (last, seeds[k as int]);
        assert forall|e: (usize, Seed), listed: bool| #[trigger]
            picked(seeds, indexes, listed, n).contains(e) <==> picked(
            seeds,
            indexes,
            listed,
            k,
        ).contains(e) || (e == e0 && indexes.contains(last) == listed) by {
            let before = picked(seeds, indexes, listed, k);
            let after = picked(seeds, indexes, listed, n);
            if indexes.contains(last) == listed {
                assert(after == before.push(e0));
                if after.contains(e) {
                    let j = choose|j: int| 0 <= j < after.len() && after[j] == e;
                    if j < before.len() {
                        assert(before[j] == e);
                    }
                }
                if before.contains(e) {
                    let j = choose|j: int| 0 <= j < before.len() && before[j] == e;
                    assert(after[j] == e);
                }
                assert(after[before.len() as int] == e0);
            }
        }
        assert forall|listed: bool, a: int, b: int|
            0 <= a < b < picked(seeds, indexes, listed, n).len() implies (#[trigger] picked(
            seeds,
            indexes,
            listed,
            n,
        )[a]).0 < (#[trigger] picked(seeds, indexes, listed, n)[b]).0 by {
            let before = picked(seeds, indexes, listed, k);
            let after = picked(seeds, indexes, listed, n);
            assert(before.contains(before[a]));
            if b < before.len() {
                assert(after[b] == before[b]);
            }
        }
    }
}

/// Whether this is the opening of the instance `i`: its seed, where it is not
/// listed; no seed, but the handler listed first with its index, where it is.
pub open spec fn opens(
    e: OpenForInstance,
    seeds: Seq<Seed>,
    indexes: Seq<usize>,
    i: int,
) -> bool {
    match e {
        OpenForInstance::Open(index, seed) => {
            &&& index == i
            &&& seed == seeds[i]
            &&& forall|j: int| 0 <= j < indexes.len() ==> indexes[j] != i
        },
        OpenForInstance::Closed { index, handler } => {
            &&& index == i
            &&& listed_first(indexes, handler as int, i)
        },
    }
}

/// Whether `i` is listed, at the position `p` first.
pub open spec fn listed_first(indexes: Seq<usize>, p: int, i: int) -> bool {
    &&& 0 <= p < indexes.len()
    &&& indexes[p] == i
    &&& forall|j: int| 0 <= j < p ==> indexes[j] != i
}

/// Whether these are the instances to garble again: those listed, in the order
/// of the instances, each with its seed and the handler listed first with it.
pub open spec fn regarbles(g: Seq<Regarble>, seeds: Seq<Seed>, indexes: Seq<usize>) -> bool {
    let p = picked(seeds, indexes, true, seeds.len());
    &&& g.len() == p.len()
    &&& forall|k: int|
        0 <= k < g.len() ==> {
            &&& (#[trigger] g[k]).index == p[k].0
            &&& g[k].seed == p[k].1
            &&& listed_first(indexes, g[k].handler as int, p[k].0 as int)
        }
}

fn first_position(indexes: &Vec<usize>, x: usize) -> (r: Option<usize>)
    ensures
        match r {
            Some(p) => {
                &&& p < indexes@.len()
                &&& indexes@[p as int] == x
                &&& forall|j: int| 0 <= j < p ==> indexes@[j] != x
            },
            None => forall|j: int| 0 <= j < indexes@.len() ==> indexes@[j] != x,
        },
{
    let mut p: usize = 0;
    while p < indexes.len()
        invariant
            p <= indexes@.len(),
            forall|j: int| 0 <= j < p ==> indexes@[j] != x,
        decreases indexes@.len() - p,
    {
        if indexes[p] == x {
            return Some(p);
        }
        p = p + 1;
    }
    None
}

fn copy_wires(w: &Vec<GarbledWire>) -> (r: Vec<GarbledWire>)
    ensures
        r@ == w@,
{
    let mut r: Vec<GarbledWire> = Vec::new();
    let mut i: usize = 0;
    while i < w.len()
        invariant
            i <= w@.len(),
            r@ == w@.take(i as int),
        decreases w@.len() - i,
    {
        r.push(w[i]);
        i = i + 1;
        assert(r@ =~= w@.take(i as int));
    }
    assert(r@ =~= w@);
    r
}

/// The labels of wires as words.
pub open spec fn label_words(w: Seq<GarbledWire>) -> Seq<(u128, u128)> {
    Seq::new(w.len(), |i: int| (w[i].label0.0, w[i].label1.0))
}

fn wire_words(w: &Vec<GarbledWire>) -> (r: Vec<(u128, u128)>)
    ensures
        r@ == label_words(w@),
        r@.len() == w@.len(),
        forall|i: int| 0 <= i < w@.len() ==> #[trigger] r@[i] == (w@[i].label0.0, w@[i].label1.0),
{
    let mut r: Vec<(u128, u128)> = Vec::new();
    let mut i: usize = 0;
    while i < w.len()
        invariant
            i <= w@.len(),
            r@.len() == i,
            forall|j: int| 0 <= j < i ==> #[trigger] r@[j] == (w@[j].label0.0, w@[j].label1.0),
        decreases w@.len() - i,
    {
        r.push((w[i].label0.to_u128(), w[i].label1.to_u128()));
        i = i + 1;
    }
    assert(r@ =~= label_words(w@));
    r
}

/// Whether the input to soldering is that of the instances with these indexes,
/// in increasing order.
pub open spec fn solders_instances(
    input: WiresInput,
    models: Seq<InstanceModel>,
    indexes: Seq<usize>,
    nonce: S,
) -> bool {
    &&& input.nonce == nonce.0
    &&& input.instances_wires@.len() == indexes.len()
    &&& forall|k: int|
        0 <= k < indexes.len() ==> (#[trigger] input.instances_wires@[k])@ == label_words(
            models[in_order(indexes)[k] as int].input_wire_values,
        )
}

/// The garbler: its instances, what they are garbled from, and how far the
/// protocol is.
#[derive(Debug)]
pub struct Garbler<I> {
    stage: GarblerStage,
    instances: Vec<GarbledInstance>,
    config: Config<I>,
    live_capacity: usize,
    /// The evaluator's nonce.
    nonce: Option<S>,
}

impl<I> Garbler<I> {
    pub closed spec fn spec_stage(&self) -> GarblerStage {
        self.stage
    }

    pub closed spec fn spec_instances(&self) -> Vec<GarbledInstance> {
        self.instances
    }

    pub closed spec fn spec_config(&self) -> Config<I> {
        self.config
    }

    pub closed spec fn spec_live_capacity(&self) -> usize {
        self.live_capacity
    }

    pub closed spec fn spec_nonce(&self) -> Option<S> {
        self.nonce
    }

    /// The instances.
    pub open spec fn models(&self) -> Seq<InstanceModel> {
        instance_models(self.spec_instances()@)
    }

    /// The seeds while they are kept.
    pub open spec fn seeds(&self) -> Seq<Seed> {
        match self.spec_stage() {
            GarblerStage::Generating { seeds } => seeds@,
            GarblerStage::PreparedForEval { indexes_to_eval: _ } => Seq::empty(),
        }
    }

    /// The indexes kept for evaluation, once they are known.
    pub open spec fn finalized(&self) -> Option<Seq<usize>> {
        match self.spec_stage() {
            GarblerStage::Generating { seeds: _ } => None,
            GarblerStage::PreparedForEval { indexes_to_eval } => Some(indexes_to_eval@),
        }
    }

    /// A garbler of these instances, one for each seed.
    pub fn create(
        seeds: Vec<Seed>,
        instances: Vec<GarbledInstance>,
        config: Config<I>,
        live_capacity: usize,
    ) -> (r: Self)
        requires
            seeds@.len() == config.spec_total(),
            instances@.len() == config.spec_total(),
        ensures
            r.spec_stage() == (GarblerStage::Generating { seeds }),
            r.spec_instances() == instances,
            r.spec_config() == config,
            r.spec_live_capacity() == live_capacity,
            r.spec_nonce() is None,
    {
        Garbler {
            stage: GarblerStage::Generating { seeds },
            instances,
            config,
            live_capacity,
            nonce: None,
        }
    }

    /// A garbler whose instances were garbled in batches, as planned for so
    /// many threads.
    pub fn create_opt_cpu(
        seeds: Vec<Seed>,
        config: Config<I>,
        live_capacity: usize,
        threads: usize,
        batches: Vec<LaneOutputs>,
    ) -> (r: Self)
        requires
            seeds@.len() == config.spec_total(),
            batches@.len() == opt_cpu_sizes(config.spec_total(), threads).len(),
            forall|k: int|
                0 <= k < batches@.len() ==> (#[trigger] batches@[k]).has_lanes(
                    opt_cpu_sizes(config.spec_total(), threads)[k],
                ),
        ensures
            r.spec_stage() == (GarblerStage::Generating { seeds }),
            r.models() == batch_models(
                batches@,
                opt_cpu_sizes(config.spec_total(), threads),
                batches@.len(),
            ),
            r.models().len() == config.spec_total(),
            r.spec_config() == config,
            r.spec_live_capacity() == live_capacity,
            r.spec_nonce() is None,
    {
        let ghost all = opt_cpu_sizes(config.spec_total(), threads);
        let sizes = opt_cpu_batches(config.total(), threads);
        let mut instances: Vec<GarbledInstance> = Vec::new();
        let mut k: usize = 0;
        assert(instance_models(instances@) =~= batch_models(batches@, all, 0));
        while k < sizes.len()
            invariant
                k <= sizes@.len(),
                sizes@.len() == all.len(),
                batches@.len() == all.len(),
                forall|i: int| 0 <= i < all.len() ==> #[trigger] sizes@[i] == all[i],
                forall|i: int| 0 <= i < all.len() ==> (#[trigger] batches@[i]).has_lanes(all[i]),
                instance_models(instances@) == batch_models(batches@, all, k as nat),
            decreases sizes@.len() - k,
        {
            let size = sizes[k];
            assert(batches@[k as int].has_lanes(all[k as int]));
            let mut chunk = garble_multilane_chunk(size, &batches[k], size);
            let ghost before = instances@;
            let ghost added = chunk@;
            instances.append(&mut chunk);
            assert(instance_models(instances@) =~= instance_models(before) + instance_models(
                added,
            ));
            k = k + 1;
        }
        proof {
            lemma_batches_cover(config.spec_total() as nat, opt_cpu_lanes(config.spec_total(), threads));
            lemma_batch_models_len(batches@, all, all.len());
            assert(all.take(all.len() as int) =~= all);
        }
        Garbler {
            stage: GarblerStage::Generating { seeds },
            instances,
            config,
            live_capacity,
            nonce: None,
        }
    }

    /// The first commitments to all instances.
    pub fn commit_phase_one<H: LabelCommitHasher>(&self) -> (r: Vec<CommitPhaseOne<H>>)
        ensures
            r@.len() == self.models().len(),
            forall|i: int|
                0 <= i < r@.len() ==> (#[trigger] r@[i]).model() == phase_one::<H>(
                    self.models()[i],
                ),
            r@.len() == self.spec_instances()@.len(),
            forall|i: int|
                0 <= i < r@.len() ==> {
                    let g = self.spec_instances()@[i];
                    &&& (#[trigger] r@[i]).model().true_constant == g.true_wire_constant.label1.0
                    &&& r@[i].model().false_constant == g.false_wire_constant.label0.0
                    &&& r@[i].model().ciphertext_hash == g.ciphertext_handler_result@
                },
    {
        let mut r: Vec<CommitPhaseOne<H>> = Vec::new();
        let mut i: usize = 0;
        while i < self.instances.len()
            invariant
                i <= self.instances@.len(),
                r@.len() == i,
                forall|j: int|
                    0 <= j < i ==> (#[trigger] r@[j]).model() == phase_one::<H>(
                        self.models()[j],
                    ),
                forall|j: int|
                    0 <= j < i ==> {
                        let g = self.spec_instances()@[j];
                        &&& (#[trigger] r@[j]).model().true_constant
                            == g.true_wire_constant.label1.0
                        &&& r@[j].model().false_constant == g.false_wire_constant.label0.0
                        &&& r@[j].model().ciphertext_hash == g.ciphertext_handler_result@
                    },
            decreases self.instances@.len() - i,
        {
            r.push(CommitPhaseOne::<H>::from_instance(&self.instances[i]));
            i = i + 1;
        }
        r
    }

    fn phase_two_with<H: LabelCommitHasher>(&self, nonce: S) -> (r: Vec<CommitPhaseTwo<H>>)
        ensures
            r@.len() == self.models().len(),
            forall|i: int|
                0 <= i < r@.len() ==> (#[trigger] r@[i]).model() == wire_commitments::<H>(
                    self.models()[i].input_wire_values,
                    Some(nonce),
                ),
            r@.len() == self.spec_instances()@.len(),
            forall|i: int, j: int|
                0 <= i < r@.len() && 0 <= j < self.spec_instances()@[i].input_wire_values@.len()
                    ==> #[trigger] r@[i].model()[j] == (
                    H::commitment(
                        self.spec_instances()@[i].input_wire_values@[j].label0.0 ^ nonce.0,
                    ),
                    H::commitment(
                        self.spec_instances()@[i].input_wire_values@[j].label1.0 ^ nonce.0,
                    ),
                ),
    {
        let mut r: Vec<CommitPhaseTwo<H>> = Vec::new();
        let mut i: usize = 0;
        while i < self.instances.len()
            invariant
                i <= self.instances@.len(),
                r@.len() == i,
                forall|j: int|
                    0 <= j < i ==> (#[trigger] r@[j]).model() == wire_commitments::<H>(
                        self.models()[j].input_wire_values,
                        Some(nonce),
                    ),
                forall|k: int, j: int|
                    0 <= k < i && 0 <= j < self.spec_instances()@[k].input_wire_values@.len()
                        ==> #[trigger] r@[k].model()[j] == (
                        H::commitment(
                            self.spec_instances()@[k].input_wire_values@[j].label0.0 ^ nonce.0,
                        ),
                        H::commitment(
                            self.spec_instances()@[k].input_wire_values@[j].label1.0 ^ nonce.0,
                        ),
                    ),
            decreases self.instances@.len() - i,
        {
            r.push(CommitPhaseTwo::<H>::from_instance(&self.instances[i], nonce));
            i = i + 1;
        }
        r
    }

    /// The second commitments to all instances. The nonce is kept, and is the
    /// same in all calls.
    pub fn commit_phase_two<H: LabelCommitHasher>(&mut self, nonce: S) -> (r: Vec<
        CommitPhaseTwo<H>,
    >)
        requires
            old(self).spec_nonce() is None || old(self).spec_nonce() == Some(nonce),
        ensures
            final(self).spec_nonce() == Some(nonce),
            final(self).spec_stage() == old(self).spec_stage(),
            final(self).spec_instances() == old(self).spec_instances(),
            final(self).spec_config() == old(self).spec_config(),
            final(self).spec_live_capacity() == old(self).spec_live_capacity(),
            r@.len() == old(self).models().len(),
            forall|i: int|
                0 <= i < r@.len() ==> (#[trigger] r@[i]).model() == wire_commitments::<H>(
                    old(self).models()[i].input_wire_values,
                    Some(nonce),
                ),
            r@.len() == old(self).spec_instances()@.len(),
            forall|i: int, j: int|
                0 <= i < r@.len() && 0 <= j < old(
                    self,
                ).spec_instances()@[i].input_wire_values@.len() ==> #[trigger] r@[i].model()[j] == (
                    H::commitment(
                        old(self).spec_instances()@[i].input_wire_values@[j].label0.0 ^ nonce.0,
                    ),
                    H::commitment(
                        old(self).spec_instances()@[i].input_wire_values@[j].label1.0 ^ nonce.0,
                    ),
                ),
    {
        self.nonce = Some(nonce);
        self.phase_two_with::<H>(nonce)
    }

    /// Both commitments to all instances, once the nonce is known.
    pub fn get_commitment<H: LabelCommitHasher>(&self) -> (r: Option<Commitment<H>>)
        ensures
            r is Some <==> self.spec_nonce() is Some,
            r matches Some(c) ==> {
                &&& c.0@.len() == self.models().len()
                &&& c.1@.len() == self.models().len()
                &&& forall|i: int|
                    0 <= i < c.0@.len() ==> (#[trigger] c.0@[i]).model() == phase_one::<H>(
                        self.models()[i],
                    )
                &&& forall|i: int|
                    0 <= i < c.1@.len() ==> (#[trigger] c.1@[i]).model() == wire_commitments::<H>(
                        self.models()[i].input_wire_values,
                        self.spec_nonce(),
                    )
            },
    {
        match self.nonce {
            Some(nonce) => Some((self.commit_phase_one::<H>(), self.phase_two_with::<H>(nonce))),
            None => None,
        }
    }

    /// The indexes kept for evaluation, once they are known.
    pub fn finalized_indexes(&self) -> (r: Option<&[usize]>)
        ensures
            match r {
                Some(s) => self.finalized() == Some(s@),
                None => self.finalized() is None,
            },
    {
        match &self.stage {
            GarblerStage::Generating { seeds: _ } => None,
            GarblerStage::PreparedForEval { indexes_to_eval } => Some(indexes_to_eval.as_slice()),
        }
    }

    /// Opens the commitments: the instances with the given indexes stay closed.
    pub fn open_commit_without_ciphertexts(&mut self, indexes_to_finalize: Vec<usize>) -> (r:
        OpenCommit)
        requires
            old(self).spec_stage() is Generating,
            indexes_to_finalize@.to_set().len() == old(self).spec_config().spec_to_finalize(),
        ensures
            final(self).finalized() matches Some(s) && increasing(s) && forall|x: usize|
                s.contains(x) <==> indexes_to_finalize@.contains(x),
            final(self).spec_instances() == old(self).spec_instances(),
            final(self).spec_config() == old(self).spec_config(),
            final(self).spec_live_capacity() == old(self).spec_live_capacity(),
            final(self).spec_nonce() == old(self).spec_nonce(),
            r.closed@ == picked(
                old(self).seeds(),
                indexes_to_finalize@,
                true,
                old(self).seeds().len(),
            ),
            r.open@ == picked(
                old(self).seeds(),
                indexes_to_finalize@,
                false,
                old(self).seeds().len(),
            ),
    {
        let kept = sorted_unique(&indexes_to_finalize);
        let seeds = self.stage.next_stage(kept);
        let mut open: Vec<(usize, Seed)> = Vec::new();
        let mut closed: Vec<(usize, Seed)> = Vec::new();
        let mut i: usize = 0;
        while i < seeds.len()
            invariant
                i <= seeds@.len(),
                closed@ == picked(seeds@, indexes_to_finalize@, true, i as nat),
                open@ == picked(seeds@, indexes_to_finalize@, false, i as nat),
            decreases seeds@.len() - i,
        {
            if list_contains(&indexes_to_finalize, i) {
                closed.push((i, seeds[i]));
            } else {
                open.push((i, seeds[i]));
            }
            i = i + 1;
        }
        OpenCommit { open, closed }
    }

    /// Opens the commitments: the instances with the given indexes stay closed,
    /// and are to be garbled again, each for its handler. Their seeds are in the
    /// second part alone.
    pub fn open_commit(&mut self, indexes_to_finalize: Vec<usize>) -> (r: (
        Vec<OpenForInstance>,
        Vec<Regarble>,
    ))
        requires
            old(self).spec_stage() is Generating,
        ensures
            final(self).finalized() == Some(indexes_to_finalize@),
            final(self).spec_instances() == old(self).spec_instances(),
            final(self).spec_config() == old(self).spec_config(),
            final(self).spec_live_capacity() == old(self).spec_live_capacity(),
            final(self).spec_nonce() == old(self).spec_nonce(),
            r.0@.len() == old(self).seeds().len(),
            forall|i: int|
                0 <= i < r.0@.len() ==> opens(
                    #[trigger] r.0@[i],
                    old(self).seeds(),
                    indexes_to_finalize@,
                    i,
                ),
            regarbles(r.1@, old(self).seeds(), indexes_to_finalize@),
    {
        let mut listed: Vec<usize> = Vec::new();
        let mut k: usize = 0;
        while k < indexes_to_finalize.len()
            invariant
                k <= indexes_to_finalize@.len(),
                listed@ == indexes_to_finalize@.take(k as int),
            decreases indexes_to_finalize@.len() - k,
        {
            listed.push(indexes_to_finalize[k]);
            k = k + 1;
            assert(listed@ =~= indexes_to_finalize@.take(k as int));
        }
        assert(listed@ =~= indexes_to_finalize@);
        let seeds = self.stage.next_stage(indexes_to_finalize);
        let mut r: Vec<OpenForInstance> = Vec::new();
        let mut again: Vec<Regarble> = Vec::new();
        let mut i: usize = 0;
        while i < seeds.len()
            invariant
                i <= seeds@.len(),
                r@.len() == i,
                forall|j: int| 0 <= j < i ==> opens(#[trigger] r@[j], seeds@, listed@, j),
                again@.len() == picked(seeds@, listed@, true, i as nat).len(),
                forall|k: int|
                    0 <= k < again@.len() ==> {
                        let e = picked(seeds@, listed@, true, i as nat)[k];
                        &&& (#[trigger] again@[k]).index == e.0
                        &&& again@[k].seed == e.1
                        &&& listed_first(listed@, again@[k].handler as int, e.0 as int)
                    },
            decreases seeds@.len() - i,
        {
            match first_position(&listed, i) {
                Some(p) => {
                    assert(listed@.contains(i));
                    r.push(OpenForInstance::Closed { index: i, handler: p });
                    again.push(Regarble { index: i, seed: seeds[i], handler: p });
                },
                None => {
                    assert(!listed@.contains(i));
                    r.push(OpenForInstance::Open(i, seeds[i]));
                },
            }
            i = i + 1;
        }
        (r, again)
    }

    /// What soldering takes: the input labels of the instances kept for
    /// evaluation, and the nonce.
    pub fn do_soldering(&self) -> (r: WiresInput)
        requires
            self.spec_nonce() is Some,
            self.finalized() is Some,
            forall|k: int|
                0 <= k < self.finalized()->0.len() ==> (#[trigger] self.finalized()->0[k])
                    < self.models().len(),
        ensures
            solders_instances(r, self.models(), self.finalized()->0, self.spec_nonce()->0),
    {
        let nonce = match self.nonce {
            Some(n) => n.to_u128(),
            None => 0,
        };
        let mut rows: Vec<Vec<(u128, u128)>> = Vec::new();
        match &self.stage {
            GarblerStage::Generating { seeds: _ } => {},
            GarblerStage::PreparedForEval { indexes_to_eval } => {
                let ghost idx = indexes_to_eval@;
                let order = sorted(indexes_to_eval);
                let mut k: usize = 0;
                proof {
                    assert(self.finalized() == Some(idx));
                    assert forall|j: int| 0 <= j < idx.len() implies (#[trigger] idx[j])
                        < self.models().len() by {
                        assert(self.finalized()->0[j] < self.models().len());
                    }
                    lemma_in_order_within(idx, self.models().len());
                }
                while k < order.len()
                    invariant
                        k <= order@.len(),
                        order@ == in_order(idx),
                        forall|j: int|
                            0 <= j < order@.len() ==> (#[trigger] order@[j]) < self.models().len(),
                        rows@.len() == k,
                        forall|j: int|
                            0 <= j < k ==> (#[trigger] rows@[j])@ == label_words(
                                self.models()[in_order(idx)[j] as int].input_wire_values,
                            ),
                    decreases order@.len() - k,
                {
                    let index = order[k];
                    assert(order@[k as int] < self.models().len());
                    rows.push(wire_words(&self.instances[index].input_wire_values));
                    k = k + 1;
                }
            },
        }
        WiresInput { instances_wires: rows, nonce }
    }

    /// The label that stands for the constant `true` in an instance.
    pub fn true_wire_constant_for(&self, index: usize) -> (r: u128)
        requires
            index < self.models().len(),
        ensures
            r == self.models()[index as int].true_wire_constant.label1.0,
            r == self.spec_instances()@[index as int].true_wire_constant.label1.0,
    {
        self.instances[index].true_wire_constant.select(true).to_u128()
    }

    /// The label that stands for the constant `false` in an instance.
    pub fn false_wire_constant_for(&self, index: usize) -> (r: u128)
        requires
            index < self.models().len(),
        ensures
            r == self.models()[index as int].false_wire_constant.label0.0,
            r == self.spec_instances()@[index as int].false_wire_constant.label0.0,
    {
        self.instances[index].false_wire_constant.select(false).to_u128()
    }

    /// The input labels of an instance.
    pub fn input_labels_for(&self, index: usize) -> (r: Vec<GarbledWire>)
        requires
            index < self.models().len(),
        ensures
            r@ == self.models()[index as int].input_wire_values,
            r@ == self.spec_instances()@[index as int].input_wire_values@,
    {
        copy_wires(&self.instances[index].input_wire_values)
    }

    pub fn config(&self) -> (r: &Config<I>)
        ensures
            *r == self.spec_config(),
    {
        &self.config
    }

    /// The capacity that instances are garbled with.
    pub fn live_capacity(&self) -> (r: usize)
        ensures
            r == self.spec_live_capacity(),
    {
        self.live_capacity
    }

    pub fn stage(&self) -> (r: &GarblerStage)
        ensures
            *r == self.spec_stage(),
    {
        &self.stage
    }

    /// The output labels of an instance, where there is such an instance.
    pub fn output_wire(&self, index: usize) -> (r: Option<&GarbledWire>)
        ensures
            match r {
                Some(w) => index < self.models().len() && *w
                    == self.models()[index as int].output_wire_values && *w
                    == self.spec_instances()@[index as int].output_wire_values,
                None => index >= self.models().len(),
            },
    {
        if index < self.instances.len() {
            Some(&self.instances[index].output_wire_values)
        } else {
            None
        }
    }

    /// The commitments to the input labels of the first instance kept for
    /// evaluation, once it is known.
    pub fn soldered_base_commitment<H: LabelCommitHasher>(&self) -> (r: Option<
        Vec<LabelCommit<H::Output>>,
    >)
        requires
            self.finalized() matches Some(s) ==> s.len() > 0 ==> s[0] < self.models().len(),
        ensures
            r matches Some(c) ==> {
                let wires = self.spec_instances()@[self.finalized()->0[0] as int].input_wire_values@;
                &&& c@.len() == wires.len()
                &&& forall|i: int|
                    0 <= i < wires.len() ==> match self.spec_nonce() {
                        Some(n) => {
                            &&& (#[trigger] c@[i]).commit_label0@ == H::commitment(
                                wires[i].label0.0 ^ n.0,
                            )
                            &&& c@[i].commit_label1@ == H::commitment(wires[i].label1.0 ^ n.0)
                        },
                        None => {
                            &&& c@[i].commit_label0@ == H::commitment(wires[i].label0.0)
                            &&& c@[i].commit_label1@ == H::commitment(wires[i].label1.0)
                        },
                    }
            },
            match r {
                Some(c) => self.finalized() matches Some(s) && s.len() > 0 && commit_bytes(c@)
                    == wire_commitments::<H>(
                    self.models()[s[0] as int].input_wire_values,
                    self.spec_nonce(),
                ),
                None => self.finalized() matches Some(s) ==> s.len() == 0,
            },
    {
        match &self.stage {
            GarblerStage::Generating { seeds: _ } => None,
            GarblerStage::PreparedForEval { indexes_to_eval } => {
                if indexes_to_eval.len() == 0 {
                    return None;
                }
                let base = &self.instances[indexes_to_eval[0]];
                Some(commit_input_wires::<H>(&base.input_wire_values, self.nonce))
            },
        }
    }

    /// For each instance kept for evaluation the commitments to its output
    /// labels, that of `true` first, once the instances are known.
    pub fn finalized_output_label_commitment<H: LabelCommitHasher>(&self) -> (r: Option<
        Vec<(H::Output, H::Output)>,
    >)
        requires
            self.finalized() matches Some(s) ==> forall|k: int|
                0 <= k < s.len() ==> (#[trigger] s[k]) < self.models().len(),
        ensures
            r is Some <==> self.finalized() is Some,
            r matches Some(c) ==> {
                let s = self.finalized()->0;
                &&& c@.len() == s.len()
                &&& forall|k: int|
                    0 <= k < s.len() ==> {
                        let w = self.models()[s[k] as int].output_wire_values;
                        &&& (#[trigger] c@[k]).0@ == H::commitment(w.label1.0)
                        &&& c@[k].1@ == H::commitment(w.label0.0)
                        &&& w == self.spec_instances()@[s[k] as int].output_wire_values
                    }
            },
    {
        match &self.stage {
            GarblerStage::Generating { seeds: _ } => None,
            GarblerStage::PreparedForEval { indexes_to_eval } => {
                let ghost s = indexes_to_eval@;
                assert forall|j: int| 0 <= j < s.len() implies (#[trigger] s[j])
                    < self.models().len() by {
                    assert(self.finalized() == Some(s));
                    assert(self.finalized()->0[j] < self.models().len());
                }
                let mut r: Vec<(H::Output, H::Output)> = Vec::new();
                let mut k: usize = 0;
                while k < indexes_to_eval.len()
                    invariant
                        s == indexes_to_eval@,
                        k <= s.len(),
                        forall|j: int|
                            0 <= j < s.len() ==> (#[trigger] s[j]) < self.models().len(),
                        r@.len() == k,
                        forall|j: int|
                            0 <= j < k ==> {
                                let w = self.spec_instances()@[s[j] as int].output_wire_values;
                                &&& (#[trigger] r@[j]).0@ == H::commitment(w.label1.0)
                                &&& r@[j].1@ == H::commitment(w.label0.0)
                            },
                    decreases s.len() - k,
                {
                    let index = indexes_to_eval[k];
                    assert(s[k as int] < self.models().len());
                    let wire = &self.instances[index].output_wire_values;
                    r.push((commit_output_label1::<H>(wire), commit_output_label0::<H>(wire)));
                    k = k + 1;
                }
                Some(r)
            },
        }
    }

    pub fn from_raw_parts(
        stage: GarblerStage,
        instances: Vec<GarbledInstance>,
        config: Config<I>,
        live_capacity: usize,
        nonce: Option<S>,
    ) -> (r: Self)
        ensures
            r.spec_stage() == stage,
            r.spec_instances() == instances,
            r.spec_config() == config,
            r.spec_live_capacity() == live_capacity,
            r.spec_nonce() == nonce,
    {
        Garbler { stage, instances, config, live_capacity, nonce }
    }

    pub fn into_raw_parts(self) -> (r: (
        GarblerStage,
        Vec<GarbledInstance>,
        Config<I>,
        usize,
        Option<S>,
    ))
        ensures
            r.0 == self.spec_stage(),
            r.1 == self.spec_instances(),
            r.2 == self.spec_config(),
            r.3 == self.spec_live_capacity(),
            r.4 == self.spec_nonce(),
    {
        (self.stage, self.instances, self.config, self.live_capacity, self.nonce)
    }
}

/// A first commitment says what its parts are.
pub proof fn lemma_phase_one_model<H: LabelCommitHasher>(c: CommitPhaseOne<H>, i: int)
    ensures
        c.model().ciphertext_hash == c.raw().ciphertext_hash@,
        c.model().output_label1_commit == c.raw().output_label1_commit@,
        c.model().output_label0_commit == c.raw().output_label0_commit@,
        c.model().true_constant == c.raw().true_constant,
        c.model().false_constant == c.raw().false_constant,
        c.model().input_commitments.len() == c.raw().input_commitments@.len(),
        0 <= i < c.raw().input_commitments@.len() ==> c.model().input_commitments[i] == (
            c.raw().input_commitments@[i].commit_label0@,
            c.raw().input_commitments@[i].commit_label1@,
        ),
        c.raw().model() == c.model(),
{
}

/// A second commitment says what its parts are.
pub proof fn lemma_phase_two_model<H: LabelCommitHasher>(c: CommitPhaseTwo<H>, i: int)
    ensures
        c.model().len() == c.raw()@.len(),
        0 <= i < c.raw()@.len() ==> c.model()[i] == (
            c.raw()@[i].commit_label0@,
            c.raw()@[i].commit_label1@,
        ),
{
}

/// A first commitment is no more and no less than its parts.
pub proof fn lemma_phase_one_parts<H: LabelCommitHasher>(a: CommitPhaseOne<H>, b: CommitPhaseOne<H>)
    requires
        a.raw() == b.raw(),
    ensures
        a == b,
{
}

/// A second commitment is no more and no less than its parts.
pub proof fn lemma_phase_two_parts<H: LabelCommitHasher>(a: CommitPhaseTwo<H>, b: CommitPhaseTwo<H>)
    requires
        a.raw() == b.raw(),
    ensures
        a == b,
{
}

/// A garbler is no more and no less than its parts.
pub proof fn lemma_garbler_parts<I>(a: Garbler<I>, b: Garbler<I>)
    requires
        a.spec_stage() == b.spec_stage(),
        a.spec_instances() == b.spec_instances(),
        a.spec_config() == b.spec_config(),
        a.spec_live_capacity() == b.spec_live_capacity(),
        a.spec_nonce() == b.spec_nonce(),
    ensures
        a == b,
{
}

} // verus!
