//! What holds of the protocol's steps together.

use crate::cut_and_choose::garbler::{
    batch_models, batch_sizes, batch_start, commit_bytes, instance_models, label_words,
    lemma_batch_start, lemma_batches_cover, lemma_instance_of_seed, lemma_opened_or_closed,
    next_batch, opens, opt_cpu_lanes, opt_cpu_sizes, phase_one, picked, regarbles,
    solders_instances, wire_commitments, CommitPhaseOneRawParts, GarbledInstance, Garbler,
    GarblerStage, InstanceModel, LaneOutputs, OpenForInstance, Regarble,
};
use crate::cut_and_choose::{picked_lanes, CompressedVerifier, LabelCommit, ModeBuilder, Seed};
use crate::gadgets::groth16::Groth16VerifyCompressedInputWires;
use crate::hashers::sha256::{LabelCommitHasher, Sha256LabelCommitHasher};
use crate::label::{GarbledWire, S};
use crate::order::{in_order, lemma_in_order, non_decreasing};
use crate::soldering::{commits_to, label_digest, solders, SolderedLabelsData, WiresInput};
use vstd::prelude::*;

verus! {

/// Both ways of opening keep the same instances closed.
pub proof fn lemma_openings_agree(
    e: OpenForInstance,
    seeds: Seq<Seed>,
    indexes: Seq<usize>,
    i: usize,
)
    requires
        i < seeds.len() <= usize::MAX,
        opens(e, seeds, indexes, i as int),
    ensures
        e is Closed <==> picked(seeds, indexes, true, seeds.len()).contains((i, seeds[i as int])),
        e is Open <==> picked(seeds, indexes, false, seeds.len()).contains((i, seeds[i as int])),
{
    lemma_opened_or_closed(seeds, indexes, seeds.len());
    if e is Closed {
        assert(indexes.contains(i));
    } else {
        assert(!indexes.contains(i));
    }
}

/// As many instances stay closed as are listed, each counted once, where all of
/// them exist, and all others are opened.
pub proof fn lemma_closed_count(seeds: Seq<Seed>, indexes: Seq<usize>)
    requires
        seeds.len() <= usize::MAX,
        forall|k: int| 0 <= k < indexes.len() ==> (#[trigger] indexes[k]) < seeds.len(),
    ensures
        picked(seeds, indexes, true, seeds.len()).len() == indexes.to_set().len(),
        picked(seeds, indexes, false, seeds.len()).len() == seeds.len() - indexes.to_set().len(),
{
    broadcast use vstd::seq_lib::group_seq_properties;

    let n = seeds.len();
    let p = picked(seeds, indexes, true, n);
    let ids = Seq::new(p.len(), |j: int| p[j].0);
    lemma_opened_or_closed(seeds, indexes, n);
    assert(ids.no_duplicates()) by {
        assert forall|a: int, b: int| 0 <= a < ids.len() && 0 <= b < ids.len() && a != b implies
            ids[a] != ids[b] by {
            if a < b {
                assert(p[a].0 < p[b].0);
            } else {
                assert(p[b].0 < p[a].0);
            }
        }
    }
    assert forall|x: usize| ids.contains(x) <==> indexes.contains(x) by {
        if ids.contains(x) {
            let j = choose|j: int| 0 <= j < ids.len() && ids[j] == x;
            assert(p.contains(p[j]));
            assert(p[j] == (x, seeds[x as int]));
        }
        if indexes.contains(x) {
            let k = choose|k: int| 0 <= k < indexes.len() && indexes[k] == x;
            assert(indexes[k] < n);
            assert(p.contains((x, seeds[x as int])));
            let j = choose|j: int| 0 <= j < p.len() && p[j] == (x, seeds[x as int]);
            assert(ids[j] == x);
        }
    }
    assert(ids.to_set() =~= indexes.to_set());
    ids.unique_seq_to_set();
}

/// The zero nonce changes no commitment.
pub proof fn lemma_zero_nonce<H: LabelCommitHasher>(wires: Seq<GarbledWire>)
    ensures
        wire_commitments::<H>(wires, Some(S(0))) == wire_commitments::<H>(wires, None),
{
    assert forall|i: int| 0 <= i < wires.len() implies wire_commitments::<H>(
        wires,
        Some(S(0)),
    )[i] == wire_commitments::<H>(wires, None)[i] by {
        let a = wires[i].label0.0;
        let b = wires[i].label1.0;
        assert(a ^ 0u128 == a) by (bit_vector);
        assert(b ^ 0u128 == b) by (bit_vector);
    }
    assert(wire_commitments::<H>(wires, Some(S(0))) =~= wire_commitments::<H>(wires, None));
}

/// Indexes that are in order stay as they are.
pub proof fn lemma_in_order_already(indexes: Seq<usize>)
    requires
        non_decreasing(indexes),
    ensures
        in_order(indexes) == indexes,
{
    lemma_in_order(indexes, indexes);
}

/// The nonce commitments that soldering publishes for the base are the second
/// commitments to the instance that is listed first, where the indexes are in
/// order.
pub proof fn lemma_soldered_base(
    data: SolderedLabelsData,
    input: WiresInput,
    models: Seq<InstanceModel>,
    indexes: Seq<usize>,
    nonce: S,
    i: int,
)
    requires
        non_decreasing(indexes),
        indexes.len() > 0,
        solders_instances(input, models, indexes, nonce),
        solders(data, input),
        0 <= i < models[indexes[0] as int].input_wire_values.len(),
    ensures
        data.base_nonce_commitment@.len() == models[indexes[0] as int].input_wire_values.len(),
        (data.base_nonce_commitment@[i].0@, data.base_nonce_commitment@[i].1@)
            == wire_commitments::<Sha256LabelCommitHasher>(
            models[indexes[0] as int].input_wire_values,
            Some(nonce),
        )[i],
{
    lemma_in_order_already(indexes);
    let base = input.instances_wires@[0]@;
    assert(base == label_words(models[indexes[0] as int].input_wire_values));
    assert(commits_to(data.base_nonce_commitment@, base, input.nonce, base.len()));
}

/// The commitments that soldering publishes are the first commitments to the
/// instances, in the order of their indexes, the base's first.
pub proof fn lemma_soldered_commitments(
    data: SolderedLabelsData,
    input: WiresInput,
    models: Seq<InstanceModel>,
    indexes: Seq<usize>,
    nonce: S,
    k: int,
    i: int,
)
    requires
        solders_instances(input, models, indexes, nonce),
        solders(data, input),
        0 <= k < indexes.len(),
        0 <= i < input.instances_wires@[0]@.len(),
        i < input.instances_wires@[k]@.len(),
    ensures
        ({
            let c = if k == 0 {
                data.base_commitment@[i]
            } else {
                data.commitments@[k - 1]@[i]
            };
            (c.0@, c.1@) == phase_one::<Sha256LabelCommitHasher>(
                models[in_order(indexes)[k] as int],
            ).input_commitments[i]
        }),
{
    let wires = models[in_order(indexes)[k] as int].input_wire_values;
    assert(input.instances_wires@[k]@ == label_words(wires));
    if k == 0 {
        let c = data.base_commitment@[i];
        assert((c.0@, c.1@) == (
            label_digest(label_words(wires)[i].0),
            label_digest(label_words(wires)[i].1),
        ));
    } else {
        let c = data.commitments@[k - 1]@[i];
        assert((c.0@, c.1@) == (
            label_digest(label_words(wires)[i].0),
            label_digest(label_words(wires)[i].1),
        ));
    }
}

/// The instance of a lane has that lane's entry of each list, and for each input
/// wire that lane's entry of the wire's row.
pub proof fn lemma_lane(res: LaneOutputs, m: nat, i: int, j: int)
    requires
        0 <= i < m,
    ensures
        res.lanes(m).len() == m,
        res.lanes(m)[i].false_wire_constant == res.false_wire_constant@[i],
        res.lanes(m)[i].true_wire_constant == res.true_wire_constant@[i],
        res.lanes(m)[i].output_wire_values == res.output_value@[i],
        res.lanes(m)[i].ciphertext_handler_result == res.ciphertext_handler_result@[i]@,
        res.lanes(m)[i].input_wire_values.len() == res.input_wire_values@.len(),
        0 <= j < res.input_wire_values@.len() ==> res.lanes(m)[i].input_wire_values[j]
            == res.input_wire_values@[j]@[i],
{
}

/// The instance at a lane's place among those of all batches has that lane's
/// labels and ciphertexts.
pub proof fn lemma_batch_lane(
    batches: Seq<LaneOutputs>,
    sizes: Seq<nat>,
    k: int,
    i: int,
    j: int,
)
    requires
        0 <= k < sizes.len(),
        0 <= i < sizes[k],
    ensures
        ({
            let at = batch_start(sizes, k) + i;
            let all = batch_models(batches, sizes, sizes.len());
            &&& 0 <= at < all.len()
            &&& all[at].false_wire_constant == batches[k].false_wire_constant@[i]
            &&& all[at].true_wire_constant == batches[k].true_wire_constant@[i]
            &&& all[at].output_wire_values == batches[k].output_value@[i]
            &&& all[at].ciphertext_handler_result == batches[k].ciphertext_handler_result@[i]@
            &&& all[at].input_wire_values.len() == batches[k].input_wire_values@.len()
            &&& 0 <= j < batches[k].input_wire_values@.len() ==> all[at].input_wire_values[j]
                == batches[k].input_wire_values@[j]@[i]
        }),
{
    lemma_instance_of_seed(batches, sizes, sizes.len(), k, i);
    lemma_batch_start(sizes, k);
}

/// What an instance is, is all that it holds.
pub proof fn lemma_instance(instances: Seq<GarbledInstance>, i: int)
    requires
        0 <= i < instances.len(),
    ensures
        instance_models(instances).len() == instances.len(),
        instance_models(instances)[i].false_wire_constant == instances[i].false_wire_constant,
        instance_models(instances)[i].true_wire_constant == instances[i].true_wire_constant,
        instance_models(instances)[i].output_wire_values == instances[i].output_wire_values,
        instance_models(instances)[i].input_wire_values == instances[i].input_wire_values@,
        instance_models(instances)[i].ciphertext_handler_result
            == instances[i].ciphertext_handler_result@,
{
}

/// A garbler's instances are those that it holds, its seeds are those that it
/// holds while there are any, and its indexes are known from then on.
pub proof fn lemma_garbler_state<I>(g: Garbler<I>, i: int)
    ensures
        g.models().len() == g.spec_instances()@.len(),
        0 <= i < g.models().len() ==> g.models()[i] == g.spec_instances()@[i]@,
        g.spec_stage() matches GarblerStage::Generating { seeds } ==> g.seeds() == seeds@
            && g.finalized() is None,
        g.spec_stage() matches GarblerStage::PreparedForEval { indexes_to_eval } ==> g.seeds().len()
            == 0 && g.finalized() == Some(indexes_to_eval@),
{
}

/// The first commitment to an instance holds its ciphertext hash and the whole
/// labels of its constants as they are, and the hashes of the labels of its output
/// and input wires.
pub proof fn lemma_first_commitment<H: LabelCommitHasher>(g: GarbledInstance, i: int)
    ensures
        phase_one::<H>(g@).ciphertext_hash == g.ciphertext_handler_result@,
        phase_one::<H>(g@).true_constant == g.true_wire_constant.label1.0,
        phase_one::<H>(g@).false_constant == g.false_wire_constant.label0.0,
        phase_one::<H>(g@).output_label1_commit == H::commitment(g.output_wire_values.label1.0),
        phase_one::<H>(g@).output_label0_commit == H::commitment(g.output_wire_values.label0.0),
        phase_one::<H>(g@).input_commitments.len() == g.input_wire_values@.len(),
        0 <= i < g.input_wire_values@.len() ==> phase_one::<H>(g@).input_commitments[i] == (
            H::commitment(g.input_wire_values@[i].label0.0),
            H::commitment(g.input_wire_values@[i].label1.0),
        ),
{
}

/// Instances with the same first commitment have the same constants and the same
/// ciphertext hash.
pub proof fn lemma_first_commitment_binds<H: LabelCommitHasher>(
    a: InstanceModel,
    b: InstanceModel,
)
    requires
        phase_one::<H>(a) == phase_one::<H>(b),
    ensures
        a.true_wire_constant.label1 == b.true_wire_constant.label1,
        a.false_wire_constant.label0 == b.false_wire_constant.label0,
        a.ciphertext_handler_result == b.ciphertext_handler_result,
        a.input_wire_values.len() == b.input_wire_values.len(),
{
    assert(phase_one::<H>(a).true_constant == phase_one::<H>(b).true_constant);
    assert(phase_one::<H>(a).false_constant == phase_one::<H>(b).false_constant);
    let (x, y) = (a.input_wire_values, b.input_wire_values);
    assert(wire_commitments::<H>(x, None).len() == x.len());
    assert(wire_commitments::<H>(y, None).len() == y.len());
    assert(phase_one::<H>(a).input_commitments == phase_one::<H>(b).input_commitments);
}

/// The second commitments to an instance's input wires hash words that give the
/// labels back when the nonce is added to them, and without a nonce the labels
/// themselves.
pub proof fn lemma_second_commitments<H: LabelCommitHasher>(
    wires: Seq<GarbledWire>,
    nonce: S,
    i: int,
    word0: u128,
    word1: u128,
)
    requires
        0 <= i < wires.len(),
        word0 ^ nonce.0 == wires[i].label0.0,
        word1 ^ nonce.0 == wires[i].label1.0,
    ensures
        wire_commitments::<H>(wires, Some(nonce)).len() == wires.len(),
        wire_commitments::<H>(wires, Some(nonce))[i] == (
            H::commitment(word0),
            H::commitment(word1),
        ),
        wire_commitments::<H>(wires, None).len() == wires.len(),
        wire_commitments::<H>(wires, None)[i] == (
            H::commitment(wires[i].label0.0),
            H::commitment(wires[i].label1.0),
        ),
{
    let (a, b, n) = (wires[i].label0.0, wires[i].label1.0, nonce.0);
    assert(a ^ n == word0) by (bit_vector)
        requires
            word0 ^ n == a,
    ;
    assert(b ^ n == word1) by (bit_vector)
        requires
            word1 ^ n == b,
    ;
}

/// The bytes of commitments are those of both, the first label's first.
pub proof fn lemma_commit_bytes<T: Copy + View<V = Seq<u8>>>(c: Seq<LabelCommit<T>>, i: int)
    requires
        0 <= i < c.len(),
    ensures
        commit_bytes(c).len() == c.len(),
        commit_bytes(c)[i].0 == c[i].commit_label0@,
        commit_bytes(c)[i].1 == c[i].commit_label1@,
{
}

/// The parts of a first commitment say what they are.
pub proof fn lemma_raw_model<T: Copy + View<V = Seq<u8>>>(
    parts: CommitPhaseOneRawParts<T>,
    i: int,
)
    ensures
        parts.model().ciphertext_hash == parts.ciphertext_hash@,
        parts.model().output_label1_commit == parts.output_label1_commit@,
        parts.model().output_label0_commit == parts.output_label0_commit@,
        parts.model().true_constant == parts.true_constant,
        parts.model().false_constant == parts.false_constant,
        parts.model().input_commitments.len() == parts.input_commitments@.len(),
        0 <= i < parts.input_commitments@.len() ==> parts.model().input_commitments[i] == (
            parts.input_commitments@[i].commit_label0@,
            parts.input_commitments@[i].commit_label1@,
        ),
{
}

/// An instance that is not listed is opened with its own seed, and only such an
/// instance is. One that is listed stays closed, without a seed, and goes to the
/// handler at the first place where it is listed.
pub proof fn lemma_opening(
    e: OpenForInstance,
    seeds: Seq<Seed>,
    indexes: Seq<usize>,
    i: usize,
    handler: int,
)
    requires
        opens(e, seeds, indexes, i as int),
    ensures
        !indexes.contains(i) ==> e == OpenForInstance::Open(i, seeds[i as int]),
        indexes.contains(i) ==> e is Closed,
        0 <= handler < indexes.len() && indexes[handler] == i && (forall|j: int|
            0 <= j < handler ==> indexes[j] != i) ==> e == (OpenForInstance::Closed {
            index: i,
            handler: handler as usize,
        }),
{
    if indexes.contains(i) {
        let j = choose|j: int| 0 <= j < indexes.len() && indexes[j] == i;
        assert(indexes[j] == i);
    }
    if 0 <= handler < indexes.len() && indexes[handler] == i {
        if let OpenForInstance::Closed { index: _, handler: h } = e {
            assert(indexes[h as int] == i);
        }
    }
}

/// The instances to garble again are those that are listed and exist, in the order
/// of the instances, each once, with its own seed and the handler at the first
/// place where it is listed.
pub proof fn lemma_regarbled(g: Seq<Regarble>, seeds: Seq<Seed>, indexes: Seq<usize>)
    requires
        seeds.len() <= usize::MAX,
        regarbles(g, seeds, indexes),
    ensures
        forall|k: int|
            0 <= k < g.len() ==> {
                &&& (#[trigger] g[k]).index < seeds.len()
                &&& g[k].seed == seeds[g[k].index as int]
                &&& g[k].handler < indexes.len()
                &&& indexes[g[k].handler as int] == g[k].index
                &&& forall|j: int| 0 <= j < g[k].handler ==> indexes[j] != g[k].index
            },
        forall|a: int, b: int|
            0 <= a < b < g.len() ==> (#[trigger] g[a]).index < (#[trigger] g[b]).index,
        forall|i: usize|
            i < seeds.len() && #[trigger] indexes.contains(i) ==> exists|k: int|
                0 <= k < g.len() && (#[trigger] g[k]).index == i,
{
    let p = picked(seeds, indexes, true, seeds.len());
    lemma_opened_or_closed(seeds, indexes, seeds.len());
    assert forall|k: int| 0 <= k < g.len() implies {
        &&& (#[trigger] g[k]).index < seeds.len()
        &&& g[k].seed == seeds[g[k].index as int]
        &&& g[k].handler < indexes.len()
        &&& indexes[g[k].handler as int] == g[k].index
        &&& forall|j: int| 0 <= j < g[k].handler ==> indexes[j] != g[k].index
    } by {
        assert(p.contains(p[k]));
    }
    assert forall|a: int, b: int| 0 <= a < b < g.len() implies (#[trigger] g[a]).index < (
    #[trigger] g[b]).index by {
        assert(p[a].0 < p[b].0);
    }
    assert forall|i: usize| i < seeds.len() && #[trigger] indexes.contains(i) implies exists|
        k: int,
    |
        0 <= k < g.len() && (#[trigger] g[k]).index == i by {
        assert(p.contains((i, seeds[i as int])));
        let k = choose|k: int| 0 <= k < p.len() && p[k] == (i, seeds[i as int]);
        assert(g[k].index == i);
    }
}

/// Each batch is the largest of one, two, four, eight and sixteen that is allowed
/// and that what is left can fill, and together the batches take all instances.
pub proof fn lemma_greedy_batches(total: nat, lanes: nat, k: int, c: nat)
    requires
        lanes == 1 || lanes == 2 || lanes == 4 || lanes == 8 || lanes == 16,
        c == 1 || c == 2 || c == 4 || c == 8 || c == 16,
        0 <= k < batch_sizes(total, lanes).len(),
    ensures
        ({
            let sizes = batch_sizes(total, lanes);
            let left = total - batch_start(sizes, k);
            let r = sizes[k];
            &&& r == 1 || r == 2 || r == 4 || r == 8 || r == 16
            &&& r <= lanes && r <= left
            &&& c <= lanes && c <= left ==> c <= r
            &&& batch_start(sizes, sizes.len() as int) == total
        }),
    decreases total,
{
    let sizes = batch_sizes(total, lanes);
    let t = next_batch(total, lanes);
    let rest = batch_sizes((total - t) as nat, lanes);
    lemma_batches_cover(total, lanes);
    assert(sizes.take(sizes.len() as int) =~= sizes);
    if k == 0 {
        assert(sizes.take(0) =~= Seq::empty());
    } else {
        lemma_greedy_batches((total - t) as nat, lanes, k - 1, c);
        assert(sizes.take(k)[0] == t);
        assert(sizes.take(k).skip(1) =~= rest.take(k - 1));
        assert(sizes[k] == rest[k - 1]);
    }
}

/// No instance needs no batch, and no thread counts as one thread. The lanes are
/// bounded by eight.
pub proof fn lemma_planned_batches(total: usize, threads: usize)
    ensures
        opt_cpu_sizes(total, threads) == batch_sizes(total as nat, opt_cpu_lanes(total, threads)),
        total == 0 ==> opt_cpu_sizes(total, threads).len() == 0,
        total > 0 ==> opt_cpu_sizes(total, threads).len() > 0,
        threads > 0 ==> opt_cpu_lanes(total, threads) == picked_lanes(
            total as nat,
            threads as nat,
            8,
        ),
        opt_cpu_lanes(total, 0) == opt_cpu_lanes(total, 1),
{
}

/// The words of wires are their labels, the label of `false` first.
pub proof fn lemma_label_words(w: Seq<GarbledWire>, i: int)
    requires
        0 <= i < w.len(),
    ensures
        label_words(w).len() == w.len(),
        label_words(w)[i].0 == w[i].label0.0,
        label_words(w)[i].1 == w[i].label1.0,
{
}

/// What soldering takes are the whole labels of the listed instances, the one with
/// the smallest index first, and the whole nonce.
pub proof fn lemma_soldering_input(
    input: WiresInput,
    instances: Seq<GarbledInstance>,
    indexes: Seq<usize>,
    nonce: S,
    order: Seq<usize>,
    k: int,
    i: int,
)
    requires
        solders_instances(input, instance_models(instances), indexes, nonce),
        order.to_multiset() == indexes.to_multiset(),
        forall|a: int, b: int| 0 <= a <= b < order.len() ==> order[a] <= order[b],
        0 <= k < indexes.len(),
        order[k] < instances.len(),
        0 <= i < instances[order[k] as int].input_wire_values@.len(),
    ensures
        input.nonce == nonce.0,
        input.instances_wires@.len() == indexes.len(),
        input.instances_wires@[k]@.len() == instances[order[k] as int].input_wire_values@.len(),
        input.instances_wires@[k]@[i].0
            == instances[order[k] as int].input_wire_values@[i].label0.0,
        input.instances_wires@[k]@[i].1
            == instances[order[k] as int].input_wire_values@[i].label1.0,
{
    lemma_in_order(indexes, order);
    assert(input.instances_wires@[k]@ == label_words(
        instance_models(instances)[order[k] as int].input_wire_values,
    ));
}

/// The builder of the compressed verifier takes all wires that carry scalars and
/// coordinates, and its output says whether both sides of the equation are equal.
pub proof fn lemma_compressed_verifier(
    v: CompressedVerifier,
    s: Seq<bool>,
    w: Groth16VerifyCompressedInputWires,
)
    ensures
        v.output(s, w) <==> w.product(s) == v.alpha_beta@,
        w.ok(s) && v.alpha_beta.valid() ==> v.accepts(s, w),
{
}

/// Results of lanes have as many lanes as each of their lists, and every row of
/// input wires, has entries.
pub proof fn lemma_has_lanes(res: LaneOutputs, n: nat)
    requires
        res.false_wire_constant@.len() == n,
        res.true_wire_constant@.len() == n,
        res.output_value@.len() == n,
        res.ciphertext_handler_result@.len() == n,
        forall|j: int|
            0 <= j < res.input_wire_values@.len() ==> (#[trigger] res.input_wire_values@[j])@.len()
                == n,
    ensures
        res.has_lanes(n),
{
}

} // verus!
