use garbled_snark_verifier::circuit::ExecuteMode;
use garbled_snark_verifier::cut_and_choose::ciphertext_repository::{
    buffer_size, ciphertext_file_name, listed_source, FileCiphertextHandler,
    FileCiphertextHandlerProvider,
};
use garbled_snark_verifier::cut_and_choose::garbler::{
    garble_multilane_chunk, lane_seeds, opt_cpu_batches, opt_cpu_seeds, plan_batches, CommitPhaseOne,
    CommitPhaseOneRawParts, CommitPhaseTwo, GarbledInstance, Garbler, GarblerStage, LaneOutputs,
    OpenForInstance, Regarble,
};
use garbled_snark_verifier::cut_and_choose::{
    commit_label, pick_lanes, select_cores_for_affinity, Config, LabelCommit,
};
use garbled_snark_verifier::hashers::sha256::{
    sha256_label, AesLabelCommitHasher, LabelCommitHasher, Sha256LabelCommitHasher,
};
use garbled_snark_verifier::label::{GarbledWire, S};
use garbled_snark_verifier::program::{decode_input, encode_output, run};
use garbled_snark_verifier::soldering::{solder, WiresInput};

fn wire(a: u128, b: u128) -> GarbledWire {
    GarbledWire { label0: S::from_u128(a), label1: S::from_u128(b) }
}

fn instance(n: u128) -> GarbledInstance {
    GarbledInstance {
        false_wire_constant: wire(1000 * n, 1000 * n + 1),
        true_wire_constant: wire(1000 * n + 2, 1000 * n + 3),
        output_wire_values: wire(1000 * n + 4, 1000 * n + 5),
        input_wire_values: vec![
            wire(1000 * n + 6, 1000 * n + 7),
            wire(1000 * n + 8, 1000 * n + 9),
        ],
        ciphertext_handler_result: [n as u8; 16],
    }
}

fn garbler(total: usize, to_finalize: usize) -> Garbler<u32> {
    Garbler::create(
        (0..total).map(|i| 100 + i as u64).collect(),
        (0..total).map(|i| instance(i as u128)).collect(),
        Config::new(total, to_finalize, 7u32),
        1234,
    )
}

fn sha(x: u128) -> [u8; 32] {
    Sha256LabelCommitHasher::hash_label(S::from_u128(x))
}

fn aes(x: u128) -> [u8; 16] {
    AesLabelCommitHasher::hash_label(S::from_u128(x))
}

#[test]
fn test_label_commit() {
    let plain = LabelCommit::<[u8; 32]>::new::<Sha256LabelCommitHasher>(
        S::from_u128(5),
        S::from_u128(6),
        &None,
    );
    assert_eq!(plain.commit_label0, sha(5));
    assert_eq!(plain.commit_label1, sha(6));
    assert_eq!(plain.commit_for_value(false), sha(5));
    assert_eq!(plain.commit_for_value(true), sha(6));
    let nonce = LabelCommit::<[u8; 32]>::new::<Sha256LabelCommitHasher>(
        S::from_u128(5),
        S::from_u128(6),
        &Some(S::from_u128(3)),
    );
    assert_eq!(nonce.commit_label0, sha(5 ^ 3));
    assert_eq!(nonce.commit_label1, sha(6 ^ 3));
    let zero = LabelCommit::<[u8; 32]>::new::<Sha256LabelCommitHasher>(
        S::from_u128(5),
        S::from_u128(6),
        &Some(S::from_u128(0)),
    );
    assert_eq!(zero, plain);
    assert_eq!(commit_label(S::from_u128(5)), aes(5));
}

#[test]
fn test_label_commit_text() {
    let c = LabelCommit { commit_label0: [0x01u8, 0xab], commit_label1: [0xffu8, 0x00] };
    assert_eq!(c.to_string(), "LabelCommit { label0: 0x01ab, label1: 0xff00 }");
}

#[test]
fn test_config() {
    let c = Config::new(4, 2, "input");
    assert_eq!(c.total(), 4);
    assert_eq!(c.to_finalize(), 2);
    assert_eq!(*c.input(), "input");
}

#[test]
fn test_pick_lanes() {
    // each instance can have a thread
    assert_eq!(pick_lanes(8, 8, 8), 1);
    assert_eq!(pick_lanes(0, 1, 8), 1);
    // the largest number that leaves work for all threads
    assert_eq!(pick_lanes(64, 8, 8), 8);
    assert_eq!(pick_lanes(256, 16, 16), 16);
    assert_eq!(pick_lanes(17, 8, 8), 2);
    assert_eq!(pick_lanes(29, 8, 8), 4);
    assert_eq!(pick_lanes(15, 8, 8), 2);
    // else up to eight
    assert_eq!(pick_lanes(9, 8, 16), 8);
    assert_eq!(pick_lanes(9, 8, 4), 4);
    assert_eq!(pick_lanes(4, 3, 3), 3);
    assert_eq!(pick_lanes(4, 3, 0), 0);
}

#[test]
fn test_select_cores() {
    assert_eq!(select_cores_for_affinity(Some(8), 4), vec![0, 2, 4, 6]);
    assert_eq!(select_cores_for_affinity(Some(7), 4), vec![0, 1, 2, 3]);
    assert_eq!(select_cores_for_affinity(Some(3), 4), vec![0, 1, 2]);
    assert_eq!(select_cores_for_affinity(None, 4), Vec::<usize>::new());
    assert_eq!(select_cores_for_affinity(Some(0), 0), Vec::<usize>::new());
}

#[test]
fn test_batches() {
    assert_eq!(plan_batches(21, 8), vec![8, 8, 4, 1]);
    assert_eq!(plan_batches(31, 16), vec![16, 8, 4, 2, 1]);
    assert_eq!(plan_batches(3, 1), vec![1, 1, 1]);
    assert_eq!(plan_batches(0, 8), Vec::<usize>::new());
    for total in 0..40usize {
        for lanes in [1usize, 2, 4, 8, 16] {
            let b = plan_batches(total, lanes);
            assert_eq!(b.iter().sum::<usize>(), total);
            assert!(b.iter().all(|x| *x <= lanes));
            assert!(b.iter().take(total / lanes).all(|x| *x == lanes));
        }
    }
    assert_eq!(opt_cpu_batches(21, 2), vec![8, 8, 4, 1]);
    assert_eq!(opt_cpu_batches(3, 4), vec![1, 1, 1]);
    assert_eq!(opt_cpu_batches(3, 0), opt_cpu_batches(3, 1));
}

#[test]
fn test_lane_seeds() {
    assert_eq!(lane_seeds(&[1, 2, 3], 4), vec![1, 2, 3, 3]);
    assert_eq!(lane_seeds(&[1, 2], 2), vec![1, 2]);
    assert_eq!(lane_seeds(&[], 2), vec![0, 0]);
}

fn lanes(first: u128, n: usize) -> LaneOutputs {
    let all: Vec<GarbledInstance> = (0..n).map(|i| instance(first + i as u128)).collect();
    LaneOutputs {
        false_wire_constant: all.iter().map(|x| x.false_wire_constant).collect(),
        true_wire_constant: all.iter().map(|x| x.true_wire_constant).collect(),
        output_value: all.iter().map(|x| x.output_wire_values).collect(),
        input_wire_values: (0..2)
            .map(|j| all.iter().map(|x| x.input_wire_values[j]).collect())
            .collect(),
        ciphertext_handler_result: all.iter().map(|x| x.ciphertext_handler_result).collect(),
    }
}

fn assert_same(a: &GarbledInstance, b: &GarbledInstance) {
    assert_eq!(a.false_wire_constant, b.false_wire_constant);
    assert_eq!(a.true_wire_constant, b.true_wire_constant);
    assert_eq!(a.output_wire_values, b.output_wire_values);
    assert_eq!(a.input_wire_values, b.input_wire_values);
    assert_eq!(a.ciphertext_handler_result, b.ciphertext_handler_result);
}

#[test]
fn test_lanes_become_instances() {
    let r = garble_multilane_chunk(3, &lanes(5, 4), 4);
    assert_eq!(r.len(), 3);
    for (i, x) in r.iter().enumerate() {
        assert_same(x, &instance(5 + i as u128));
    }
}

#[test]
fn test_batched_garbler_has_all_instances_in_order() {
    let sizes = opt_cpu_batches(7, 2);
    assert_eq!(sizes, vec![4, 2, 1]);
    let mut first: u128 = 0;
    let mut batches = Vec::new();
    for n in sizes {
        batches.push(lanes(first, n));
        first += n as u128;
    }
    let g = Garbler::create_opt_cpu((0..7).collect(), Config::new(7, 2, ()), 10, 2, batches);
    let (stage, instances, config, live_capacity, nonce) = g.into_raw_parts();
    assert_eq!(instances.len(), 7);
    for (i, x) in instances.iter().enumerate() {
        assert_same(x, &instance(i as u128));
    }
    assert!(matches!(stage, GarblerStage::Generating { seeds } if seeds == vec![0, 1, 2, 3, 4, 5, 6]));
    assert_eq!(config.total(), 7);
    assert_eq!(live_capacity, 10);
    assert_eq!(nonce, None);
}

#[test]
fn test_commit_phase_one() {
    let g = garbler(3, 1);
    let c = g.commit_phase_one::<Sha256LabelCommitHasher>();
    assert_eq!(c.len(), 3);
    assert_eq!(c[2].ciphertext_hash(), [2u8; 16]);
    assert_eq!(c[2].input_commitments().len(), 2);
    assert_eq!(c[2].input_commitments()[1].commit_label0, sha(2008));
    assert_eq!(c[2].input_commitments()[1].commit_label1, sha(2009));
    assert_eq!(c[2].output_commit_true(), sha(2005));
    assert_eq!(c[2].output_commit_false(), sha(2004));
    assert_eq!(c[2].true_constant(), 2003);
    assert_eq!(c[2].false_constant(), 2000);
    let d = g.commit_phase_one::<AesLabelCommitHasher>();
    assert_eq!(d[1].output_commit_true(), aes(1005));
}

#[test]
fn test_commit_phase_two_and_both() {
    let mut g = garbler(2, 1);
    assert!(g.get_commitment::<Sha256LabelCommitHasher>().is_none());
    let nonce = S::from_u128(0xabcdef);
    let c = g.commit_phase_two::<Sha256LabelCommitHasher>(nonce);
    assert_eq!(c[1].input_commitments()[0].commit_label0, sha(1006 ^ 0xabcdef));
    assert_eq!(c[1].input_commitments()[0].commit_label1, sha(1007 ^ 0xabcdef));
    // the same nonce again gives the same
    let again = g.commit_phase_two::<Sha256LabelCommitHasher>(nonce);
    assert!(c == again);
    let (one, two) = g.get_commitment::<Sha256LabelCommitHasher>().unwrap();
    assert!(one == g.commit_phase_one::<Sha256LabelCommitHasher>());
    assert!(two == c);
    assert_eq!(two[0].clone().into_inner()[1].commit_label0, sha(8 ^ 0xabcdef));
}

#[test]
fn test_open_without_ciphertexts() {
    let mut g = garbler(4, 2);
    assert_eq!(g.finalized_indexes(), None);
    let r = g.open_commit_without_ciphertexts(vec![3, 1, 3]);
    assert_eq!(r.closed, vec![(1, 101), (3, 103)]);
    assert_eq!(r.open, vec![(0, 100), (2, 102)]);
    assert_eq!(g.finalized_indexes(), Some(&[1usize, 3][..]));
    assert!(matches!(g.stage(), GarblerStage::PreparedForEval { .. }));
}

#[test]
fn test_open_with_missing_instance() {
    let mut g = garbler(2, 2);
    let r = g.open_commit_without_ciphertexts(vec![7, 1]);
    assert_eq!(r.closed, vec![(1, 101)]);
    assert_eq!(r.open, vec![(0, 100)]);
}

#[test]
fn test_open_commit() {
    let mut g = garbler(4, 2);
    let (r, again) = g.open_commit(vec![3, 1, 3]);
    assert_eq!(
        r,
        vec![
            OpenForInstance::Open(0, 100),
            OpenForInstance::Closed { index: 1, handler: 1 },
            OpenForInstance::Open(2, 102),
            OpenForInstance::Closed { index: 3, handler: 0 },
        ]
    );
    assert!(
        again
            == vec![
                Regarble { index: 1, seed: 101, handler: 1 },
                Regarble { index: 3, seed: 103, handler: 0 },
            ]
    );
    assert_eq!(g.finalized_indexes(), Some(&[3usize, 1, 3][..]));
}

#[test]
fn test_both_openings_agree() {
    for listed in [vec![], vec![0], vec![2, 0], vec![1, 2, 0], vec![2, 2]] {
        let mut distinct = listed.clone();
        distinct.sort();
        distinct.dedup();
        let a = garbler(3, distinct.len()).open_commit_without_ciphertexts(listed.clone());
        let (b, again) = garbler(3, distinct.len()).open_commit(listed);
        for e in b {
            match e {
                OpenForInstance::Open(index, seed) => assert!(a.open.contains(&(index, seed))),
                OpenForInstance::Closed { index, .. } => {
                    assert!(a.closed.iter().any(|c| c.0 == index));
                }
            }
        }
        let seeds: Vec<(usize, u64)> = again.iter().map(|g| (g.index, g.seed)).collect();
        assert_eq!(seeds, a.closed);
        assert_eq!(a.closed.len(), distinct.len());
        assert_eq!(a.open.len() + a.closed.len(), 3);
    }
}

#[test]
fn test_next_stage_hands_seeds_out() {
    let mut stage = GarblerStage::Generating { seeds: vec![4, 5] };
    assert_eq!(stage.next_stage(vec![1]), vec![4, 5]);
    assert!(
        matches!(stage, GarblerStage::PreparedForEval { indexes_to_eval } if indexes_to_eval == vec![1])
    );
}

#[test]
fn test_getters() {
    let g = garbler(3, 1);
    assert_eq!(g.true_wire_constant_for(1), 1003);
    assert_eq!(g.false_wire_constant_for(1), 1000);
    assert_eq!(g.input_labels_for(2), vec![wire(2006, 2007), wire(2008, 2009)]);
    assert_eq!(g.output_wire(2), Some(&wire(2004, 2005)));
    assert_eq!(g.output_wire(3), None);
    assert_eq!(*g.config().input(), 7);
    assert!(matches!(g.stage(), GarblerStage::Generating { .. }));
}

#[test]
fn test_finalized_commitments() {
    let mut g = garbler(3, 2);
    assert!(g.soldered_base_commitment::<Sha256LabelCommitHasher>().is_none());
    assert!(g.finalized_output_label_commitment::<Sha256LabelCommitHasher>().is_none());
    g.commit_phase_two::<Sha256LabelCommitHasher>(S::from_u128(9));
    g.open_commit_without_ciphertexts(vec![2, 1]);
    let base = g.soldered_base_commitment::<Sha256LabelCommitHasher>().unwrap();
    assert_eq!(base.len(), 2);
    assert_eq!(base[0].commit_label0, sha(1006 ^ 9));
    assert_eq!(base[1].commit_label1, sha(1009 ^ 9));
    assert_eq!(
        g.finalized_output_label_commitment::<Sha256LabelCommitHasher>().unwrap(),
        vec![(sha(1005), sha(1004)), (sha(2005), sha(2004))]
    );
}

#[test]
fn test_base_commitment_without_nonce_or_instances() {
    let mut g = garbler(2, 1);
    g.open_commit_without_ciphertexts(vec![1]);
    let base = g.soldered_base_commitment::<AesLabelCommitHasher>().unwrap();
    assert_eq!(base[0].commit_label0, aes(1006));
    let mut h = garbler(2, 0);
    h.open_commit_without_ciphertexts(vec![]);
    assert!(h.soldered_base_commitment::<AesLabelCommitHasher>().is_none());
    assert_eq!(h.finalized_output_label_commitment::<AesLabelCommitHasher>(), Some(vec![]));
}

#[test]
fn test_soldering_input_is_in_order() {
    let mut g = garbler(4, 2);
    g.commit_phase_two::<Sha256LabelCommitHasher>(S::from_u128(11));
    g.open_commit(vec![3, 1]);
    assert_eq!(
        g.do_soldering(),
        WiresInput {
            instances_wires: vec![
                vec![(1006, 1007), (1008, 1009)],
                vec![(3006, 3007), (3008, 3009)],
            ],
            nonce: 11,
        }
    );
}

#[test]
fn test_solder() {
    let input = WiresInput {
        instances_wires: vec![vec![(1, 2), (3, 4)], vec![(5, 6), (7, 8)], vec![(9, 10), (11, 12)]],
        nonce: 100,
    };
    let data = solder(&input);
    assert_eq!(data.nonce, 100);
    assert_eq!(
        data.base_commitment,
        vec![(sha256_label(1), sha256_label(2)), (sha256_label(3), sha256_label(4))]
    );
    assert_eq!(
        data.base_nonce_commitment,
        vec![
            (sha256_label(1 ^ 100), sha256_label(2 ^ 100)),
            (sha256_label(3 ^ 100), sha256_label(4 ^ 100))
        ]
    );
    assert_eq!(data.commitments.len(), 2);
    assert_eq!(data.commitments[1][0], (sha256_label(9), sha256_label(10)));
    assert_eq!(data.deltas[0], vec![(1 ^ 5, 2 ^ 6), (3 ^ 7, 4 ^ 8)]);
    for (k, row) in data.deltas.iter().enumerate() {
        for (i, d) in row.iter().enumerate() {
            let base = input.instances_wires[0][i];
            let wire = input.instances_wires[k + 1][i];
            assert_eq!((base.0 ^ d.0, base.1 ^ d.1), wire);
        }
    }
}

#[test]
fn test_solder_base_alone() {
    let data = solder(&WiresInput { instances_wires: vec![vec![(1, 2)]], nonce: 0 });
    assert!(data.deltas.is_empty());
    assert!(data.commitments.is_empty());
    assert_eq!(data.base_nonce_commitment, data.base_commitment);
}

#[test]
fn test_soldering_agrees_with_commitments() {
    let mut g = garbler(4, 2);
    let one = g.commit_phase_one::<Sha256LabelCommitHasher>();
    g.commit_phase_two::<Sha256LabelCommitHasher>(S::from_u128(77));
    g.open_commit_without_ciphertexts(vec![3, 1]);
    let data = solder(&g.do_soldering());
    let base = g.soldered_base_commitment::<Sha256LabelCommitHasher>().unwrap();
    for i in 0..2 {
        assert_eq!(
            data.base_nonce_commitment[i],
            (base[i].commit_label0, base[i].commit_label1)
        );
        let first = one[1].input_commitments()[i];
        assert_eq!(data.base_commitment[i], (first.commit_label0, first.commit_label1));
        let second = one[3].input_commitments()[i];
        assert_eq!(data.commitments[0][i], (second.commit_label0, second.commit_label1));
    }
}

#[test]
fn test_raw_parts() {
    let parts = CommitPhaseOneRawParts {
        ciphertext_hash: [1u8; 16],
        input_commitments: vec![LabelCommit { commit_label0: aes(1), commit_label1: aes(2) }],
        output_label1_commit: aes(3),
        output_label0_commit: aes(4),
        true_constant: 5,
        false_constant: 6,
    };
    let c = CommitPhaseOne::<AesLabelCommitHasher>::from_raw_parts(parts);
    let d = CommitPhaseOne::<AesLabelCommitHasher>::new(
        [1u8; 16],
        vec![LabelCommit { commit_label0: aes(1), commit_label1: aes(2) }],
        aes(3),
        aes(4),
        5,
        6,
    );
    assert!(c == d);
    assert!(c == c.clone());
    let back = c.into_raw_parts();
    assert_eq!(back.true_constant, 5);
    assert_eq!(back.output_label0_commit, aes(4));
    assert!(CommitPhaseOne::<AesLabelCommitHasher>::from_raw_parts(back) == d);

    let two = CommitPhaseTwo::<AesLabelCommitHasher>::new(vec![LabelCommit {
        commit_label0: aes(7),
        commit_label1: aes(8),
    }]);
    let raw = two.clone().into_raw_parts();
    assert!(CommitPhaseTwo::<AesLabelCommitHasher>::from_raw_parts(raw) == two);

    let (stage, instances, config, capacity, nonce) = garbler(2, 1).into_raw_parts();
    let g = Garbler::from_raw_parts(stage, instances, config, capacity, nonce);
    assert_eq!(g.true_wire_constant_for(1), 1003);
    assert_eq!(g.config().total(), 2);
}

#[test]
fn test_ciphertext_files() {
    assert_eq!(ciphertext_file_name(0), "gc_0.bin");
    assert_eq!(ciphertext_file_name(1047), "gc_1047.bin");
    assert_ne!(ciphertext_file_name(1), ciphertext_file_name(11));
    assert_eq!(buffer_size(None), 1 << 20);
    assert_eq!(buffer_size(Some(10 << 30)), 1 << 20);
    assert_eq!(buffer_size(Some((10 << 30) + 1)), 1 << 25);
}

#[test]
fn test_listed_source() {
    let entries = vec![(3usize, "a"), (1, "b"), (3, "c")];
    assert_eq!(listed_source(&entries, 3), Ok(&"a"));
    assert_eq!(listed_source(&entries, 1), Ok(&"b"));
    assert_eq!(listed_source(&entries, 2), Err(()));
}

#[test]
fn test_ciphertext_handler_counts_bytes() {
    let provider = FileCiphertextHandlerProvider::new(String::from("out"), Some(64));
    let mut h = provider.handler(5);
    assert_eq!(h.path, "gc_5.bin");
    assert_eq!(h.pre_allocate, Some(64));
    assert_eq!(h.final_size(), 0);
    assert_eq!(h.handle(S::from_u128(0x0102)), 0x0102u128.to_be_bytes());
    assert_eq!(h.handle(S::from_u128(7)), 7u128.to_be_bytes());
    assert_eq!(h.final_size(), 32);
    let big = FileCiphertextHandler::create(String::from("x"), Some(1 << 40));
    assert_eq!(big.buffer_size, 1 << 25);
}

#[test]
fn test_execute_mode_constants() {
    let c = ExecuteMode::new();
    assert_eq!(c.values, vec![false, true]);
}

#[test]
fn seeds_are_split_into_batches_in_order() {
    let seeds: Vec<u64> = (100..107u64).collect();
    let chunks = opt_cpu_seeds(&seeds, 2);
    assert_eq!(chunks, vec![vec![100, 101, 102, 103], vec![104, 105], vec![106]]);
    assert_eq!(chunks.concat(), seeds);
    assert!(opt_cpu_seeds(&[], 2).is_empty());
}

fn input_of_three() -> WiresInput {
    WiresInput {
        instances_wires: vec![vec![(1, 2), (3, u128::MAX)], vec![(5, 6), (7, 8)], vec![(9, 0); 3]],
        nonce: 0x0102,
    }
}

fn bytes_of(input: &WiresInput) -> Vec<u8> {
    let config = bincode::config::standard().with_fixed_int_encoding();
    bincode::encode_to_vec((&input.instances_wires, input.nonce), config).unwrap()
}

#[test]
fn soldering_input_is_read_back() {
    let input = input_of_three();
    let mut bytes = bytes_of(&input);
    assert_eq!(bytes.len(), 8 + 3 * 8 + 7 * 32 + 16);
    assert_eq!(&bytes[..17], &[3, 0, 0, 0, 0, 0, 0, 0, 2, 0, 0, 0, 0, 0, 0, 0, 1]);
    assert_eq!(decode_input(&bytes), Some(input_of_three()));
    bytes.extend_from_slice(&[1, 2, 3]);
    assert_eq!(decode_input(&bytes), Some(input_of_three()));
    let empty = WiresInput { instances_wires: vec![], nonce: 9 };
    assert_eq!(decode_input(&bytes_of(&empty)), Some(WiresInput { instances_wires: vec![], nonce: 9 }));
}

#[test]
fn incomplete_soldering_input_is_not_read() {
    let bytes = bytes_of(&input_of_three());
    for n in 0..bytes.len() {
        assert_eq!(decode_input(&bytes[..n]), None);
    }
    let mut long = bytes.clone();
    long[7] = 0xff;
    assert_eq!(decode_input(&long), None);
    let mut long = bytes;
    long[15] = 0xff;
    assert_eq!(decode_input(&long), None);
}

#[test]
fn soldering_program_gives_the_soldered_bytes() {
    let input = input_of_three();
    let data = solder(&input);
    let config = bincode::config::standard().with_fixed_int_encoding();
    let fields = (
        &data.deltas,
        &data.base_commitment,
        &data.base_nonce_commitment,
        data.nonce,
        &data.commitments,
    );
    let expected = bincode::encode_to_vec(fields, config).unwrap();
    assert_eq!(encode_output(&data), expected);
    assert_eq!(run(&bytes_of(&input)), Some(expected.clone()));
    assert_eq!(&expected[..8], &[2, 0, 0, 0, 0, 0, 0, 0]);
    assert_eq!(&expected[8..17], &[2, 0, 0, 0, 0, 0, 0, 0, 1 ^ 5]);
    // no base, or an instance with fewer wires than the base
    assert_eq!(run(&bytes_of(&WiresInput { instances_wires: vec![], nonce: 9 })), None);
    let short = WiresInput { instances_wires: vec![vec![(1, 2)], vec![]], nonce: 9 };
    assert_eq!(run(&bytes_of(&short)), None);
    assert_eq!(run(&[]), None);
}

#[test]
fn live_capacity_is_kept() {
    let g = garbler(2, 1);
    let capacity = g.live_capacity();
    let parts = g.into_raw_parts();
    assert_eq!(parts.3, capacity);
}
