use ark_ec::pairing::Pairing;
use ark_ec::{AffineRepr, CurveGroup, PrimeGroup};
use ark_ff::{Field, PrimeField, UniformRand};
use ark_groth16::Groth16;
use ark_relations::r1cs::{
    ConstraintSynthesizer, ConstraintSystemRef, LinearCombination, SynthesisError, Variable,
};
use ark_snark::{CircuitSpecificSetupSNARK, SNARK};
use garbled_snark_verifier::circuit::{CircuitContext, ExecuteMode, WireId};
use garbled_snark_verifier::gadgets::bn254::fq::Fq;
use garbled_snark_verifier::gadgets::bn254::wires::{Fq2, G1Projective};
use garbled_snark_verifier::gadgets::groth16::{
    alpha_beta_pairing, compress_g1, compress_g2, decompress_g1_from_compressed,
    decompress_g2_from_compressed, execute_groth16_verify, execute_groth16_verify_compressed,
    feed_compressed_g1, feed_compressed_g2, groth16_verify, groth16_verify_checked,
    groth16_verify_compressed, groth16_verify_compressed_checked,
    groth16_verify_compressed_with_pairing, groth16_verify_with_pairing,
    projective_to_affine_montgomery, CompressedG1Wires, CompressedG2Wires,
    Groth16VerifyCompressedInput, Groth16VerifyInput, VerifyingKey,
};
use garbled_snark_verifier::gadgets::input::feed_g1;
use garbled_snark_verifier::native::fq::{fq_as_montgomery, fq_from_montgomery, FqValue};
use garbled_snark_verifier::native::points::{
    FrValue, G1AffineValue, G1ProjectiveValue, G2AffineValue, G2ProjectiveValue,
};
use garbled_snark_verifier::native::tower::{fq2_as_montgomery, Fq12Value, Fq2Value, Fq6Value};
use garbled_snark_verifier::test_utils::{
    Assigned, DummyCircuit, DummyCircuitNoPublicInputs, SynthesisStep,
};
use rand::SeedableRng;
use rand_chacha::ChaCha20Rng;

type ArkFr = ark_bn254::Fr;
type ArkGroth16 = Groth16<ark_bn254::Bn254>;

fn fq_value(x: ark_bn254::Fq) -> FqValue {
    let w = x.into_bigint().0;
    FqValue { w0: w[0], w1: w[1], w2: w[2], w3: w[3] }
}

fn fq2_value(x: ark_bn254::Fq2) -> Fq2Value {
    Fq2Value { c0: fq_value(x.c0), c1: fq_value(x.c1) }
}

fn g1_value(p: ark_bn254::G1Projective) -> G1ProjectiveValue {
    G1ProjectiveValue { x: fq_value(p.x), y: fq_value(p.y), z: fq_value(p.z) }
}

fn g2_value(p: ark_bn254::G2Projective) -> G2ProjectiveValue {
    G2ProjectiveValue { x: fq2_value(p.x), y: fq2_value(p.y), z: fq2_value(p.z) }
}

fn g2_affine_value(p: ark_bn254::G2Affine) -> G2AffineValue {
    G2AffineValue { x: fq2_value(p.x), y: fq2_value(p.y), infinity: p.infinity }
}

fn g1_affine_value(p: ark_bn254::G1Affine) -> G1AffineValue {
    G1AffineValue { x: fq_value(p.x), y: fq_value(p.y), infinity: p.infinity }
}

fn fr_value(x: ArkFr) -> FrValue {
    let w = x.into_bigint().0;
    FrValue(FqValue { w0: w[0], w1: w[1], w2: w[2], w3: w[3] })
}

fn fq6_value(x: ark_bn254::Fq6) -> Fq6Value {
    Fq6Value { c0: fq2_value(x.c0), c1: fq2_value(x.c1), c2: fq2_value(x.c2) }
}

fn fq12_value(x: ark_bn254::Fq12) -> Fq12Value {
    Fq12Value { c0: fq6_value(x.c0), c1: fq6_value(x.c1) }
}

fn vk_value(vk: &ark_groth16::VerifyingKey<ark_bn254::Bn254>) -> VerifyingKey {
    VerifyingKey {
        alpha_g1: g1_affine_value(vk.alpha_g1),
        beta_g2: g2_affine_value(vk.beta_g2),
        gamma_g2: g2_affine_value(vk.gamma_g2),
        delta_g2: g2_affine_value(vk.delta_g2),
        gamma_abc_g1: vk.gamma_abc_g1.iter().map(|p| g1_affine_value(*p)).collect(),
    }
}

/// Runs the steps of a small circuit on a constraint system.
fn synthesize(
    steps: &[SynthesisStep],
    a: Option<ArkFr>,
    b: Option<ArkFr>,
    cs: ConstraintSystemRef<ArkFr>,
) -> Result<(), SynthesisError> {
    let value = |x: Assigned| {
        let a = a.ok_or(SynthesisError::AssignmentMissing);
        let b = b.ok_or(SynthesisError::AssignmentMissing);
        match x {
            Assigned::A => a,
            Assigned::B => b,
            Assigned::Product => Ok(a? * b?),
        }
    };
    let zero = LinearCombination::<ArkFr>::zero;
    let mut vars: Vec<Variable> = Vec::new();
    for step in steps {
        match *step {
            SynthesisStep::Witness(x) => vars.push(cs.new_witness_variable(|| value(x))?),
            SynthesisStep::Input(x) => vars.push(cs.new_input_variable(|| value(x))?),
            SynthesisStep::ConstrainProduct => {
                cs.enforce_constraint(zero() + vars[0], zero() + vars[1], zero() + vars[2])?
            }
            SynthesisStep::ConstrainZero => cs.enforce_constraint(zero(), zero(), zero())?,
        }
    }
    Ok(())
}

#[derive(Clone, Copy)]
struct WithPublic(DummyCircuit<ArkFr>);

impl ConstraintSynthesizer<ArkFr> for WithPublic {
    fn generate_constraints(self, cs: ConstraintSystemRef<ArkFr>) -> Result<(), SynthesisError> {
        synthesize(&self.0.steps(), self.0.a, self.0.b, cs)
    }
}

#[derive(Clone, Copy)]
struct WithoutPublic(DummyCircuitNoPublicInputs<ArkFr>);

impl ConstraintSynthesizer<ArkFr> for WithoutPublic {
    fn generate_constraints(self, cs: ConstraintSystemRef<ArkFr>) -> Result<(), SynthesisError> {
        synthesize(&self.0.steps(), self.0.a, self.0.b, cs)
    }
}

/// A proof by its points, as the tests change it.
#[derive(Clone)]
struct ArkInput {
    public: Vec<ArkFr>,
    a: ark_bn254::G1Projective,
    b: ark_bn254::G2Projective,
    c: ark_bn254::G1Projective,
    vk: ark_groth16::VerifyingKey<ark_bn254::Bn254>,
}

impl ArkInput {
    fn input(&self) -> Groth16VerifyInput {
        Groth16VerifyInput {
            public: self.public.iter().map(|x| fr_value(*x)).collect(),
            a: g1_value(self.a),
            b: g2_value(self.b),
            c: g1_value(self.c),
            vk: vk_value(&self.vk),
        }
    }
}

/// A circuit with one public input, its proof and its value.
fn proof_with_public(seed: u64, k: usize, num_variables: usize) -> ArkInput {
    let mut rng = ChaCha20Rng::seed_from_u64(seed);
    let circuit = WithPublic(DummyCircuit {
        a: Some(ArkFr::rand(&mut rng)),
        b: Some(ArkFr::rand(&mut rng)),
        num_variables,
        num_constraints: 1 << k,
    });
    let (pk, vk) = ArkGroth16::setup(circuit, &mut rng).unwrap();
    let c_val = circuit.0.a.unwrap() * circuit.0.b.unwrap();
    let proof = ArkGroth16::prove(&pk, circuit, &mut rng).unwrap();
    assert!(ArkGroth16::verify(&vk, &[c_val], &proof).unwrap());
    ArkInput {
        public: vec![c_val],
        a: proof.a.into_group(),
        b: proof.b.into_group(),
        c: proof.c.into_group(),
        vk,
    }
}

/// A circuit without public inputs, its proof, and the state of the random
/// numbers after it.
fn proof_without_public(seed: u64) -> (ArkInput, ChaCha20Rng) {
    let mut rng = ChaCha20Rng::seed_from_u64(seed);
    let circuit = WithoutPublic(DummyCircuitNoPublicInputs {
        a: Some(ArkFr::rand(&mut rng)),
        b: Some(ArkFr::rand(&mut rng)),
        num_variables: 10,
        num_constraints: 1 << 6,
    });
    let (pk, vk) = ArkGroth16::setup(circuit, &mut rng).unwrap();
    let proof = ArkGroth16::prove(&pk, circuit, &mut rng).unwrap();
    let input = ArkInput {
        public: vec![],
        a: proof.a.into_group(),
        b: proof.b.into_group(),
        c: proof.c.into_group(),
        vk,
    };
    (input, rng)
}

/// Allocates and feeds a proof, builds the verifier and reads its output.
fn run_verify(input: &Groth16VerifyInput) -> bool {
    let mut circuit = ExecuteMode::new();
    let wires = input.allocate(&mut circuit);
    input.encode(&wires, &mut circuit);
    let out = groth16_verify(&mut circuit, &wires);
    circuit.lookup_wire(out)
}

fn run_verify_compressed(input: &Groth16VerifyCompressedInput) -> bool {
    let mut circuit = ExecuteMode::new();
    let wires = input.allocate(&mut circuit);
    input.encode(&wires, &mut circuit);
    let out = groth16_verify_compressed(&mut circuit, &wires);
    circuit.lookup_wire(out)
}

fn run_false_bitflip_test(seed: u64, mutate: impl FnOnce(&mut ArkInput)) {
    let mut inputs = proof_with_public(seed, 6, 10);
    mutate(&mut inputs);
    assert!(!run_verify(&inputs.input()));
}

fn dummy_vk_with_public_inputs() -> (
    ark_groth16::ProvingKey<ark_bn254::Bn254>,
    ark_groth16::VerifyingKey<ark_bn254::Bn254>,
    ArkFr,
    ArkFr,
    ArkFr,
) {
    let mut rng = ChaCha20Rng::seed_from_u64(12345);
    let a = ArkFr::rand(&mut rng);
    let b = ArkFr::rand(&mut rng);
    let circuit = WithPublic(DummyCircuit {
        a: Some(a),
        b: Some(b),
        num_variables: 10,
        num_constraints: 1 << 6,
    });
    let (pk, vk) = ArkGroth16::setup(circuit, &mut rng).unwrap();
    (pk, vk, a, b, a * b)
}

#[test]
fn test_groth16_verify_true() {
    let (pk, vk, a, b, c_val) = dummy_vk_with_public_inputs();
    let circuit = WithPublic(DummyCircuit {
        a: Some(a),
        b: Some(b),
        num_variables: 10,
        num_constraints: 1 << 6,
    });
    let mut rng = ChaCha20Rng::seed_from_u64(12345);
    let proof = ArkGroth16::prove(&pk, circuit, &mut rng).unwrap();
    let inputs = ArkInput {
        public: vec![c_val],
        a: proof.a.into_group(),
        b: proof.b.into_group(),
        c: proof.c.into_group(),
        vk,
    };
    assert!(run_verify(&inputs.input()));
}

#[test]
fn test_groth16_verify_false_bitflip_a() {
    run_false_bitflip_test(54321, |inputs| {
        inputs.a.x += ark_bn254::Fq::ONE;
    });
}

#[test]
fn test_groth16_verify_false_bitflip_b() {
    run_false_bitflip_test(98765, |inputs| {
        inputs.b.x.c0 += ark_bn254::Fq::ONE;
    });
}

#[test]
fn test_groth16_verify_false_bitflip_c() {
    run_false_bitflip_test(19283, |inputs| {
        inputs.c.x += ark_bn254::Fq::ONE;
    });
}

#[test]
fn test_groth16_verify_no_public_inputs_true() {
    let (inputs, _rng) = proof_without_public(99999);
    assert!(
        run_verify(&inputs.input()),
        "Valid proof with empty public inputs should verify"
    );
}

#[test]
fn test_groth16_verify_no_public_inputs_false_bitflip_a() {
    let (mut inputs, mut rng) = proof_without_public(88888);
    inputs.a = ark_bn254::G1Projective::rand(&mut rng);
    assert!(
        !run_verify(&inputs.input()),
        "Corrupted proof with empty public inputs should not verify"
    );
}

#[test]
fn test_groth16_verify_no_public_inputs_false_bitflip_b() {
    let (mut inputs, mut rng) = proof_without_public(77777);
    inputs.b = ark_bn254::G2Projective::rand(&mut rng);
    assert!(
        !run_verify(&inputs.input()),
        "Corrupted proof with empty public inputs should not verify"
    );
}

#[test]
fn test_groth16_verify_no_public_inputs_false_bitflip_c() {
    let (mut inputs, mut rng) = proof_without_public(66666);
    inputs.c = ark_bn254::G1Projective::rand(&mut rng);
    assert!(
        !run_verify(&inputs.input()),
        "Corrupted proof with empty public inputs should not verify"
    );
}

#[test]
fn test_groth16_verify_false_random() {
    let mut rng = ChaCha20Rng::seed_from_u64(777);
    let circuit = WithPublic(DummyCircuit {
        a: Some(ArkFr::rand(&mut rng)),
        b: Some(ArkFr::rand(&mut rng)),
        num_variables: 8,
        num_constraints: 1 << 4,
    });
    let (_pk, vk) = ArkGroth16::setup(circuit, &mut rng).unwrap();
    let inputs = ArkInput {
        public: vec![ArkFr::rand(&mut rng)],
        a: ark_bn254::G1Projective::generator() * ArkFr::rand(&mut rng),
        b: ark_bn254::G2Projective::generator() * ArkFr::rand(&mut rng),
        c: ark_bn254::G1Projective::generator() * ArkFr::rand(&mut rng),
        vk,
    };
    assert!(!run_verify(&inputs.input()));
}

fn lookup_all(circuit: &ExecuteMode, wires: &[WireId]) -> bool {
    wires.iter().all(|w| circuit.lookup_wire(*w))
}

#[test]
fn test_g1_compress_decompress_matches() {
    let mut rng = ChaCha20Rng::seed_from_u64(111);
    let r = ArkFr::rand(&mut rng);
    let p = (ark_bn254::G1Projective::generator() * r).into_affine();

    let mut ctx = ExecuteMode::new();
    let wires = CompressedG1Wires::new(&mut ctx);
    feed_compressed_g1(&mut ctx, &wires, g1_affine_value(p));
    let dec = decompress_g1_from_compressed(&mut ctx, &wires);

    let exp = p.into_group();
    let x_ok = Fq::equal_constant(&mut ctx, &dec.x, fq_as_montgomery(fq_value(exp.x)));
    let z_ok = Fq::equal_constant(&mut ctx, &dec.z, fq_as_montgomery(fq_value(exp.z)));
    let y_sq = Fq::square_montgomery(&mut ctx, &dec.y);
    let y_sq_exp = fq_as_montgomery(fq_value(exp.y.square()));
    let y_ok = Fq::equal_constant(&mut ctx, &y_sq, y_sq_exp);
    assert!(lookup_all(&ctx, &[x_ok, y_ok, z_ok]));

    // the ordinate is the same, too
    let same = Fq::equal_constant(&mut ctx, &dec.y, fq_as_montgomery(fq_value(p.y)));
    assert!(ctx.lookup_wire(same));
}

#[test]
fn test_g2_compress_decompress_matches() {
    let mut rng = ChaCha20Rng::seed_from_u64(222);
    let r = ArkFr::rand(&mut rng);
    let p = (ark_bn254::G2Projective::generator() * r).into_affine();

    let mut ctx = ExecuteMode::new();
    let wires = CompressedG2Wires::new(&mut ctx);
    feed_compressed_g2(&mut ctx, &wires, g2_affine_value(p));
    let dec = decompress_g2_from_compressed(&mut ctx, &wires);

    let exp = p.into_group();
    let x_ok = Fq2::equal_constant(&mut ctx, &dec.x, fq2_as_montgomery(fq2_value(exp.x)));
    let z_ok = Fq2::equal_constant(&mut ctx, &dec.z, fq2_as_montgomery(fq2_value(exp.z)));
    let y_sq = Fq2::square_montgomery(&mut ctx, &dec.y);
    let y_sq_exp = fq2_as_montgomery(fq2_value(exp.y.square()));
    let y_ok = Fq2::equal_constant(&mut ctx, &y_sq, y_sq_exp);
    assert!(lookup_all(&ctx, &[x_ok, y_ok, z_ok]));

    // the ordinate is the same, too
    let same = Fq2::equal_constant(&mut ctx, &dec.y, fq2_as_montgomery(fq2_value(p.y)));
    assert!(ctx.lookup_wire(same));
}

#[test]
fn test_groth16_compressed_decompress_matches_proof_points() {
    let mut inputs = proof_with_public(33333, 4, 8);
    inputs.public = vec![ArkFr::from(0u64)];
    let compressed = inputs.input().compress();

    let mut ctx = ExecuteMode::new();
    let wires = compressed.allocate(&mut ctx);
    compressed.encode(&wires, &mut ctx);
    let a_dec = decompress_g1_from_compressed(&mut ctx, &wires.a);
    let b_dec = decompress_g2_from_compressed(&mut ctx, &wires.b);
    let c_dec = decompress_g1_from_compressed(&mut ctx, &wires.c);

    let fq = |x: ark_bn254::Fq| fq_as_montgomery(fq_value(x));
    let fq2 = |x: ark_bn254::Fq2| fq2_as_montgomery(fq2_value(x));
    let checks = vec![
        Fq::equal_constant(&mut ctx, &a_dec.x, fq(inputs.a.x)),
        Fq::equal_constant(&mut ctx, &a_dec.y, fq(inputs.a.y)),
        Fq::equal_constant(&mut ctx, &a_dec.z, fq(inputs.a.z)),
        Fq2::equal_constant(&mut ctx, &b_dec.x, fq2(inputs.b.x)),
        Fq2::equal_constant(&mut ctx, &b_dec.y, fq2(inputs.b.y)),
        Fq2::equal_constant(&mut ctx, &b_dec.z, fq2(inputs.b.z)),
        Fq::equal_constant(&mut ctx, &c_dec.x, fq(inputs.c.x)),
        Fq::equal_constant(&mut ctx, &c_dec.y, fq(inputs.c.y)),
        Fq::equal_constant(&mut ctx, &c_dec.z, fq(inputs.c.z)),
    ];
    assert!(lookup_all(&ctx, &checks));
}

#[test]
fn test_groth16_verify_compressed_true_small() {
    let inputs = proof_with_public(33333, 4, 8);
    assert!(run_verify_compressed(&inputs.input().compress()));
}

#[derive(Copy, Clone)]
enum VerifyFlow {
    Uncompressed,
    Compressed,
}

fn run_small_verify(flow: VerifyFlow, seed: u64, mutate: impl FnOnce(&mut ArkInput)) -> bool {
    let mut inputs = proof_with_public(seed, 4, 8);
    mutate(&mut inputs);
    match flow {
        VerifyFlow::Uncompressed => run_verify(&inputs.input()),
        VerifyFlow::Compressed => run_verify_compressed(&inputs.input().compress()),
    }
}

#[test]
fn test_small_verify_true_uncompressed() {
    assert!(run_small_verify(VerifyFlow::Uncompressed, 10101, |_| {}));
}

#[test]
fn test_small_verify_true_compressed() {
    assert!(run_small_verify(VerifyFlow::Compressed, 20202, |_| {}));
}

#[test]
fn test_small_verify_false_bitflip_a_uncompressed() {
    assert!(!run_small_verify(VerifyFlow::Uncompressed, 30303, |inputs| {
        inputs.a.x += ark_bn254::Fq::ONE;
    }));
}

#[test]
fn test_small_verify_false_bitflip_a_compressed() {
    assert!(!run_small_verify(VerifyFlow::Compressed, 40404, |inputs| {
        inputs.a.x += ark_bn254::Fq::ONE;
    }));
}

#[test]
fn test_small_verify_false_bitflip_b_uncompressed() {
    assert!(!run_small_verify(VerifyFlow::Uncompressed, 50505, |inputs| {
        inputs.b.x.c0 += ark_bn254::Fq::ONE;
    }));
}

#[test]
fn test_small_verify_false_bitflip_b_compressed() {
    assert!(!run_small_verify(VerifyFlow::Compressed, 60606, |inputs| {
        inputs.b.x.c0 += ark_bn254::Fq::ONE;
    }));
}

#[test]
fn test_small_verify_false_bitflip_c_uncompressed() {
    assert!(!run_small_verify(VerifyFlow::Uncompressed, 70707, |inputs| {
        inputs.c.x += ark_bn254::Fq::ONE;
    }));
}

#[test]
fn test_small_verify_false_bitflip_c_compressed() {
    assert!(!run_small_verify(VerifyFlow::Compressed, 80808, |inputs| {
        inputs.c.x += ark_bn254::Fq::ONE;
    }));
}

#[test]
fn test_verify_false_wrong_public_input() {
    let mut inputs = proof_with_public(10102, 4, 8);
    inputs.public[0] += ArkFr::ONE;
    assert!(!run_verify(&inputs.input()));
}

#[test]
fn test_execute_both_verifiers() {
    let inputs = proof_with_public(424242, 4, 8);
    assert_eq!(execute_groth16_verify(&inputs.input()), Some(true));
    assert_eq!(execute_groth16_verify_compressed(&inputs.input().compress()), Some(true));
    let mut wrong = inputs.clone();
    wrong.public[0] += ArkFr::ONE;
    assert_eq!(execute_groth16_verify(&wrong.input()), Some(false));
    assert_eq!(execute_groth16_verify_compressed(&wrong.input().compress()), Some(false));
}

#[test]
fn test_alpha_beta_pairing_matches_ark() {
    let inputs = proof_with_public(5150, 4, 8);
    let expected = ark_bn254::Bn254::pairing(inputs.vk.alpha_g1, inputs.vk.beta_g2).0;
    assert_eq!(alpha_beta_pairing(&vk_value(&inputs.vk)), Some(fq12_value(expected)));
}

#[test]
fn test_alpha_beta_pairing_with_points_at_infinity() {
    let inputs = proof_with_public(5151, 4, 8);
    let one = fq12_value(ark_bn254::Fq12::ONE);
    let mut vk = vk_value(&inputs.vk);
    vk.alpha_g1.infinity = true;
    assert_eq!(alpha_beta_pairing(&vk), Some(one));
    let mut vk = vk_value(&inputs.vk);
    vk.beta_g2.infinity = true;
    assert_eq!(alpha_beta_pairing(&vk), Some(one));
}

#[test]
fn test_decompression_keeps_the_wires_of_the_abscissa() {
    let mut ctx = ExecuteMode::new();
    let g1 = CompressedG1Wires::new(&mut ctx);
    let g2 = CompressedG2Wires::new(&mut ctx);
    let p = decompress_g1_from_compressed(&mut ctx, &g1);
    let q = decompress_g2_from_compressed(&mut ctx, &g2);
    assert!(p.x.to_wires_vec() == g1.x_m.to_wires_vec());
    assert!(q.x.to_wires_vec() == g2.p.to_wires_vec());
}

#[test]
fn test_verify_with_given_pairing() {
    let inputs = proof_with_public(616, 4, 8);
    let input = inputs.input();
    let right = alpha_beta_pairing(&input.vk).unwrap();
    let other = fq12_value(ark_bn254::Fq12::ONE);

    let mut ctx = ExecuteMode::new();
    let wires = input.allocate(&mut ctx);
    input.encode(&wires, &mut ctx);
    let yes = groth16_verify_with_pairing(&mut ctx, &wires, right);
    let no = groth16_verify_with_pairing(&mut ctx, &wires, other);
    assert!(ctx.lookup_wire(yes));
    assert!(!ctx.lookup_wire(no));

    let compressed = inputs.input().compress();
    let mut ctx = ExecuteMode::new();
    let wires = compressed.allocate(&mut ctx);
    compressed.encode(&wires, &mut ctx);
    let yes = groth16_verify_compressed_with_pairing(&mut ctx, &wires, right);
    let no = groth16_verify_compressed_with_pairing(&mut ctx, &wires, other);
    assert!(ctx.lookup_wire(yes));
    assert!(!ctx.lookup_wire(no));
}

#[test]
fn test_checked_verifiers() {
    let inputs = proof_with_public(717, 4, 8);
    let input = inputs.input();
    let mut ctx = ExecuteMode::new();
    let wires = input.allocate(&mut ctx);
    input.encode(&wires, &mut ctx);
    let out = groth16_verify_checked(&mut ctx, &wires).unwrap();
    assert!(ctx.lookup_wire(out));

    let compressed = inputs.input().compress();
    let mut ctx = ExecuteMode::new();
    let wires = compressed.allocate(&mut ctx);
    compressed.encode(&wires, &mut ctx);
    let out = groth16_verify_compressed_checked(&mut ctx, &wires).unwrap();
    assert!(ctx.lookup_wire(out));
}

#[test]
fn test_allocation_issues_consecutive_wires() {
    let inputs = proof_with_public(818, 4, 8);
    let mut ctx = ExecuteMode::new();
    let wires = inputs.input().allocate(&mut ctx);
    let ids = Groth16VerifyInput::collect_wire_ids(&wires);
    assert_eq!(ids.len(), 254 + 3048);
    for (i, w) in ids.iter().enumerate() {
        assert_eq!(w.0, i + 2);
    }

    let mut ctx = ExecuteMode::new();
    let wires = inputs.input().compress().allocate(&mut ctx);
    let ids = Groth16VerifyCompressedInput::collect_wire_ids(&wires);
    assert_eq!(ids.len(), 254 + 1019);
    assert_eq!(ids, wires.to_wires_vec());
    let again = wires.clone_from(&mut ctx);
    assert_eq!(again.to_wires_vec()[0].0, 2 + 254 + 1019);
}

#[test]
fn test_compression_flags() {
    let mut rng = ChaCha20Rng::seed_from_u64(919);
    for _ in 0..4 {
        let p = (ark_bn254::G1Projective::generator() * ArkFr::rand(&mut rng)).into_affine();
        let (x, flag) = compress_g1(g1_affine_value(p));
        let (nx, nflag) = compress_g1(g1_affine_value(-p));
        assert_eq!(x, fq_value(p.x));
        assert_eq!(nx, x);
        assert_ne!(flag, nflag);
        assert_eq!(flag, p.y.square().sqrt().unwrap() == p.y);

        let q = (ark_bn254::G2Projective::generator() * ArkFr::rand(&mut rng)).into_affine();
        let (x, flag) = compress_g2(g2_affine_value(q));
        let (nx, nflag) = compress_g2(g2_affine_value(-q));
        assert_eq!(x, fq2_value(q.x));
        assert_eq!(nx, x);
        assert_ne!(flag, nflag);
        assert_eq!(flag, q.y.square().sqrt().unwrap() == q.y);
    }
}

#[test]
fn test_decompression_of_an_imaginary_ordinate() {
    let parse = |s: &str| s.parse::<ark_bn254::Fq>().unwrap();
    let x = ark_bn254::Fq2::new(
        parse("4546543209678665788224521469779562744433843130370426060783237250367125645360"),
        parse("7863985979098080569522932160367686370280305971245060869018465285376574119676"),
    );
    let y = ark_bn254::Fq2::new(ark_bn254::Fq::from(0u64), ark_bn254::Fq::from(2u64));
    for y in [y, -y] {
        let p = ark_bn254::G2Affine::new_unchecked(x, y);
        assert!(p.is_on_curve());
        let mut ctx = ExecuteMode::new();
        let wires = CompressedG2Wires::new(&mut ctx);
        feed_compressed_g2(&mut ctx, &wires, g2_affine_value(p));
        let dec = decompress_g2_from_compressed(&mut ctx, &wires);
        let x_ok = Fq2::equal_constant(&mut ctx, &dec.x, fq2_as_montgomery(fq2_value(x)));
        let y_ok = Fq2::equal_constant(&mut ctx, &dec.y, fq2_as_montgomery(fq2_value(y)));
        let one = fq2_as_montgomery(fq2_value(ark_bn254::Fq2::ONE));
        let z_ok = Fq2::equal_constant(&mut ctx, &dec.z, one);
        assert!(lookup_all(&ctx, &[x_ok, y_ok, z_ok]));
    }
}

#[test]
fn test_verification_equation() {
    let inputs = proof_with_public(1122, 4, 8);
    let e = |p: ark_bn254::G1Projective, q: ark_bn254::G2Projective| {
        ark_bn254::Bn254::pairing(p.into_affine(), q.into_affine()).0
    };
    let holds = |inputs: &ArkInput| {
        let vk = &inputs.vk;
        let l = vk.gamma_abc_g1[1] * inputs.public[0] + vk.gamma_abc_g1[0];
        let right = e(vk.alpha_g1.into(), vk.beta_g2.into())
            * e(l, vk.gamma_g2.into())
            * e(inputs.c, vk.delta_g2.into());
        e(inputs.a, inputs.b) == right
    };
    assert!(holds(&inputs));
    assert!(run_verify(&inputs.input()));
    let mut wrong = inputs.clone();
    wrong.c = (wrong.c + ark_bn254::G1Projective::generator()).into_affine().into();
    assert!(!holds(&wrong));
    assert!(!run_verify(&wrong.input()));
}

/// A key whose points for public inputs are given, and a proof that it accepts
/// for the public input one.
fn proof_for_points(seed: u64, gamma_abc: [ark_bn254::G1Affine; 2]) -> ArkInput {
    let mut rng = ChaCha20Rng::seed_from_u64(seed);
    let g1 = ark_bn254::G1Projective::generator();
    let g2 = ark_bn254::G2Projective::generator();
    let [alpha, beta, delta, c] = [(); 4].map(|_| ArkFr::rand(&mut rng));
    let input = ArkInput {
        public: vec![ArkFr::from(1u64)],
        // A B = alpha beta + (sum of the points) gamma + C delta, where gamma is one
        a: (g1 * (alpha * beta + c * delta) + gamma_abc[0] + gamma_abc[1]).into_affine().into(),
        b: g2,
        c: (g1 * c).into_affine().into(),
        vk: ark_groth16::VerifyingKey {
            alpha_g1: (g1 * alpha).into_affine(),
            beta_g2: (g2 * beta).into_affine(),
            gamma_g2: g2.into_affine(),
            delta_g2: (g2 * delta).into_affine(),
            gamma_abc_g1: gamma_abc.to_vec(),
        },
    };
    let proof = ark_groth16::Proof {
        a: input.a.into_affine(),
        b: input.b.into_affine(),
        c: input.c.into_affine(),
    };
    assert!(ArkGroth16::verify(&input.vk, &input.public, &proof).unwrap());
    input
}

#[test]
fn test_verify_where_equal_points_are_added() {
    let p = (ark_bn254::G1Projective::generator() * ArkFr::from(77u64)).into_affine();
    let inputs = proof_for_points(1123, [p, p]);
    assert!(run_verify(&inputs.input()));
    assert!(run_verify_compressed(&inputs.input().compress()));
    let mut wrong = inputs.clone();
    wrong.public[0] += ArkFr::ONE;
    assert!(!run_verify(&wrong.input()));
}

#[test]
fn test_verify_where_opposite_points_are_added() {
    let p = (ark_bn254::G1Projective::generator() * ArkFr::from(78u64)).into_affine();
    let inputs = proof_for_points(1124, [p, -p]);
    assert!(run_verify(&inputs.input()));
    assert!(run_verify_compressed(&inputs.input().compress()));
}

#[test]
fn test_compression_normalizes_points() {
    let mut inputs = proof_with_public(1021, 4, 8);
    let two = ark_bn254::Fq::from(2u64);
    inputs.a = ark_bn254::G1Projective {
        x: inputs.a.x * two.square(),
        y: inputs.a.y * two.square() * two,
        z: inputs.a.z * two,
    };
    let i = ark_bn254::Fq2::new(two, ark_bn254::Fq::ONE);
    inputs.b = ark_bn254::G2Projective {
        x: inputs.b.x * i.square(),
        y: inputs.b.y * i.square() * i,
        z: inputs.b.z * i,
    };
    assert!(run_verify_compressed(&inputs.input().compress()));
}

#[test]
fn test_projective_to_affine_matches_ark() {
    let mut rng = ChaCha20Rng::seed_from_u64(1122);
    let p = ark_bn254::G1Projective::rand(&mut rng);
    let mut ctx = ExecuteMode::new();
    let wires = G1Projective::new(&mut ctx);
    feed_g1(&mut ctx, &wires, g1_value(p));
    let r = projective_to_affine_montgomery(&mut ctx, &wires);
    let q = p.into_affine();
    assert_eq!(fq_from_montgomery(ctx.read_number(&r.x.0)), fq_value(q.x));
    assert_eq!(fq_from_montgomery(ctx.read_number(&r.y.0)), fq_value(q.y));
    assert_eq!(fq_from_montgomery(ctx.read_number(&r.z.0)), fq_value(ark_bn254::Fq::ONE));
}

#[test]
fn test_small_circuit_steps() {
    let circuit = DummyCircuit::<u8> { a: None, b: None, num_variables: 4, num_constraints: 3 };
    assert_eq!(
        circuit.steps(),
        vec![
            SynthesisStep::Witness(Assigned::A),
            SynthesisStep::Witness(Assigned::B),
            SynthesisStep::Input(Assigned::Product),
            SynthesisStep::Witness(Assigned::A),
            SynthesisStep::ConstrainProduct,
            SynthesisStep::ConstrainProduct,
            SynthesisStep::ConstrainZero,
        ]
    );
    let private = DummyCircuitNoPublicInputs::<u8> {
        a: None,
        b: None,
        num_variables: 3,
        num_constraints: 1,
    };
    assert_eq!(
        private.steps(),
        vec![
            SynthesisStep::Witness(Assigned::A),
            SynthesisStep::Witness(Assigned::B),
            SynthesisStep::Witness(Assigned::Product),
            SynthesisStep::ConstrainZero,
        ]
    );
}
