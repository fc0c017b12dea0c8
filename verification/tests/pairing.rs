use ark_ec::bn::BnConfig;
use ark_ec::pairing::Pairing;
use ark_ec::short_weierstrass::SWCurveConfig;
use ark_ec::{AdditiveGroup, AffineRepr, CurveGroup, PrimeGroup};
use ark_ff::{Field, PrimeField, UniformRand};
use garbled_snark_verifier::circuit::{true_wire, CircuitContext, ExecuteMode, GateKind};
use garbled_snark_verifier::gadgets::bn254::final_exponentiation::{
    conjugate_native, cyclotomic_exp_native, exp_by_neg_x_montgomery, exp_by_neg_x_native,
    final_exponentiation_montgomery, final_exponentiation_native,
};
use garbled_snark_verifier::gadgets::bn254::fq::Fq;
use garbled_snark_verifier::gadgets::bn254::pairing::{
    add_in_place, double_in_place, ell_coeffs, ell_coeffs_montgomery, ell_eval_const, ell_montgomery,
    g2_affine_neg_evaluate, g2_frobenius_map_affine, g2_line_coeffs_add, g2_line_coeffs_double,
    g2_normalize_to_affine, miller_loop_const_q, miller_loop_const_q_affine,
    miller_loop_montgomery_fast, mul_by_char, multi_miller_loop_const_q_affine,
    multi_miller_loop_groth16_evaluate_montgomery_fast, multi_miller_loop_montgomery_fast,
    multi_pairing_const_q, pairing_const_q,
};
use garbled_snark_verifier::gadgets::bn254::wires::{Fq12, Fq2, Fq6, G1Projective, G2Projective};
use garbled_snark_verifier::gadgets::input::{feed_fq2, feed_g1, feed_g2};
use garbled_snark_verifier::native::constants::{ate_loop_count, coeff_b2_value};
use garbled_snark_verifier::native::fq::{fq_from_montgomery, FqValue};
use garbled_snark_verifier::native::points::{G1ProjectiveValue, G2AffineValue, G2ProjectiveValue};
use garbled_snark_verifier::native::tower::{
    fq12_frobenius, fq12_inverse, fq12_mul, fq12_one, fq2_as_montgomery, Fq12Value, Fq2Value,
    Fq6Value,
};
use rand::{Rng, SeedableRng};
use rand_chacha::ChaCha20Rng;

fn fq_value(x: ark_bn254::Fq) -> FqValue {
    let w = x.into_bigint().0;
    FqValue { w0: w[0], w1: w[1], w2: w[2], w3: w[3] }
}

fn fq_ark(v: FqValue) -> ark_bn254::Fq {
    ark_bn254::Fq::new(ark_ff::BigInt([v.w0, v.w1, v.w2, v.w3]))
}

fn fq2_value(x: ark_bn254::Fq2) -> Fq2Value {
    Fq2Value { c0: fq_value(x.c0), c1: fq_value(x.c1) }
}

fn fq2_ark(v: Fq2Value) -> ark_bn254::Fq2 {
    ark_bn254::Fq2::new(fq_ark(v.c0), fq_ark(v.c1))
}

fn fq6_value(x: ark_bn254::Fq6) -> Fq6Value {
    Fq6Value { c0: fq2_value(x.c0), c1: fq2_value(x.c1), c2: fq2_value(x.c2) }
}

fn fq6_ark(v: Fq6Value) -> ark_bn254::Fq6 {
    ark_bn254::Fq6::new(fq2_ark(v.c0), fq2_ark(v.c1), fq2_ark(v.c2))
}

fn fq12_value(x: ark_bn254::Fq12) -> Fq12Value {
    Fq12Value { c0: fq6_value(x.c0), c1: fq6_value(x.c1) }
}

fn fq12_ark(v: Fq12Value) -> ark_bn254::Fq12 {
    ark_bn254::Fq12::new(fq6_ark(v.c0), fq6_ark(v.c1))
}

fn g1_value(p: ark_bn254::G1Projective) -> G1ProjectiveValue {
    G1ProjectiveValue { x: fq_value(p.x), y: fq_value(p.y), z: fq_value(p.z) }
}

fn g2_value(p: ark_bn254::G2Projective) -> G2ProjectiveValue {
    G2ProjectiveValue { x: fq2_value(p.x), y: fq2_value(p.y), z: fq2_value(p.z) }
}

fn g2_affine_value(p: ark_bn254::G2Affine) -> G2AffineValue {
    G2AffineValue { x: fq2_value(p.x), y: fq2_value(p.y), infinity: p.infinity }
}

/// The element that the wires carry, out of Montgomery form.
fn read_fq(cache: &ExecuteMode, w: &Fq) -> ark_bn254::Fq {
    fq_ark(fq_from_montgomery(cache.read_number(&w.0)))
}

fn read_fq2(cache: &ExecuteMode, w: &Fq2) -> ark_bn254::Fq2 {
    ark_bn254::Fq2::new(read_fq(cache, &w.c0), read_fq(cache, &w.c1))
}

fn read_fq6(cache: &ExecuteMode, w: &Fq6) -> ark_bn254::Fq6 {
    ark_bn254::Fq6::new(
        read_fq2(cache, &w.c0),
        read_fq2(cache, &w.c1),
        read_fq2(cache, &w.c2),
    )
}

fn read_fq12(cache: &ExecuteMode, w: &Fq12) -> ark_bn254::Fq12 {
    ark_bn254::Fq12::new(read_fq6(cache, &w.c0), read_fq6(cache, &w.c1))
}

fn read_g2(cache: &ExecuteMode, w: &G2Projective) -> ark_bn254::G2Projective {
    ark_bn254::G2Projective::new(
        read_fq2(cache, &w.x),
        read_fq2(cache, &w.y),
        read_fq2(cache, &w.z),
    )
}

fn input_fq6(cache: &mut ExecuteMode, v: ark_bn254::Fq6) -> Fq6 {
    let w = Fq6::new(cache);
    feed_fq2(cache, &w.c0, fq2_value(v.c0));
    feed_fq2(cache, &w.c1, fq2_value(v.c1));
    feed_fq2(cache, &w.c2, fq2_value(v.c2));
    w
}

fn input_fq12(cache: &mut ExecuteMode, v: ark_bn254::Fq12) -> Fq12 {
    let c0 = input_fq6(cache, v.c0);
    let c1 = input_fq6(cache, v.c1);
    Fq12::from_components(c0, c1)
}

fn input_g1(cache: &mut ExecuteMode, p: ark_bn254::G1Projective) -> G1Projective {
    let w = G1Projective::new(cache);
    feed_g1(cache, &w, g1_value(p));
    w
}

fn input_g2(cache: &mut ExecuteMode, p: ark_bn254::G2Projective) -> G2Projective {
    let w = G2Projective::new(cache);
    feed_g2(cache, &w, g2_value(p));
    w
}

fn rnd_fr(rng: &mut impl Rng) -> ark_bn254::Fr {
    let mut prng = ChaCha20Rng::seed_from_u64(rng.gen());
    ark_bn254::Fr::rand(&mut prng)
}

fn random_g1_affine(rng: &mut impl Rng) -> ark_bn254::G1Affine {
    (ark_bn254::G1Projective::generator() * rnd_fr(rng)).into_affine()
}

fn random_g2_affine(rng: &mut impl Rng) -> ark_bn254::G2Affine {
    (ark_bn254::G2Projective::generator() * rnd_fr(rng)).into_affine()
}

fn z_one(q: ark_bn254::G2Affine) -> ark_bn254::G2Projective {
    ark_bn254::G2Projective::new(q.x, q.y, ark_bn254::Fq2::ONE)
}

#[test]
fn test_ell_eval_var_matches_ark_step() {
    let mut rng = ChaCha20Rng::seed_from_u64(77);
    let f0 = ark_bn254::Fq12::rand(&mut rng);
    let coeffs = ark_bn254::Fq6::rand(&mut rng);
    let p_aff = random_g1_affine(&mut rng);

    let mut expected = f0;
    let mut c0 = coeffs.c0;
    let mut c1 = coeffs.c1;
    c0.mul_assign_by_fp(&p_aff.y);
    c1.mul_assign_by_fp(&p_aff.x);
    expected.mul_by_034(&c0, &c1, &coeffs.c2);

    let mut cache = ExecuteMode::new();
    let f = input_fq12(&mut cache, f0);
    let p = input_g1(&mut cache, p_aff.into_group());
    let c = input_fq6(&mut cache, coeffs);
    let out = ell_montgomery(&mut cache, &f, &c, &p);
    assert_eq!(read_fq12(&cache, &out), expected);
}

#[test]
fn test_g2_normalize_to_affine_matches_host() {
    let mut rng = ChaCha20Rng::seed_from_u64(0xA11FE2);
    let r = ark_bn254::G2Projective::generator() * rnd_fr(&mut rng);
    let r_aff = r.into_affine();

    let mut cache = ExecuteMode::new();
    let w = input_g2(&mut cache, r);
    let out = g2_normalize_to_affine(&mut cache, &w);
    assert_eq!(read_fq2(&cache, &out.x), r_aff.x);
    assert_eq!(read_fq2(&cache, &out.y), r_aff.y);
    assert_eq!(read_fq2(&cache, &out.z), ark_bn254::Fq2::ONE);
    assert_eq!(read_g2(&cache, &out), z_one(r_aff));
}

#[test]
fn test_g2_line_coeffs_double_matches_host() {
    let mut rng = ChaCha20Rng::seed_from_u64(0xD0u64);
    let r = ark_bn254::G2Projective::generator() * rnd_fr(&mut rng);
    let r_aff = r.into_affine();
    let x = r_aff.x;
    let y = r_aff.y;
    let lambda = (x.square() + x.square() + x.square()) * (y.double()).inverse().unwrap();
    let next = z_one((r.double()).into_affine());

    let mut cache = ExecuteMode::new();
    let w = input_g2(&mut cache, r);
    let (out, line) = g2_line_coeffs_double(&mut cache, &w);
    assert_eq!(read_g2(&cache, &out), next);
    assert_eq!(read_fq2(&cache, &line.c0), ark_bn254::Fq2::ONE);
    assert_eq!(read_fq2(&cache, &line.c1), -lambda);
    assert_eq!(read_fq2(&cache, &line.c2), lambda * x - y);
}

#[test]
fn test_g2_line_coeffs_add_matches_host() {
    let mut rng = ChaCha20Rng::seed_from_u64(0xADDu64);
    let r = ark_bn254::G2Projective::generator() * rnd_fr(&mut rng);
    let q = ark_bn254::G2Projective::generator() * rnd_fr(&mut rng);
    let r_aff = r.into_affine();
    let q_aff = q.into_affine();
    assert_ne!(r_aff.x, q_aff.x);
    let lambda = (q_aff.y - r_aff.y) * (q_aff.x - r_aff.x).inverse().unwrap();
    let next = z_one((r + q).into_affine());

    let mut cache = ExecuteMode::new();
    let wr = input_g2(&mut cache, r);
    let wq = input_g2(&mut cache, q);
    let (out, line) = g2_line_coeffs_add(&mut cache, &wr, &wq);
    assert_eq!(read_g2(&cache, &out), next);
    assert_eq!(read_fq2(&cache, &line.c0), ark_bn254::Fq2::ONE);
    assert_eq!(read_fq2(&cache, &line.c1), -lambda);
    assert_eq!(read_fq2(&cache, &line.c2), lambda * r_aff.x - r_aff.y);
}

#[test]
fn test_g2_frobenius_map_affine_matches_host() {
    let mut rng = ChaCha20Rng::seed_from_u64(0xF10B1);
    let r_aff = random_g2_affine(&mut rng);
    for i in [1usize, 2usize] {
        let x_p = r_aff.x.frobenius_map(1);
        let y_p = r_aff.y.frobenius_map(1);
        let cx = ark_bn254::Config::TWIST_MUL_BY_Q_X;
        let cy = ark_bn254::Config::TWIST_MUL_BY_Q_Y;
        let (exp_x, exp_y) = if i == 1 {
            (x_p * cx, y_p * cy)
        } else {
            let x1 = x_p * cx;
            let y1 = y_p * cy;
            (x1.frobenius_map(1) * cx, -(y1.frobenius_map(1) * cy))
        };

        let mut cache = ExecuteMode::new();
        let w = input_g2(&mut cache, z_one(r_aff));
        let out = g2_frobenius_map_affine(&mut cache, &w, i);
        assert_eq!(read_fq2(&cache, &out.x), exp_x);
        assert_eq!(read_fq2(&cache, &out.y), exp_y);
        assert_eq!(read_fq2(&cache, &out.z), ark_bn254::Fq2::ONE);
    }
}

#[test]
fn frobenius_powers_are_taken_modulo_three() {
    let mut rng = ChaCha20Rng::seed_from_u64(3);
    let q = random_g2_affine(&mut rng);
    let mut cache = ExecuteMode::new();
    let w = input_g2(&mut cache, z_one(q));
    let out = g2_frobenius_map_affine(&mut cache, &w, 3);
    assert_eq!(read_g2(&cache, &out), z_one(q));
}

#[test]
fn test_ell_coeffs_montgomery_fast_matches_host() {
    let mut rng = ChaCha20Rng::seed_from_u64(0xECFF);
    let q_aff = random_g2_affine(&mut rng);
    let prepared: <ark_bn254::Bn254 as Pairing>::G2Prepared = q_aff.into();
    let expected = prepared.ell_coeffs;

    let mut cache = ExecuteMode::new();
    let w = input_g2(&mut cache, z_one(q_aff));
    let got = ell_coeffs_montgomery(&mut cache, &w);
    assert_eq!(got.len(), expected.len());
    let mut ok = true_wire();
    for (i, coeff) in got.iter().enumerate() {
        let (e0, e1, e2) = expected[i];
        let t0 = Fq2::equal_constant(&mut cache, &coeff.c0, fq2_as_montgomery(fq2_value(e0)));
        let t1 = Fq2::equal_constant(&mut cache, &coeff.c1, fq2_as_montgomery(fq2_value(e1)));
        let t2 = Fq2::equal_constant(&mut cache, &coeff.c2, fq2_as_montgomery(fq2_value(e2)));
        let t01 = cache.add_gate(GateKind::And, t0, t1);
        let t = cache.add_gate(GateKind::And, t01, t2);
        ok = cache.add_gate(GateKind::And, ok, t);
    }
    assert!(cache.lookup_wire(ok));
}

#[test]
fn test_ell_coeffs_matches_arkworks() {
    let mut rng = ChaCha20Rng::seed_from_u64(42);
    let q = random_g2_affine(&mut rng);
    let ours = ell_coeffs(g2_affine_value(q));
    let prepared: <ark_bn254::Bn254 as Pairing>::G2Prepared = q.into();
    let ark = prepared.ell_coeffs;
    assert_eq!(ours.len(), ark.len(), "coeff vector length mismatch");
    for (i, (a, b)) in ours.iter().zip(ark.iter()).enumerate() {
        assert_eq!(fq2_ark(a.c0), b.0, "c0 mismatch at idx {i}");
        assert_eq!(fq2_ark(a.c1), b.1, "c1 mismatch at idx {i}");
        assert_eq!(fq2_ark(a.c2), b.2, "c2 mismatch at idx {i}");
    }
}

#[test]
fn test_final_exponentiation_matches_arkworks() {
    let mut rng = ChaCha20Rng::seed_from_u64(12345);
    let p = random_g1_affine(&mut rng);
    let q = random_g2_affine(&mut rng);
    let f_ml = ark_bn254::Bn254::multi_miller_loop([p], [q]).0;
    let expected = ark_bn254::Bn254::pairing(p, q);

    let mut cache = ExecuteMode::new();
    let f = input_fq12(&mut cache, f_ml);
    let out = final_exponentiation_montgomery(&mut cache, &f);
    assert_eq!(read_fq12(&cache, &out), expected.0);
}

#[test]
fn test_final_exponentiation_streaming_matches_ark() {
    let mut rng = ChaCha20Rng::seed_from_u64(123);
    let p = ark_bn254::G1Affine::rand(&mut rng);
    let q = ark_bn254::G2Affine::rand(&mut rng);
    let f_ml = ark_bn254::Bn254::multi_miller_loop([p], [q]).0;
    let expected = ark_bn254::Bn254::pairing(p, q);

    let mut cache = ExecuteMode::new();
    let f = input_fq12(&mut cache, f_ml);
    let out = final_exponentiation_montgomery(&mut cache, &f);
    assert_eq!(read_fq12(&cache, &out), expected.0);
}

#[test]
fn native_final_exponentiation_matches_ark() {
    let mut rng = ChaCha20Rng::seed_from_u64(5);
    let p = random_g1_affine(&mut rng);
    let q = random_g2_affine(&mut rng);
    let f_ml = ark_bn254::Bn254::multi_miller_loop([p], [q]).0;
    let expected = ark_bn254::Bn254::pairing(p, q).0;
    assert_eq!(fq12_ark(final_exponentiation_native(fq12_value(f_ml))), expected);
}

#[test]
fn native_powers_match_ark() {
    let mut rng = ChaCha20Rng::seed_from_u64(6);
    let f = ark_bn254::Fq12::rand(&mut rng);
    let x = ark_bn254::Config::X;
    assert_eq!(fq12_ark(cyclotomic_exp_native(fq12_value(f))), f.pow(x));
    let conjugate = ark_bn254::Fq12::new(f.c0, -f.c1);
    assert_eq!(fq12_ark(conjugate_native(fq12_value(f))), conjugate);
    let mut power = f.pow(x);
    power.c1 = -power.c1;
    assert_eq!(fq12_ark(exp_by_neg_x_native(fq12_value(f))), power);
}

#[test]
fn power_of_minus_x_is_the_inverse_of_the_power() {
    let mut rng = ChaCha20Rng::seed_from_u64(8);
    let p = random_g1_affine(&mut rng);
    let q = random_g2_affine(&mut rng);
    let f0 = ark_bn254::Bn254::pairing(p, q).0;
    let mut cache = ExecuteMode::new();
    let f = input_fq12(&mut cache, f0);
    let out = exp_by_neg_x_montgomery(&mut cache, &f);
    let expected = f0.pow(ark_bn254::Config::X).inverse().unwrap();
    assert_eq!(read_fq12(&cache, &out), expected);
}

#[test]
fn test_miller_loop_var_q_matches_ark_single() {
    let mut rng = ChaCha20Rng::seed_from_u64(0x515AF1);
    let p_aff = random_g1_affine(&mut rng);
    let q_aff = random_g2_affine(&mut rng);
    let expected = ark_bn254::Bn254::pairing(p_aff, q_aff);

    let mut cache = ExecuteMode::new();
    let p = input_g1(&mut cache, p_aff.into_group());
    let q = input_g2(&mut cache, z_one(q_aff));
    let f = miller_loop_montgomery_fast(&mut cache, &p, &q);
    let out = final_exponentiation_montgomery(&mut cache, &f);
    assert_eq!(read_fq12(&cache, &out), expected.0);
}

#[test]
fn test_ell_eval_const_matches_ark_step() {
    let mut rng = ChaCha20Rng::seed_from_u64(7);
    let q = random_g2_affine(&mut rng);
    let coeffs = ell_coeffs(g2_affine_value(q));
    let coeff = coeffs[0];
    let p_affine = random_g1_affine(&mut rng);

    let line = fq6_ark(coeff);
    let mut exp_c0 = line.c0;
    let mut exp_c1 = line.c1;
    exp_c0.mul_assign_by_fp(&p_affine.y);
    exp_c1.mul_assign_by_fp(&p_affine.x);
    let mut expected = ark_bn254::Fq12::ONE;
    expected.mul_by_034(&exp_c0, &exp_c1, &line.c2);

    let mut cache = ExecuteMode::new();
    let f = input_fq12(&mut cache, ark_bn254::Fq12::ONE);
    let p = input_g1(&mut cache, p_affine.into_group());
    let out = ell_eval_const(&mut cache, &f, &coeff, &p);
    assert_eq!(read_fq12(&cache, &out), expected);
}

#[test]
fn test_miller_loop_const_q_matches_ark_single() {
    let mut rng = ChaCha20Rng::seed_from_u64(11);
    let p_aff = random_g1_affine(&mut rng);
    let q = random_g2_affine(&mut rng);
    let expected = ark_bn254::Bn254::multi_miller_loop([p_aff], [q]).0;

    let mut cache = ExecuteMode::new();
    let p = input_g1(&mut cache, p_aff.into_group());
    let out = miller_loop_const_q(&mut cache, &p, &g2_affine_value(q));
    assert_eq!(read_fq12(&cache, &out), expected);
    let out = miller_loop_const_q_affine(&mut cache, &p, &g2_affine_value(q));
    assert_eq!(read_fq12(&cache, &out), expected);
}

#[test]
fn miller_loop_normalizes_its_point() {
    let mut rng = ChaCha20Rng::seed_from_u64(21);
    let p = ark_bn254::G1Projective::generator() * rnd_fr(&mut rng);
    assert_ne!(p.z, ark_bn254::Fq::ONE);
    let q = random_g2_affine(&mut rng);
    let expected = ark_bn254::Bn254::multi_miller_loop([p], [q]).0;
    let mut cache = ExecuteMode::new();
    let w = input_g1(&mut cache, p);
    let out = miller_loop_const_q(&mut cache, &w, &g2_affine_value(q));
    assert_eq!(read_fq12(&cache, &out), expected);
}

#[test]
fn test_pairing_const_q_matches_ark_single() {
    let mut rng = ChaCha20Rng::seed_from_u64(12);
    let p_aff = random_g1_affine(&mut rng);
    let q = random_g2_affine(&mut rng);
    let expected = ark_bn254::Bn254::pairing(p_aff, q);

    let mut cache = ExecuteMode::new();
    let p = input_g1(&mut cache, p_aff.into_group());
    let out = pairing_const_q(&mut cache, &p, &g2_affine_value(q));
    assert_eq!(read_fq12(&cache, &out), expected.0);
}

#[test]
fn test_multi_pairing_const_q_matches_ark_n3() {
    let mut rng = ChaCha20Rng::seed_from_u64(13);
    let p0 = random_g1_affine(&mut rng);
    let p1 = random_g1_affine(&mut rng);
    let p2 = random_g1_affine(&mut rng);
    let q0 = random_g2_affine(&mut rng);
    let q1 = random_g2_affine(&mut rng);
    let q2 = random_g2_affine(&mut rng);
    let expected = ark_bn254::Bn254::multi_pairing([p0, p1, p2], [q0, q1, q2]);

    let mut cache = ExecuteMode::new();
    let ps = vec![
        input_g1(&mut cache, p0.into_group()),
        input_g1(&mut cache, p1.into_group()),
        input_g1(&mut cache, p2.into_group()),
    ];
    let qs = vec![g2_affine_value(q0), g2_affine_value(q1), g2_affine_value(q2)];
    let out = multi_pairing_const_q(&mut cache, &ps, &qs);
    assert_eq!(read_fq12(&cache, &out), expected.0);
}

#[test]
fn miller_loop_without_points_is_one() {
    let mut cache = ExecuteMode::new();
    let out = multi_miller_loop_const_q_affine(&mut cache, &[], &[]);
    assert_eq!(read_fq12(&cache, &out), ark_bn254::Fq12::ONE);
}

#[test]
fn test_multi_miller_loop_montgomery_fast() {
    let mut prng = ChaCha20Rng::seed_from_u64(0);
    let n = 3;
    let ps = (0..n).map(|_| ark_bn254::G1Affine::rand(&mut prng)).collect::<Vec<_>>();
    let qs = (0..n).map(|_| ark_bn254::G2Affine::rand(&mut prng)).collect::<Vec<_>>();
    let expected = ark_bn254::Bn254::multi_miller_loop(ps.clone(), qs.clone()).0;

    let mut cache = ExecuteMode::new();
    let wps = ps.iter().map(|p| input_g1(&mut cache, p.into_group())).collect::<Vec<_>>();
    let wqs = qs.iter().map(|q| input_g2(&mut cache, z_one(*q))).collect::<Vec<_>>();
    let out = multi_miller_loop_montgomery_fast(&mut cache, &wps, &wqs);
    assert_eq!(read_fq12(&cache, &out), expected);
}

#[test]
fn test_multi_miller_loop_groth16_evaluate_montgomery_fast_matches_ark_many() {
    let mut rng = ChaCha20Rng::seed_from_u64(0xC011EC7);
    for case in 0..4u32 {
        let p1 = random_g1_affine(&mut rng);
        let p2 = random_g1_affine(&mut rng);
        let p3 = random_g1_affine(&mut rng);
        let q1 = random_g2_affine(&mut rng);
        let q2 = random_g2_affine(&mut rng);
        let q3 = random_g2_affine(&mut rng);
        let expected = ark_bn254::Bn254::multi_miller_loop([p1, p2, p3], [q1, q2, q3]).0;

        let mut cache = ExecuteMode::new();
        let w1 = input_g1(&mut cache, p1.into_group());
        let w2 = input_g1(&mut cache, p2.into_group());
        let w3 = input_g1(&mut cache, p3.into_group());
        let wq = input_g2(&mut cache, z_one(q3));
        let out = multi_miller_loop_groth16_evaluate_montgomery_fast(
            &mut cache,
            &w1,
            &w2,
            &w3,
            g2_affine_value(q1),
            g2_affine_value(q2),
            &wq,
        );
        assert_eq!(read_fq12(&cache, &out), expected, "case {case} mismatch");
    }
}

#[test]
fn constants_match_ark() {
    assert_eq!(ate_loop_count().to_vec(), ark_bn254::Config::ATE_LOOP_COUNT.to_vec());
    assert_eq!(fq2_ark(coeff_b2_value()), ark_bn254::g2::Config::COEFF_B);
    assert_eq!(ark_bn254::g1::Config::COEFF_B, ark_bn254::Fq::from(3u64));
}

#[test]
fn lines_in_place_double_and_add() {
    let mut rng = ChaCha20Rng::seed_from_u64(14);
    let q = random_g2_affine(&mut rng);
    let mut r = G2ProjectiveValue {
        x: fq2_value(q.x),
        y: fq2_value(q.y),
        z: fq2_value(ark_bn254::Fq2::ONE),
    };
    double_in_place(&mut r);
    let z_inv = fq2_ark(r.z).inverse().unwrap();
    let doubled = (q.into_group().double()).into_affine();
    assert_eq!(fq2_ark(r.x) * z_inv, doubled.x);
    assert_eq!(fq2_ark(r.y) * z_inv, doubled.y);
    add_in_place(&mut r, &g2_affine_value(q));
    let z_inv = fq2_ark(r.z).inverse().unwrap();
    let tripled = (q.into_group().double() + q).into_affine();
    assert_eq!(fq2_ark(r.x) * z_inv, tripled.x);
    assert_eq!(fq2_ark(r.y) * z_inv, tripled.y);
}

#[test]
fn frobenius_image_is_on_the_twist() {
    let mut rng = ChaCha20Rng::seed_from_u64(15);
    let q = random_g2_affine(&mut rng);
    let image = mul_by_char(g2_affine_value(q));
    let x = fq2_ark(image.x);
    let y = fq2_ark(image.y);
    assert_eq!(y.square(), x.square() * x + fq2_ark(coeff_b2_value()));
    assert_ne!(x, q.x);
}

#[test]
fn negative_of_a_point() {
    let mut rng = ChaCha20Rng::seed_from_u64(16);
    let q = ark_bn254::G2Projective::generator() * rnd_fr(&mut rng);
    let mut cache = ExecuteMode::new();
    let w = input_g2(&mut cache, q);
    let out = g2_affine_neg_evaluate(&mut cache, &w);
    assert_eq!(read_g2(&cache, &out), -q);
}

#[test]
fn gadgets_of_the_tower_match_ark() {
    let mut rng = ChaCha20Rng::seed_from_u64(17);
    let a0 = ark_bn254::Fq12::rand(&mut rng);
    let b0 = ark_bn254::Fq12::rand(&mut rng);
    let mut cache = ExecuteMode::new();
    let a = input_fq12(&mut cache, a0);
    let b = input_fq12(&mut cache, b0);
    let product = Fq12::mul_montgomery(&mut cache, &a, &b);
    assert_eq!(read_fq12(&cache, &product), a0 * b0);
    let square = Fq12::square_montgomery(&mut cache, &a);
    assert_eq!(read_fq12(&cache, &square), a0.square());
    let inverse = Fq12::inverse_montgomery(&mut cache, &a);
    assert_eq!(read_fq12(&cache, &inverse), a0.inverse().unwrap());
    for i in 1..4usize {
        let image = Fq12::frobenius_montgomery(&mut cache, &a, i);
        assert_eq!(read_fq12(&cache, &image), a0.frobenius_map(i));
    }
    let p = random_g1_affine(&mut rng);
    let q = random_g2_affine(&mut rng);
    let e0 = ark_bn254::Bn254::pairing(p, q).0;
    let e = input_fq12(&mut cache, e0);
    let square = Fq12::cyclotomic_square_montgomery(&mut cache, &e);
    assert_eq!(read_fq12(&cache, &square), e0.square());
}

#[test]
fn square_root_and_inverse_gadgets_match_ark() {
    let mut rng = ChaCha20Rng::seed_from_u64(18);
    let x = ark_bn254::Fq2::rand(&mut rng);
    let square = x.square();
    let mut cache = ExecuteMode::new();
    let w = Fq2::new(&mut cache);
    feed_fq2(&mut cache, &w, fq2_value(square));
    let root = Fq2::sqrt_general_montgomery(&mut cache, &w);
    assert_eq!(read_fq2(&cache, &root), square.sqrt().unwrap());
    let root = Fq::sqrt_montgomery(&mut cache, &w.c0);
    let expected = w0_root(square.c0);
    assert_eq!(read_fq(&cache, &root), expected);
    let zero = Fq::new_constant(&cache, fq_value(ark_bn254::Fq::ZERO));
    let inverse = Fq::inverse_montgomery(&mut cache, &zero);
    assert_eq!(read_fq(&cache, &inverse), ark_bn254::Fq::ZERO);
}

fn w0_root(a: ark_bn254::Fq) -> ark_bn254::Fq {
    let e: [u64; 4] = [
        0x4f082305b61f3f52,
        0x65e05aa45a1c72a3,
        0x6e14116da0605617,
        0x0c19139cb84c680a,
    ];
    a.pow(e)
}

#[test]
fn sums_of_points_match_ark() {
    let mut rng = ChaCha20Rng::seed_from_u64(19);
    let p = ark_bn254::G1Projective::generator() * rnd_fr(&mut rng);
    let q = ark_bn254::G1Projective::generator() * rnd_fr(&mut rng);
    let mut cache = ExecuteMode::new();
    let wp = input_g1(&mut cache, p);
    let wq = input_g1(&mut cache, q);
    let read = read_g1;
    let sum = G1Projective::add_montgomery(&mut cache, &wp, &wq);
    assert_eq!(read(&cache, &sum), p + q);
    let double = G1Projective::double_montgomery(&mut cache, &wp);
    assert_eq!(read(&cache, &double), p.double());
    let infinity = input_g1(&mut cache, ark_bn254::G1Projective::ZERO);
    let sum = G1Projective::add_montgomery(&mut cache, &wp, &infinity);
    assert_eq!(read(&cache, &sum), p);
    let sum = G1Projective::add_montgomery(&mut cache, &infinity, &wq);
    assert_eq!(read(&cache, &sum), q);
}

fn read_g1(cache: &ExecuteMode, w: &G1Projective) -> ark_bn254::G1Projective {
    ark_bn254::G1Projective::new(read_fq(cache, &w.x), read_fq(cache, &w.y), read_fq(cache, &w.z))
}

#[test]
fn sums_of_equal_points_are_doubles() {
    let mut rng = ChaCha20Rng::seed_from_u64(42);
    let p = ark_bn254::G1Projective::generator() * rnd_fr(&mut rng);
    let t = ark_bn254::Fq::rand(&mut rng);
    let scaled = ark_bn254::G1Projective::new(p.x * t.square(), p.y * t.square() * t, p.z * t);
    let mut cache = ExecuteMode::new();
    let wp = input_g1(&mut cache, p);
    let ws = input_g1(&mut cache, scaled);
    let sum = G1Projective::add_montgomery(&mut cache, &wp, &wp);
    assert_eq!(read_g1(&cache, &sum), p.double());
    let sum = G1Projective::add_montgomery(&mut cache, &wp, &ws);
    assert_eq!(read_g1(&cache, &sum), p.double());

    let q = ark_bn254::G2Projective::generator() * rnd_fr(&mut rng);
    let t = ark_bn254::Fq2::rand(&mut rng);
    let scaled = ark_bn254::G2Projective::new(q.x * t.square(), q.y * t.square() * t, q.z * t);
    let wq = input_g2(&mut cache, q);
    let ws = input_g2(&mut cache, scaled);
    let sum = G2Projective::add_montgomery(&mut cache, &wq, &wq);
    assert_eq!(read_g2(&cache, &sum), q.double());
    let sum = G2Projective::add_montgomery(&mut cache, &wq, &ws);
    assert_eq!(read_g2(&cache, &sum), q.double());
    let (next, _) = g2_line_coeffs_add(&mut cache, &wq, &ws);
    assert_eq!(read_g2(&cache, &next), q.double());
}

#[test]
fn sums_of_opposite_points_are_at_infinity() {
    let mut rng = ChaCha20Rng::seed_from_u64(43);
    let p = ark_bn254::G1Projective::generator() * rnd_fr(&mut rng);
    let q = ark_bn254::G2Projective::generator() * rnd_fr(&mut rng);
    let mut cache = ExecuteMode::new();
    let (wp, np) = (input_g1(&mut cache, p), input_g1(&mut cache, -p));
    let (wq, nq) = (input_g2(&mut cache, q), input_g2(&mut cache, -q));
    let sum = G1Projective::add_montgomery(&mut cache, &wp, &np);
    assert_eq!(read_fq(&cache, &sum.z), ark_bn254::Fq::ZERO);
    let sum = G2Projective::add_montgomery(&mut cache, &wq, &nq);
    assert_eq!(read_fq2(&cache, &sum.z), ark_bn254::Fq2::ZERO);
}

#[test]
fn sum_is_the_mirrored_third_point_of_the_line() {
    let mut rng = ChaCha20Rng::seed_from_u64(44);
    let p = random_g1_affine(&mut rng);
    let q = random_g1_affine(&mut rng);
    let mut cache = ExecuteMode::new();
    let (wp, wq) = (input_g1(&mut cache, p.into_group()), input_g1(&mut cache, q.into_group()));
    let three = ark_bn254::Fq::from(3u64);

    let l = (p.y - q.y) / (p.x - q.x);
    let x = l.square() - p.x - q.x;
    let y = l * (p.x - x) - p.y;
    let sum = G1Projective::add_montgomery(&mut cache, &wp, &wq);
    let sum = read_g1(&cache, &sum).into_affine();
    assert_eq!((sum.x, sum.y), (x, y));
    assert_eq!(y.square(), x.square() * x + three);

    let l = three * p.x.square() / p.y.double();
    let x = l.square() - p.x - p.x;
    let y = l * (p.x - x) - p.y;
    let sum = G1Projective::add_montgomery(&mut cache, &wp, &wp);
    let sum = read_g1(&cache, &sum).into_affine();
    assert_eq!((sum.x, sum.y), (x, y));
    assert_eq!(y.square(), x.square() * x + three);
}

#[test]
fn sum_on_the_twist_is_the_mirrored_third_point_of_the_line() {
    let mut rng = ChaCha20Rng::seed_from_u64(46);
    let p = random_g2_affine(&mut rng);
    let q = random_g2_affine(&mut rng);
    let mut cache = ExecuteMode::new();
    let (wp, wq) = (input_g2(&mut cache, z_one(p)), input_g2(&mut cache, z_one(q)));
    let b = fq2_ark(coeff_b2_value());

    let l = (p.y - q.y) / (p.x - q.x);
    let x = l.square() - p.x - q.x;
    let y = l * (p.x - x) - p.y;
    let sum = G2Projective::add_montgomery(&mut cache, &wp, &wq);
    let sum = read_g2(&cache, &sum).into_affine();
    assert_eq!((sum.x, sum.y), (x, y));
    assert_eq!(y.square(), x.square() * x + b);

    let square = p.x.square();
    let l = (square.double() + square) / p.y.double();
    let x = l.square() - p.x - p.x;
    let y = l * (p.x - x) - p.y;
    let sum = G2Projective::add_montgomery(&mut cache, &wp, &wp);
    let sum = read_g2(&cache, &sum).into_affine();
    assert_eq!((sum.x, sum.y), (x, y));
    assert_eq!(y.square(), x.square() * x + b);
}

#[test]
fn order_of_summands_does_not_matter() {
    let mut rng = ChaCha20Rng::seed_from_u64(47);
    let (p1, p2) = (random_g1_affine(&mut rng), random_g1_affine(&mut rng));
    let (q1, q2) = (random_g2_affine(&mut rng), random_g2_affine(&mut rng));
    let mut cache = ExecuteMode::new();
    let (v1, v2) = (input_g1(&mut cache, p1.into()), input_g1(&mut cache, p2.into()));
    let (w1, w2) = (input_g2(&mut cache, q1.into()), input_g2(&mut cache, q2.into()));
    let one = G1Projective::add_montgomery(&mut cache, &v1, &v2);
    let other = G1Projective::add_montgomery(&mut cache, &v2, &v1);
    assert_eq!(read_g1(&cache, &one).into_affine(), read_g1(&cache, &other).into_affine());
    let one = G2Projective::add_montgomery(&mut cache, &w1, &w2);
    let other = G2Projective::add_montgomery(&mut cache, &w2, &w1);
    assert_eq!(read_g2(&cache, &one).into_affine(), read_g2(&cache, &other).into_affine());
}

#[test]
fn pairing_with_the_negative_is_the_inverse() {
    let mut rng = ChaCha20Rng::seed_from_u64(50);
    let (p, q) = (random_g1_affine(&mut rng), random_g2_affine(&mut rng));
    let mut cache = ExecuteMode::new();
    let w = input_g1(&mut cache, p.into_group());
    let e = pairing_const_q(&mut cache, &w, &g2_affine_value(q));
    let n = pairing_const_q(&mut cache, &w, &g2_affine_value(-q));
    assert_eq!(read_fq12(&cache, &e) * read_fq12(&cache, &n), ark_bn254::Fq12::ONE);
    assert_ne!(read_fq12(&cache, &e), read_fq12(&cache, &n));
}

#[test]
fn pairing_with_the_point_at_infinity_is_one() {
    let mut rng = ChaCha20Rng::seed_from_u64(48);
    let q = random_g2_affine(&mut rng);
    let mut cache = ExecuteMode::new();
    let infinity = input_g1(&mut cache, ark_bn254::G1Projective::ZERO);
    let out = pairing_const_q(&mut cache, &infinity, &g2_affine_value(q));
    assert_eq!(read_fq12(&cache, &out), ark_bn254::Fq12::ONE);
}

#[test]
fn elements_but_zero_have_inverses_and_squares_have_roots() {
    let mut rng = ChaCha20Rng::seed_from_u64(49);
    for _ in 0..4usize {
        let x = ark_bn254::Fq2::rand(&mut rng);
        let mut cache = ExecuteMode::new();
        let w = Fq2::new(&mut cache);
        feed_fq2(&mut cache, &w, fq2_value(x));
        let inverse = Fq2::inverse_montgomery(&mut cache, &w);
        assert_eq!(read_fq2(&cache, &inverse) * x, ark_bn254::Fq2::ONE);
        let inverse = Fq::inverse_montgomery(&mut cache, &w.c0);
        assert_eq!(read_fq(&cache, &inverse) * x.c0, ark_bn254::Fq::ONE);
        let square = Fq2::square_montgomery(&mut cache, &w);
        let root = Fq2::sqrt_general_montgomery(&mut cache, &square);
        let root = read_fq2(&cache, &root);
        assert!(root == x || root == -x);
        let square = Fq::square_montgomery(&mut cache, &w.c0);
        let root = Fq::sqrt_montgomery(&mut cache, &square);
        let root = read_fq(&cache, &root);
        assert!(root == x.c0 || root == -x.c0);
        // the negative of a square is none
        let negative = Fq::neg(&mut cache, &square);
        let square_is_qnr = Fq::is_qnr_montgomery(&mut cache, &square);
        let negative_is_qnr = Fq::is_qnr_montgomery(&mut cache, &negative);
        assert!(!cache.lookup_wire(square_is_qnr));
        assert!(cache.lookup_wire(negative_is_qnr));
    }
}

#[test]
fn comparison_gadgets_tell_elements_apart() {
    let mut rng = ChaCha20Rng::seed_from_u64(45);
    let a = ark_bn254::Fq2::rand(&mut rng);
    let b = ark_bn254::Fq2::new(a.c0, a.c1 + ark_bn254::Fq::ONE);
    let mut cache = ExecuteMode::new();
    let (wa, wb) = (Fq2::new(&mut cache), Fq2::new(&mut cache));
    feed_fq2(&mut cache, &wa, fq2_value(a));
    feed_fq2(&mut cache, &wb, fq2_value(b));
    let same = Fq2::equal(&mut cache, &wa, &wa);
    let other = Fq2::equal(&mut cache, &wa, &wb);
    let first = Fq::equal(&mut cache, &wa.c0, &wb.c0);
    let second = Fq::equal(&mut cache, &wa.c1, &wb.c1);
    assert!(cache.lookup_wire(same));
    assert!(!cache.lookup_wire(other));
    assert!(cache.lookup_wire(first));
    assert!(!cache.lookup_wire(second));
}

#[test]
fn final_exponentiation_of_a_product_is_the_product() {
    let mut rng = ChaCha20Rng::seed_from_u64(31);
    let f = ark_bn254::Fq12::rand(&mut rng);
    let g = ark_bn254::Fq12::rand(&mut rng);
    let e = |x: ark_bn254::Fq12| fq12_ark(final_exponentiation_native(fq12_value(x)));
    assert_eq!(e(f * g), e(f) * e(g));
}

#[test]
fn final_exponentiation_on_wires_and_outside_agree() {
    let mut rng = ChaCha20Rng::seed_from_u64(32);
    let f = ark_bn254::Fq12::rand(&mut rng);
    let mut cache = ExecuteMode::new();
    let w = input_fq12(&mut cache, f);
    let out = final_exponentiation_montgomery(&mut cache, &w);
    let native = final_exponentiation_native(fq12_value(f));
    assert_eq!(read_fq12(&cache, &out), fq12_ark(native));
}

#[test]
fn miller_loop_over_two_pairs_is_the_product() {
    let mut rng = ChaCha20Rng::seed_from_u64(33);
    let (p1, p2) = (random_g1_affine(&mut rng), random_g1_affine(&mut rng));
    let (q1, q2) = (random_g2_affine(&mut rng), random_g2_affine(&mut rng));
    let mut cache = ExecuteMode::new();
    let w1 = input_g1(&mut cache, p1.into_group());
    let w2 = input_g1(&mut cache, p2.into_group());
    let qs = [g2_affine_value(q1), g2_affine_value(q2)];
    let f1 = miller_loop_const_q_affine(&mut cache, &w1, &qs[0]);
    let f2 = miller_loop_const_q_affine(&mut cache, &w2, &qs[1]);
    let both = multi_miller_loop_const_q_affine(&mut cache, &[w1, w2], &qs);
    assert_eq!(read_fq12(&cache, &both), read_fq12(&cache, &f1) * read_fq12(&cache, &f2));
}

#[test]
fn lines_pass_through_their_points() {
    let mut rng = ChaCha20Rng::seed_from_u64(34);
    let r = random_g2_affine(&mut rng);
    let q = random_g2_affine(&mut rng);
    let zero = ark_bn254::Fq2::ZERO;

    // in homogeneous coordinates
    let mut v = g2_value(z_one(r));
    let line = fq6_ark(double_in_place(&mut v));
    assert_eq!(line.c0 * r.y + line.c1 * r.x + line.c2, zero);
    let (x, y, z) = (fq2_ark(v.x), fq2_ark(v.y), fq2_ark(v.z));
    let line = fq6_ark(add_in_place(&mut v, &g2_affine_value(q)));
    assert_eq!(line.c0 * q.y + line.c1 * q.x + line.c2, zero);
    assert_eq!(line.c0 * y + line.c1 * x + line.c2 * z, zero);

    // by slopes
    let mut cache = ExecuteMode::new();
    let wr = input_g2(&mut cache, z_one(r));
    let wq = input_g2(&mut cache, z_one(q));
    let (_, tangent) = g2_line_coeffs_double(&mut cache, &wr);
    let square = r.x.square();
    assert_eq!(read_fq2(&cache, &tangent.c1) * r.y.double(), -(square.double() + square));
    let at = |c: &ExecuteMode, l: &Fq6, p: ark_bn254::G2Affine| {
        read_fq2(c, &l.c0) * p.y + read_fq2(c, &l.c1) * p.x + read_fq2(c, &l.c2)
    };
    assert_eq!(at(&cache, &tangent, r), zero);
    let (_, secant) = g2_line_coeffs_add(&mut cache, &wr, &wq);
    assert_eq!(at(&cache, &secant, r), zero);
    assert_eq!(at(&cache, &secant, q), zero);
}

#[test]
fn inverse_of_a_product_is_the_product_of_the_inverses() {
    let mut rng = ChaCha20Rng::seed_from_u64(35);
    let a = fq12_value(ark_bn254::Fq12::rand(&mut rng));
    let b = fq12_value(ark_bn254::Fq12::rand(&mut rng));
    let inverse = fq12_inverse(fq12_mul(a, b)).unwrap();
    assert_eq!(inverse, fq12_mul(fq12_inverse(a).unwrap(), fq12_inverse(b).unwrap()));
    assert_eq!(fq12_mul(fq12_mul(a, b), inverse), fq12_one());
    assert_eq!(fq12_inverse(fq12_value(ark_bn254::Fq12::ZERO)), None);
}

#[test]
fn frobenius_map_respects_products() {
    let mut rng = ChaCha20Rng::seed_from_u64(36);
    let (x, y) = (ark_bn254::Fq12::rand(&mut rng), ark_bn254::Fq12::rand(&mut rng));
    let (a, b) = (fq12_value(x), fq12_value(y));
    for k in 1..4usize {
        let product = fq12_frobenius(fq12_mul(a, b), k);
        assert_eq!(product, fq12_mul(fq12_frobenius(a, k), fq12_frobenius(b, k)));
        assert_eq!(fq12_ark(fq12_frobenius(a, k)), x.frobenius_map(k));
    }
}

#[test]
fn running_point_stays_on_the_twist() {
    let mut rng = ChaCha20Rng::seed_from_u64(37);
    let q = random_g2_affine(&mut rng);
    let b = fq2_ark(coeff_b2_value());
    let on_twist = |v: &G2ProjectiveValue| {
        let (x, y, z) = (fq2_ark(v.x), fq2_ark(v.y), fq2_ark(v.z));
        y.square() * z == x.square() * x + b * z.square() * z
    };
    let mut v = g2_value(z_one(q));
    for _ in 0..5usize {
        double_in_place(&mut v);
        assert!(on_twist(&v));
        add_in_place(&mut v, &g2_affine_value(q));
        assert!(on_twist(&v));
    }
    add_in_place(&mut v, &mul_by_char(g2_affine_value(q)));
    assert!(on_twist(&v));
    // and a point off the twist is told apart
    v.y = v.x;
    assert!(!on_twist(&v));
}

#[test]
fn miller_loop_on_wires_normalizes_both_points() {
    let mut rng = ChaCha20Rng::seed_from_u64(38);
    let (p, q) = (random_g1_affine(&mut rng), random_g2_affine(&mut rng));
    let expected = ark_bn254::Bn254::multi_miller_loop([p], [q]).0;
    // the same points with other third coordinates
    let k = ark_bn254::Fq::rand(&mut rng);
    let l = ark_bn254::Fq2::rand(&mut rng);
    for k in [k, -ark_bn254::Fq::ONE] {
        let p = ark_bn254::G1Projective { x: p.x * k.square(), y: p.y * k.square() * k, z: k };
        let q = ark_bn254::G2Projective { x: q.x * l.square(), y: q.y * l.square() * l, z: l };
        let mut cache = ExecuteMode::new();
        let wp = input_g1(&mut cache, p);
        let wq = input_g2(&mut cache, q);
        let f = miller_loop_montgomery_fast(&mut cache, &wp, &wq);
        assert_eq!(read_fq12(&cache, &f), expected);
    }
}

#[test]
fn negative_stays_on_the_wires_of_the_point() {
    let mut rng = ChaCha20Rng::seed_from_u64(39);
    let q = random_g2_affine(&mut rng);
    let mut cache = ExecuteMode::new();
    let w = input_g2(&mut cache, z_one(q));
    let neg = g2_affine_neg_evaluate(&mut cache, &w);
    assert!(neg.x.to_wires_vec() == w.x.to_wires_vec());
    assert!(neg.z.to_wires_vec() == w.z.to_wires_vec());
    let twice = g2_affine_neg_evaluate(&mut cache, &neg);
    assert_eq!(read_g2(&cache, &twice), z_one(q));
}

#[test]
fn order_of_pairs_does_not_matter() {
    let mut rng = ChaCha20Rng::seed_from_u64(40);
    let (p1, p2) = (random_g1_affine(&mut rng), random_g1_affine(&mut rng));
    let (q1, q2) = (random_g2_affine(&mut rng), random_g2_affine(&mut rng));
    let mut cache = ExecuteMode::new();
    let w1 = input_g1(&mut cache, p1.into_group());
    let w2 = input_g1(&mut cache, p2.into_group());
    let (v1, v2) = (g2_affine_value(q1), g2_affine_value(q2));
    let one = multi_pairing_const_q(&mut cache, &[w1.clone(), w2.clone()], &[v1, v2]);
    let other = multi_pairing_const_q(&mut cache, &[w2.clone(), w1.clone()], &[v2, v1]);
    let a = pairing_const_q(&mut cache, &w1, &v1);
    let b = pairing_const_q(&mut cache, &w2, &v2);
    let expected = ark_bn254::Bn254::multi_pairing([p1, p2], [q1, q2]).0;
    assert_eq!(read_fq12(&cache, &one), expected);
    assert_eq!(read_fq12(&cache, &other), expected);
    assert_eq!(read_fq12(&cache, &a) * read_fq12(&cache, &b), expected);
}

#[test]
fn roots_of_elements_without_imaginary_part() {
    let mut rng = ChaCha20Rng::seed_from_u64(41);
    for _ in 0..4usize {
        let t = ark_bn254::Fq::rand(&mut rng);
        for c0 in [t.square(), -t.square()] {
            let square = ark_bn254::Fq2::new(c0, ark_bn254::Fq::ZERO);
            let mut cache = ExecuteMode::new();
            let w = Fq2::new(&mut cache);
            feed_fq2(&mut cache, &w, fq2_value(square));
            let root = Fq2::sqrt_general_montgomery(&mut cache, &w);
            let root = read_fq2(&cache, &root);
            assert_eq!(root, square.sqrt().unwrap());
            assert_eq!(root.square(), square);
        }
    }
    let mut cache = ExecuteMode::new();
    let w = Fq2::new(&mut cache);
    feed_fq2(&mut cache, &w, fq2_value(ark_bn254::Fq2::ZERO));
    let root = Fq2::sqrt_general_montgomery(&mut cache, &w);
    assert_eq!(read_fq2(&cache, &root), ark_bn254::Fq2::ZERO);
}
