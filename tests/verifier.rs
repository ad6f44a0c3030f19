use ark_ec::{AffineRepr, CurveGroup};
use ark_ff::{One, PrimeField};
use groth16::has_primitive_repr::HasPrimitiveRepr;
use groth16::{
    aggregate_g16, pairing_verdict, verify, Fq, Fq12, Fq2, Fr, G1Affine, G2Affine, Inputs, Proof,
    VerifyError, VerifyingKey,
};

fn fq(v: ark_bn254::Fq) -> Fq {
    Fq { limbs: v.into_bigint().0 }
}

fn fr(v: ark_bn254::Fr) -> Fr {
    Fr { limbs: v.into_bigint().0 }
}

fn g1(p: ark_bn254::G1Projective) -> G1Affine {
    let a = p.into_affine();
    G1Affine { x: fq(a.x), y: fq(a.y), infinity: a.infinity }
}

fn g2(p: ark_bn254::G2Affine) -> G2Affine {
    G2Affine {
        x: Fq2 { c0: fq(p.x.c0), c1: fq(p.x.c1) },
        y: Fq2 { c0: fq(p.y.c0), c1: fq(p.y.c1) },
        infinity: p.infinity,
    }
}

/// A key for one public input and a proof that is valid for input 7:
/// with alpha = A = g1, beta = B = g2 and gamma = delta = g2, the check
/// reduces to e(P, g2) e(C, g2) = 1, which holds for C = -P.
fn known_vector() -> (VerifyingKey, Proof, Inputs) {
    let gen1 = ark_bn254::G1Projective::from(ark_bn254::G1Affine::generator());
    let gen2 = ark_bn254::G2Affine::generator();
    let s0 = gen1 * ark_bn254::Fr::from(3u64);
    let s1 = gen1 * ark_bn254::Fr::from(5u64);
    let input = ark_bn254::Fr::from(7u64);
    let p = s0 + s1 * input;
    let vk = VerifyingKey {
        alpha: g1(gen1),
        beta: g2(gen2),
        gamma: g2(gen2),
        delta: g2(gen2),
        s: vec![g1(s0), g1(s1)],
    };
    let proof = Proof { pi_a: g1(gen1), pi_b: g2(gen2), pi_c: g1(-p) };
    (vk, proof, vec![fr(input)])
}

#[test]
fn test_groth16() {
    let (vk, proof, mut inputs) = known_vector();

    assert!(verify(&vk, &proof, &inputs).is_ok());

    // Failure case
    inputs[0] = fr(ark_bn254::Fr::one());
    assert!(verify(&vk, &proof, &inputs).is_err())
}

#[test]
fn changed_input_is_a_pairing_mismatch() {
    let (vk, proof, mut inputs) = known_vector();
    inputs[0] = fr(ark_bn254::Fr::one());
    assert_eq!(verify(&vk, &proof, &inputs), Err(VerifyError::PairingMismatch));
}

#[test]
fn changed_proof_is_rejected() {
    let (vk, mut proof, inputs) = known_vector();
    proof.pi_c = vk.s[1];
    assert_eq!(verify(&vk, &proof, &inputs), Err(VerifyError::PairingMismatch));
}

#[test]
fn too_many_inputs_is_a_count_mismatch() {
    let (vk, proof, mut inputs) = known_vector();
    inputs.push(fr(ark_bn254::Fr::one()));
    assert_eq!(verify(&vk, &proof, &inputs), Err(VerifyError::InputCountMismatch));
}

#[test]
fn too_few_inputs_is_a_count_mismatch() {
    let (vk, proof, _) = known_vector();
    assert_eq!(verify(&vk, &proof, &vec![]), Err(VerifyError::InputCountMismatch));
}

#[test]
fn empty_key_is_a_count_mismatch() {
    let (mut vk, proof, _) = known_vector();
    vk.s.clear();
    assert_eq!(verify(&vk, &proof, &vec![]), Err(VerifyError::InputCountMismatch));
}

#[test]
fn verify_twice_gives_the_same_outcome() {
    let (vk, proof, mut inputs) = known_vector();
    assert_eq!(verify(&vk, &proof, &inputs), verify(&vk, &proof, &inputs));
    inputs[0] = fr(ark_bn254::Fr::one());
    let first = verify(&vk, &proof, &inputs);
    let second = verify(&vk, &proof, &inputs);
    assert_eq!(first, second);
    assert_eq!(first, Err(VerifyError::PairingMismatch));
}

#[test]
fn aggregate_accepts_a_batch_of_the_known_vector() {
    let (vk, proof, inputs) = known_vector();
    let r = aggregate_g16(3, &inputs.to_repr(), &proof.to_repr(), &vk.to_repr());
    assert_eq!(r, Ok(()));
}

#[test]
fn aggregate_rejects_a_changed_input() {
    let (vk, proof, mut inputs) = known_vector();
    inputs[0] = fr(ark_bn254::Fr::one());
    let r = aggregate_g16(2, &inputs.to_repr(), &proof.to_repr(), &vk.to_repr());
    assert_eq!(r, Err(VerifyError::PairingMismatch));
}

#[test]
fn aggregate_of_an_empty_batch_is_ok() {
    let (vk, proof, mut inputs) = known_vector();
    inputs[0] = fr(ark_bn254::Fr::one());
    let r = aggregate_g16(0, &inputs.to_repr(), &proof.to_repr(), &vk.to_repr());
    assert_eq!(r, Ok(()));
}

fn unit(i: usize) -> Fq {
    Fq { limbs: [if i == 0 { 1 } else { 0 }, 0, 0, 0] }
}

#[test]
fn verdict_of_identity_is_acceptance() {
    let one = Fq12 { coeffs: (0..12).map(unit).collect() };
    assert!(one.is_one());
    assert_eq!(pairing_verdict(&Some(one)), Ok(()));
}

#[test]
fn verdict_of_other_element_is_mismatch() {
    let mut coeffs: Vec<Fq> = (0..12).map(unit).collect();
    coeffs[5] = Fq { limbs: [2, 0, 0, 0] };
    let other = Fq12 { coeffs };
    assert!(!other.is_one());
    assert_eq!(pairing_verdict(&Some(other)), Err(VerifyError::PairingMismatch));
}

#[test]
fn verdict_of_undefined_exponentiation_is_failure() {
    assert_eq!(pairing_verdict(&None), Err(VerifyError::PairingFailed));
}

#[test]
fn all_g1_points_at_infinity_pass_the_check() {
    // Every pair with a point at infinity is skipped, so the product is one.
    let (mut vk, mut proof, inputs) = known_vector();
    let inf = G1Affine { x: Fq { limbs: [0; 4] }, y: Fq { limbs: [0; 4] }, infinity: true };
    vk.alpha = inf;
    vk.s = vec![inf, inf];
    proof.pi_a = inf;
    proof.pi_c = inf;
    assert_eq!(verify(&vk, &proof, &inputs), Ok(()));
}
