//! Groth16 proof verification over BN254, with a JSON codec and a
//! fixed-width primitive codec for keys, proofs and public inputs.
pub mod backend;
pub mod curve;
pub mod field;
pub mod has_json_repr;
pub mod has_primitive_repr;

pub use curve::{G1Affine, G1Projective, G2Affine};
pub use field::{Fq, Fq12, Fq2, Fr};

use backend::{
    final_exponentiation, final_exponentiation_of, fq_one, fq_zero, g1_add, g1_add_of,
    g1_from_affine, g1_mul, g1_mul_of, g1_neg, g1_to_affine, g1_to_affine_of, miller_loop_of,
    multi_miller_loop,
};
use field::{coeffs_are_one, q};
use has_primitive_repr::HasPrimitiveRepr;
use vstd::prelude::*;

verus! {

/// Public inputs.
pub type Inputs = Vec<Fr>;

/// A Groth16 verifying key; `s` holds one point more than there are inputs.
#[derive(Clone, Debug, PartialEq, Eq)]
pub struct VerifyingKey {
    pub alpha: G1Affine,
    pub beta: G2Affine,
    pub gamma: G2Affine,
    pub delta: G2Affine,
    pub s: Vec<G1Affine>,
}

/// A Groth16 proof.
#[derive(Clone, Copy, Debug, PartialEq, Eq)]
pub struct Proof {
    pub pi_a: G1Affine,
    pub pi_b: G2Affine,
    pub pi_c: G1Affine,
}

/// A verifying key as a mathematical value.
pub struct VerifyingKeyModel {
    pub alpha: G1Affine,
    pub beta: G2Affine,
    pub gamma: G2Affine,
    pub delta: G2Affine,
    pub s: Seq<G1Affine>,
}

impl View for VerifyingKey {
    type V = VerifyingKeyModel;

    open spec fn view(&self) -> VerifyingKeyModel {
        VerifyingKeyModel {
            alpha: self.alpha,
            beta: self.beta,
            gamma: self.gamma,
            delta: self.delta,
            s: self.s@,
        }
    }
}

impl VerifyingKeyModel {
    /// All coordinates are canonical field elements.
    pub open spec fn wf(self) -> bool {
        &&& self.alpha.wf()
        &&& self.beta.wf()
        &&& self.gamma.wf()
        &&& self.delta.wf()
        &&& forall|i: int| 0 <= i < self.s.len() ==> (#[trigger] self.s[i]).wf()
    }
}

impl Proof {
    /// All coordinates are canonical field elements.
    pub open spec fn wf(self) -> bool {
        self.pi_a.wf() && self.pi_b.wf() && self.pi_c.wf()
    }
}

/// Every public input is a canonical scalar.
pub open spec fn inputs_wf(inputs: Seq<Fr>) -> bool {
    forall|i: int| 0 <= i < inputs.len() ==> (#[trigger] inputs[i]).wf()
}

/// Why a proof was not accepted.
#[derive(Clone, Copy, Debug, PartialEq, Eq, Structural)]
pub enum VerifyError {
    /// The key's `s` does not hold exactly one point more than there are inputs.
    InputCountMismatch,
    /// The pairing product was computed and is not the identity.
    PairingMismatch,
    /// The final exponentiation is undefined on the Miller-loop output.
    PairingFailed,
}

/// `p` in Jacobian coordinates: `(x, y, 1)`, or `(1, 1, 0)` at infinity.
pub open spec fn projective_of(p: G1Affine) -> G1Projective {
    if p.infinity {
        G1Projective { x: fq_one(), y: fq_one(), z: fq_zero() }
    } else {
        G1Projective { x: p.x, y: p.y, z: fq_one() }
    }
}

/// `s[0] + inputs[0] * s[1] + ... + inputs[n-1] * s[n]`, accumulated left to right.
pub open spec fn input_combination(s: Seq<G1Affine>, inputs: Seq<Fr>, n: nat) -> G1Projective
    decreases n,
{
    if n == 0 {
        projective_of(s[0])
    } else {
        g1_add_of(
            input_combination(s, inputs, (n - 1) as nat),
            g1_mul_of(s[n as int], inputs[n - 1]),
        )
    }
}

/// `-p`: `y` negated mod q.
pub open spec fn neg_of(p: G1Affine) -> G1Affine {
    G1Affine {
        x: p.x,
        y: if p.y.value() == 0 { p.y } else { Fq::spec_of((q() - p.y.value()) as nat) },
        infinity: p.infinity,
    }
}

/// The outcome for a final-exponentiation result: accepted exactly when it is
/// the identity of the target group.
pub open spec fn verdict_of(e: Option<Seq<Fq>>) -> Result<(), VerifyError> {
    match e {
        None => Err(VerifyError::PairingFailed),
        Some(f) => if coeffs_are_one(f) {
            Ok(())
        } else {
            Err(VerifyError::PairingMismatch)
        },
    }
}

/// The G1 side of the four pairings.
pub open spec fn pairing_g1(vk: VerifyingKeyModel, proof: Proof, inputs: Seq<Fr>) -> Seq<G1Affine> {
    seq![
        neg_of(proof.pi_a),
        vk.alpha,
        g1_to_affine_of(input_combination(vk.s, inputs, inputs.len())),
        proof.pi_c,
    ]
}

/// The G2 side of the four pairings.
pub open spec fn pairing_g2(vk: VerifyingKeyModel, proof: Proof) -> Seq<G2Affine> {
    seq![proof.pi_b, vk.beta, vk.gamma, vk.delta]
}

/// The Groth16 check: `e(-A, B) e(alpha, beta) e(P, gamma) e(C, delta) == 1`.
pub open spec fn verify_result(vk: VerifyingKeyModel, proof: Proof, inputs: Seq<Fr>) -> Result<
    (),
    VerifyError,
> {
    if inputs.len() + 1 != vk.s.len() {
        Err(VerifyError::InputCountMismatch)
    } else {
        verdict_of(final_exponentiation_of(miller_loop_of(pairing_g1(vk, proof, inputs), pairing_g2(vk, proof))))
    }
}

/// The outcome of a verification, given the final exponentiation's result.
pub fn pairing_verdict(e: &Option<Fq12>) -> (res: Result<(), VerifyError>)
    ensures
        res == verdict_of(
            match e {
                Some(f) => Some(f.coeffs@),
                None => None,
            },
        ),
{
    match e {
        None => Err(VerifyError::PairingFailed),
        Some(f) => if f.is_one() {
            Ok(())
        } else {
            Err(VerifyError::PairingMismatch)
        },
    }
}

/// Groth16 verifier.
pub fn verify(vk: &VerifyingKey, proof: &Proof, inputs: &Inputs) -> (res: Result<(), VerifyError>)
    requires
        vk@.wf(),
        proof.wf(),
        inputs_wf(inputs@),
    ensures
        res == verify_result(vk@, *proof, inputs@),
        res == Err::<(), VerifyError>(VerifyError::InputCountMismatch) <==> inputs@.len() + 1
            != vk@.s.len(),
{
    let n = inputs.len();
    if vk.s.len() == 0 || vk.s.len() - 1 != n {
        return Err(VerifyError::InputCountMismatch);
    }
    assert(vk@.s[0].wf());
    let mut p = g1_from_affine(&vk.s[0]);
    let mut i: usize = 0;
    while i < n
        invariant
            n == inputs@.len(),
            vk.s@.len() == n + 1,
            vk@.wf(),
            inputs_wf(inputs@),
            i <= n,
            p == input_combination(vk.s@, inputs@, i as nat),
            p.wf(),
        decreases n - i,
    {
        assert(vk@.s[i + 1].wf());
        assert(inputs@[i as int].wf());
        let t = g1_mul(&vk.s[i + 1], &inputs[i]);
        p = g1_add(&p, &t);
        i = i + 1;
    }
    let pa = g1_to_affine(&p);
    let g1s: [G1Affine; 4] = [g1_neg(&proof.pi_a), vk.alpha, pa, proof.pi_c];
    let g2s: [G2Affine; 4] = [proof.pi_b, vk.beta, vk.gamma, vk.delta];
    proof {
        assert(g1s@ =~= pairing_g1(vk@, *proof, inputs@));
        assert(g2s@ =~= pairing_g2(vk@, *proof));
    }
    let m = multi_miller_loop(&g1s, &g2s);
    let e = final_exponentiation(&m);
    pairing_verdict(&e)
}

/// Verification is a function of its arguments: the same key, proof and
/// inputs always give the same outcome, error kind included.
pub proof fn lemma_verify_deterministic(
    vk1: VerifyingKeyModel,
    proof1: Proof,
    inputs1: Seq<Fr>,
    vk2: VerifyingKeyModel,
    proof2: Proof,
    inputs2: Seq<Fr>,
)
    requires
        vk1 == vk2,
        proof1 == proof2,
        inputs1 == inputs2,
    ensures
        verify_result(vk1, proof1, inputs1) == verify_result(vk2, proof2, inputs2),
{
}

impl DeepView for Proof {
    type V = Proof;

    open spec fn deep_view(&self) -> Proof {
        *self
    }
}

impl DeepView for VerifyingKey {
    type V = VerifyingKeyModel;

    open spec fn deep_view(&self) -> VerifyingKeyModel {
        self@
    }
}

/// Decodes inputs, proof and key from their primitive representations and
/// verifies the proof `batch_size` times, stopping at the first failure; the
/// work a constrained guest environment does on one batch.
pub fn aggregate_g16(
    batch_size: u32,
    inputs: &<Inputs as HasPrimitiveRepr>::Repr,
    proof: &<Proof as HasPrimitiveRepr>::Repr,
    vk: &<VerifyingKey as HasPrimitiveRepr>::Repr,
) -> (res: Result<(), VerifyError>)
    requires
        <Inputs as HasPrimitiveRepr>::repr_decodable(inputs.deep_view()),
        <Proof as HasPrimitiveRepr>::repr_decodable(proof.deep_view()),
        <VerifyingKey as HasPrimitiveRepr>::repr_decodable(vk.deep_view()),
    ensures
        batch_size == 0 ==> res == Ok::<(), VerifyError>(()),
        batch_size > 0 ==> res == verify_result(
            <VerifyingKey as HasPrimitiveRepr>::spec_from_repr(vk.deep_view()),
            <Proof as HasPrimitiveRepr>::spec_from_repr(proof.deep_view()),
            <Inputs as HasPrimitiveRepr>::spec_from_repr(inputs.deep_view()),
        ),
{
    let ins = Inputs::from_repr(inputs);
    let pf = Proof::from_repr(proof);
    let key = VerifyingKey::from_repr(vk);
    assert(ins.deep_view() =~= ins@);
    assert(pf.wf());
    assert(inputs_wf(ins@));
    assert(key@.wf());
    let ghost expected = verify_result(key@, pf, ins@);
    let mut k: u32 = 0;
    while k < batch_size
        invariant
            k <= batch_size,
            k > 0 ==> expected == Ok::<(), VerifyError>(()),
            expected == verify_result(key@, pf, ins@),
            expected == verify_result(
                <VerifyingKey as HasPrimitiveRepr>::spec_from_repr(vk.deep_view()),
                <Proof as HasPrimitiveRepr>::spec_from_repr(proof.deep_view()),
                <Inputs as HasPrimitiveRepr>::spec_from_repr(inputs.deep_view()),
            ),
            key@.wf(),
            pf.wf(),
            inputs_wf(ins@),
        decreases batch_size - k,
    {
        let r = verify(&key, &pf, &ins);
        if r.is_err() {
            return r;
        }
        k = k + 1;
    }
    Ok(())
}

} // verus!
