//! The finite-field, curve and pairing arithmetic of BN254, as provided by
//! the arkworks crates. Each function here makes one call into them and
//! converts between their types and this crate's plain coordinates.
use crate::curve::{G1Affine, G1Projective, G2Affine};
use crate::field::{
    decimal_digits, decimal_value, is_canonical_decimal, q, r, Fq, Fq12, Fq2, Fr,
};
use ark_ec::pairing::Pairing;
use ark_ff::{BigInt, Field, PrimeField};
use std::str::FromStr;
use vstd::prelude::*;

verus! {

/// `k * p` in G1, as computed by ark-ec.
pub uninterp spec fn g1_mul_of(p: G1Affine, k: Fr) -> G1Projective;

/// `a + b` in G1, as computed by ark-ec.
pub uninterp spec fn g1_add_of(a: G1Projective, b: G1Projective) -> G1Projective;

/// The affine normal form of a Jacobian point, as computed by ark-ec.
pub uninterp spec fn g1_to_affine_of(p: G1Projective) -> G1Affine;

/// The product of the Miller loops over the pairs `(a[i], b[i])`, as the
/// twelve coefficients that ark-ec computes.
pub uninterp spec fn miller_loop_of(a: Seq<G1Affine>, b: Seq<G2Affine>) -> Seq<Fq>;

/// The final exponentiation of a Miller-loop output, as computed by ark-ec;
/// `None` where it is undefined.
pub uninterp spec fn final_exponentiation_of(f: Seq<Fq>) -> Option<Seq<Fq>>;

/// The field element one.
pub open spec fn fq_one() -> Fq {
    Fq { limbs: [1, 0, 0, 0] }
}

/// The field element zero.
pub open spec fn fq_zero() -> Fq {
    Fq { limbs: [0, 0, 0, 0] }
}

/// Relies on ark-ff's `FromStr` for `Fp` (base field): it accepts "0" or a
/// nonempty string of ASCII digits that does not start with '0', and gives
/// that integer reduced mod q; it refuses anything else.
#[verifier::external_body]
pub(crate) fn fq_from_decimal(s: &str) -> (res: Option<Fq>)
    ensures
        is_canonical_decimal(s@) ==> res == Some(Fq::spec_of(decimal_value(s@) % q())),
        !is_canonical_decimal(s@) ==> res is None,
{
    ark_bn254::Fq::from_str(s).ok().map(|f| Fq { limbs: f.into_bigint().0 })
}

/// Relies on ark-ff's `FromStr` for `Fp` (scalar field): as for the base
/// field, reduced mod r.
#[verifier::external_body]
pub(crate) fn fr_from_decimal(s: &str) -> (res: Option<Fr>)
    ensures
        is_canonical_decimal(s@) ==> res == Some(Fr::spec_of(decimal_value(s@) % r())),
        !is_canonical_decimal(s@) ==> res is None,
{
    ark_bn254::Fr::from_str(s).ok().map(|f| Fr { limbs: f.into_bigint().0 })
}

/// Relies on ark-ff's `Display` for `Fp` (base field): the decimal digits of
/// the canonical integer with every leading '0' trimmed, so nothing for zero.
#[verifier::external_body]
pub(crate) fn fq_to_decimal(x: &Fq) -> (res: String)
    requires
        x.wf(),
    ensures
        res@ == decimal_digits(x.value()),
{
    ark_bn254::Fq::from_bigint(BigInt(x.limbs)).unwrap().to_string()
}

/// Relies on ark-ff's `Display` for `Fp` (scalar field), as for the base field.
#[verifier::external_body]
pub(crate) fn fr_to_decimal(x: &Fr) -> (res: String)
    requires
        x.wf(),
    ensures
        res@ == decimal_digits(x.value()),
{
    ark_bn254::Fr::from_bigint(BigInt(x.limbs)).unwrap().to_string()
}

/// Relies on ark-ec's `From<Affine>` for `Projective`: `(x, y, 1)`, or
/// `(1, 1, 0)` for the point at infinity.
#[verifier::external_body]
pub(crate) fn g1_from_affine(p: &G1Affine) -> (res: G1Projective)
    requires
        p.wf(),
    ensures
        res == (if p.infinity {
            G1Projective { x: fq_one(), y: fq_one(), z: fq_zero() }
        } else {
            G1Projective { x: p.x, y: p.y, z: fq_one() }
        }),
{
    let f = |v: &Fq| ark_bn254::Fq::from_bigint(BigInt(v.limbs)).unwrap();
    let a = ark_bn254::G1Affine { x: f(&p.x), y: f(&p.y), infinity: p.infinity };
    let s = ark_bn254::G1Projective::from(a);
    let g = |v: ark_bn254::Fq| Fq { limbs: v.into_bigint().0 };
    G1Projective { x: g(s.x), y: g(s.y), z: g(s.z) }
}

/// Relies on ark-ec's `Mul<Fr>` for `Affine` (scalar multiplication); its
/// coordinates come back canonical.
#[verifier::external_body]
pub(crate) fn g1_mul(p: &G1Affine, k: &Fr) -> (res: G1Projective)
    requires
        p.wf(),
        k.wf(),
    ensures
        res == g1_mul_of(*p, *k),
        res.wf(),
{
    let f = |v: &Fq| ark_bn254::Fq::from_bigint(BigInt(v.limbs)).unwrap();
    let a = ark_bn254::G1Affine { x: f(&p.x), y: f(&p.y), infinity: p.infinity };
    let s = a * ark_bn254::Fr::from_bigint(BigInt(k.limbs)).unwrap();
    let g = |v: ark_bn254::Fq| Fq { limbs: v.into_bigint().0 };
    G1Projective { x: g(s.x), y: g(s.y), z: g(s.z) }
}

/// Relies on ark-ec's `AddAssign` for `Projective` (point addition); its
/// coordinates come back canonical.
#[verifier::external_body]
pub(crate) fn g1_add(a: &G1Projective, b: &G1Projective) -> (res: G1Projective)
    requires
        a.wf(),
        b.wf(),
    ensures
        res == g1_add_of(*a, *b),
        res.wf(),
{
    let f = |v: &Fq| ark_bn254::Fq::from_bigint(BigInt(v.limbs)).unwrap();
    let h = |p: &G1Projective| ark_bn254::G1Projective::new_unchecked(f(&p.x), f(&p.y), f(&p.z));
    let mut s = h(a);
    s += h(b);
    let g = |v: ark_bn254::Fq| Fq { limbs: v.into_bigint().0 };
    G1Projective { x: g(s.x), y: g(s.y), z: g(s.z) }
}

/// Relies on ark-ec's `From<Projective>` for `Affine` (normalisation); its
/// coordinates come back canonical.
#[verifier::external_body]
pub(crate) fn g1_to_affine(p: &G1Projective) -> (res: G1Affine)
    requires
        p.wf(),
    ensures
        res == g1_to_affine_of(*p),
        res.wf(),
{
    let f = |v: &Fq| ark_bn254::Fq::from_bigint(BigInt(v.limbs)).unwrap();
    let s = ark_bn254::G1Projective::new_unchecked(f(&p.x), f(&p.y), f(&p.z));
    let a = ark_bn254::G1Affine::from(s);
    let g = |v: ark_bn254::Fq| Fq { limbs: v.into_bigint().0 };
    G1Affine { x: g(a.x), y: g(a.y), infinity: a.infinity }
}

/// Relies on ark-ec's `Neg` for `Affine`: `y` becomes `-y` mod q (zero stays
/// zero); `x` and the infinity flag are kept.
#[verifier::external_body]
pub(crate) fn g1_neg(p: &G1Affine) -> (res: G1Affine)
    requires
        p.wf(),
    ensures
        res == (G1Affine {
            x: p.x,
            y: if p.y.value() == 0 { p.y } else { Fq::spec_of((q() - p.y.value()) as nat) },
            infinity: p.infinity,
        }),
{
    let f = |v: &Fq| ark_bn254::Fq::from_bigint(BigInt(v.limbs)).unwrap();
    let a = -ark_bn254::G1Affine { x: f(&p.x), y: f(&p.y), infinity: p.infinity };
    let g = |v: ark_bn254::Fq| Fq { limbs: v.into_bigint().0 };
    G1Affine { x: g(a.x), y: g(a.y), infinity: a.infinity }
}

/// Relies on ark-ec's `Bn254::multi_miller_loop` over the four pairs
/// `(a[i], b[i])`; the output's twelve coefficients come back canonical.
#[verifier::external_body]
pub(crate) fn multi_miller_loop(a: &[G1Affine; 4], b: &[G2Affine; 4]) -> (res: Fq12)
    requires
        forall|i: int| 0 <= i < 4 ==> (#[trigger] a@[i]).wf(),
        forall|i: int| 0 <= i < 4 ==> (#[trigger] b@[i]).wf(),
    ensures
        res.coeffs@ == miller_loop_of(a@, b@),
        res.wf(),
{
    let f = |v: &Fq| ark_bn254::Fq::from_bigint(BigInt(v.limbs)).unwrap();
    let f2 = |v: &Fq2| ark_bn254::Fq2::new(f(&v.c0), f(&v.c1));
    let g1 = a.map(|p| ark_bn254::G1Affine { x: f(&p.x), y: f(&p.y), infinity: p.infinity });
    let g2 = b.map(|p| ark_bn254::G2Affine { x: f2(&p.x), y: f2(&p.y), infinity: p.infinity });
    let m = ark_bn254::Bn254::multi_miller_loop(g1, g2).0;
    let coeffs = m.to_base_prime_field_elements().map(|e| Fq { limbs: e.into_bigint().0 });
    Fq12 { coeffs: coeffs.collect() }
}

/// Relies on ark-ec's `Bn254::final_exponentiation`; `None` where it is
/// undefined, else twelve canonical coefficients.
#[verifier::external_body]
pub(crate) fn final_exponentiation(m: &Fq12) -> (res: Option<Fq12>)
    requires
        m.wf(),
    ensures
        match res {
            Some(e) => final_exponentiation_of(m.coeffs@) == Some(e.coeffs@) && e.wf(),
            None => final_exponentiation_of(m.coeffs@) is None,
        },
{
    let f: Vec<ark_bn254::Fq> = m.coeffs.iter().map(|v| ark_bn254::Fq::from_bigint(BigInt(v.limbs)).unwrap()).collect();
    let x = ark_bn254::Fq12::from_base_prime_field_elems(&f).unwrap();
    let e = ark_bn254::Bn254::final_exponentiation(ark_ec::pairing::MillerLoopOutput(x));
    let g = |v: ark_bn254::Fq| Fq { limbs: v.into_bigint().0 };
    e.map(|o| Fq12 { coeffs: o.0.to_base_prime_field_elements().map(g).collect() })
}

} // verus!
