//! A representation of keys, proofs and inputs built only from unsigned
//! integers, arrays, vectors and tuples, for passing values between
//! execution environments.
use crate::curve::{G1Affine, G1Projective, G2Affine};
use crate::field::{lemma_limbs_of_value, limbs_value, q, r, Fq, Fq2, Fr};
use crate::{Proof, VerifyingKey, VerifyingKeyModel};
use vstd::prelude::*;

verus! {

/// An object which has a representation in terms of primitive objects (which
/// can be efficiently serialized between host and guest).
pub trait HasPrimitiveRepr: Sized + DeepView {
    type Repr: DeepView;

    /// Values that have a representation: canonical, with no point at infinity.
    spec fn repr_encodable(v: <Self as DeepView>::V) -> bool;

    /// Representations that stand for a value: canonical limbs.
    spec fn repr_decodable(w: <Self::Repr as DeepView>::V) -> bool;

    /// The representation of a value.
    spec fn spec_to_repr(v: <Self as DeepView>::V) -> <Self::Repr as DeepView>::V;

    /// The value a representation stands for.
    spec fn spec_from_repr(w: <Self::Repr as DeepView>::V) -> <Self as DeepView>::V;

    fn to_repr(&self) -> (res: Self::Repr)
        requires
            Self::repr_encodable(self.deep_view()),
        ensures
            res.deep_view() == Self::spec_to_repr(self.deep_view()),
    ;

    fn from_repr(repr: &Self::Repr) -> (res: Self)
        requires
            Self::repr_decodable(repr.deep_view()),
        ensures
            res.deep_view() == Self::spec_from_repr(repr.deep_view()),
    ;

    /// Reading back the representation of an encodable value gives that value.
    proof fn lemma_repr_round_trip(v: <Self as DeepView>::V)
        requires
            Self::repr_encodable(v),
        ensures
            Self::repr_decodable(Self::spec_to_repr(v)),
            Self::spec_from_repr(Self::spec_to_repr(v)) == v,
    ;
}

impl HasPrimitiveRepr for u32 {
    type Repr = u32;

    open spec fn repr_encodable(v: u32) -> bool {
        true
    }

    open spec fn repr_decodable(w: u32) -> bool {
        true
    }

    open spec fn spec_to_repr(v: u32) -> u32 {
        v
    }

    open spec fn spec_from_repr(w: u32) -> u32 {
        w
    }

    fn to_repr(&self) -> (res: u32) {
        *self
    }

    fn from_repr(repr: &u32) -> (res: u32) {
        *repr
    }

    proof fn lemma_repr_round_trip(v: u32) {
    }
}

impl HasPrimitiveRepr for u8 {
    type Repr = u8;

    open spec fn repr_encodable(v: u8) -> bool {
        true
    }

    open spec fn repr_decodable(w: u8) -> bool {
        true
    }

    open spec fn spec_to_repr(v: u8) -> u8 {
        v
    }

    open spec fn spec_from_repr(w: u8) -> u8 {
        w
    }

    fn to_repr(&self) -> (res: u8) {
        *self
    }

    fn from_repr(repr: &u8) -> (res: u8) {
        *repr
    }

    proof fn lemma_repr_round_trip(v: u8) {
    }
}

/// Four limbs read from a sequence.
pub open spec fn limbs_from_seq(w: Seq<u64>) -> [u64; 4] {
    [w[0], w[1], w[2], w[3]]
}

/// Four limbs below the modulus `m`.
pub open spec fn limbs_decodable(w: Seq<u64>, m: nat) -> bool {
    w.len() == 4 && limbs_value(limbs_from_seq(w)) < m
}

proof fn lemma_limbs_seq(l: [u64; 4])
    ensures
        limbs_from_seq(l@) == l,
        l@.len() == 4,
{
    assert(limbs_from_seq(l@) =~= l);
}

pub open spec fn fq_to_repr_spec(v: Fq) -> Seq<u64> {
    v.limbs@
}

pub open spec fn fq_from_repr_spec(w: Seq<u64>) -> Fq {
    Fq { limbs: limbs_from_seq(w) }
}

pub open spec fn fq2_to_repr_spec(v: Fq2) -> Seq<Seq<u64>> {
    seq![v.c0.limbs@, v.c1.limbs@]
}

pub open spec fn fq2_decodable(w: Seq<Seq<u64>>) -> bool {
    w.len() == 2 && limbs_decodable(w[0], q()) && limbs_decodable(w[1], q())
}

pub open spec fn fq2_from_repr_spec(w: Seq<Seq<u64>>) -> Fq2 {
    Fq2 { c0: fq_from_repr_spec(w[0]), c1: fq_from_repr_spec(w[1]) }
}

pub open spec fn g1_to_repr_spec(p: G1Affine) -> Seq<Seq<u64>> {
    seq![p.x.limbs@, p.y.limbs@]
}

pub open spec fn g1_decodable(w: Seq<Seq<u64>>) -> bool {
    w.len() == 2 && limbs_decodable(w[0], q()) && limbs_decodable(w[1], q())
}

pub open spec fn g1_from_repr_spec(w: Seq<Seq<u64>>) -> G1Affine {
    G1Affine { x: fq_from_repr_spec(w[0]), y: fq_from_repr_spec(w[1]), infinity: false }
}

pub open spec fn g2_to_repr_spec(p: G2Affine) -> Seq<Seq<Seq<u64>>> {
    seq![fq2_to_repr_spec(p.x), fq2_to_repr_spec(p.y)]
}

pub open spec fn g2_decodable(w: Seq<Seq<Seq<u64>>>) -> bool {
    w.len() == 2 && fq2_decodable(w[0]) && fq2_decodable(w[1])
}

pub open spec fn g2_from_repr_spec(w: Seq<Seq<Seq<u64>>>) -> G2Affine {
    G2Affine { x: fq2_from_repr_spec(w[0]), y: fq2_from_repr_spec(w[1]), infinity: false }
}

impl HasPrimitiveRepr for Fq {
    type Repr = [u64; 4];

    open spec fn repr_encodable(v: Fq) -> bool {
        v.wf()
    }

    open spec fn repr_decodable(w: Seq<u64>) -> bool {
        limbs_decodable(w, q())
    }

    open spec fn spec_to_repr(v: Fq) -> Seq<u64> {
        fq_to_repr_spec(v)
    }

    open spec fn spec_from_repr(w: Seq<u64>) -> Fq {
        fq_from_repr_spec(w)
    }

    fn to_repr(&self) -> (res: [u64; 4]) {
        let res = self.into_bigint();
        assert(res.deep_view() =~= res@);
        res
    }

    fn from_repr(repr: &[u64; 4]) -> (res: Fq) {
        assert(repr.deep_view() =~= repr@);
        proof {
            lemma_limbs_seq(*repr);
        }
        Fq { limbs: *repr }
    }

    proof fn lemma_repr_round_trip(v: Fq) {
        lemma_limbs_seq(v.limbs);
    }
}

impl HasPrimitiveRepr for Fr {
    type Repr = [u64; 4];

    open spec fn repr_encodable(v: Fr) -> bool {
        v.wf()
    }

    open spec fn repr_decodable(w: Seq<u64>) -> bool {
        limbs_decodable(w, r())
    }

    open spec fn spec_to_repr(v: Fr) -> Seq<u64> {
        v.limbs@
    }

    open spec fn spec_from_repr(w: Seq<u64>) -> Fr {
        Fr { limbs: limbs_from_seq(w) }
    }

    fn to_repr(&self) -> (res: [u64; 4]) {
        let res = self.into_bigint();
        assert(res.deep_view() =~= res@);
        res
    }

    fn from_repr(repr: &[u64; 4]) -> (res: Fr) {
        assert(repr.deep_view() =~= repr@);
        proof {
            lemma_limbs_seq(*repr);
        }
        Fr { limbs: *repr }
    }

    proof fn lemma_repr_round_trip(v: Fr) {
        lemma_limbs_seq(v.limbs);
    }
}

impl HasPrimitiveRepr for Fq2 {
    type Repr = [[u64; 4]; 2];

    open spec fn repr_encodable(v: Fq2) -> bool {
        v.wf()
    }

    open spec fn repr_decodable(w: Seq<Seq<u64>>) -> bool {
        fq2_decodable(w)
    }

    open spec fn spec_to_repr(v: Fq2) -> Seq<Seq<u64>> {
        fq2_to_repr_spec(v)
    }

    open spec fn spec_from_repr(w: Seq<Seq<u64>>) -> Fq2 {
        fq2_from_repr_spec(w)
    }

    fn to_repr(&self) -> (res: [[u64; 4]; 2]) {
        let res = [self.c0.to_repr(), self.c1.to_repr()];
        assert(res.deep_view() =~= fq2_to_repr_spec(*self));
        res
    }

    fn from_repr(repr: &[[u64; 4]; 2]) -> (res: Fq2) {
        assert(repr.deep_view()[0] == repr[0].deep_view());
        assert(repr.deep_view()[1] == repr[1].deep_view());
        Fq2 { c0: Fq::from_repr(&repr[0]), c1: Fq::from_repr(&repr[1]) }
    }

    proof fn lemma_repr_round_trip(v: Fq2) {
        lemma_limbs_seq(v.c0.limbs);
        lemma_limbs_seq(v.c1.limbs);
    }
}

impl HasPrimitiveRepr for G1Affine {
    type Repr = [[u64; 4]; 2];

    open spec fn repr_encodable(v: G1Affine) -> bool {
        v.is_finite()
    }

    open spec fn repr_decodable(w: Seq<Seq<u64>>) -> bool {
        g1_decodable(w)
    }

    open spec fn spec_to_repr(v: G1Affine) -> Seq<Seq<u64>> {
        g1_to_repr_spec(v)
    }

    open spec fn spec_from_repr(w: Seq<Seq<u64>>) -> G1Affine {
        g1_from_repr_spec(w)
    }

    fn to_repr(&self) -> (res: [[u64; 4]; 2]) {
        let res = [self.x.to_repr(), self.y.to_repr()];
        assert(res.deep_view() =~= g1_to_repr_spec(*self));
        res
    }

    fn from_repr(repr: &[[u64; 4]; 2]) -> (res: G1Affine) {
        assert(repr.deep_view()[0] == repr[0].deep_view());
        assert(repr.deep_view()[1] == repr[1].deep_view());
        G1Affine { x: Fq::from_repr(&repr[0]), y: Fq::from_repr(&repr[1]), infinity: false }
    }

    proof fn lemma_repr_round_trip(v: G1Affine) {
        lemma_limbs_seq(v.x.limbs);
        lemma_limbs_seq(v.y.limbs);
    }
}

impl HasPrimitiveRepr for G2Affine {
    type Repr = [[[u64; 4]; 2]; 2];

    open spec fn repr_encodable(v: G2Affine) -> bool {
        v.is_finite()
    }

    open spec fn repr_decodable(w: Seq<Seq<Seq<u64>>>) -> bool {
        g2_decodable(w)
    }

    open spec fn spec_to_repr(v: G2Affine) -> Seq<Seq<Seq<u64>>> {
        g2_to_repr_spec(v)
    }

    open spec fn spec_from_repr(w: Seq<Seq<Seq<u64>>>) -> G2Affine {
        g2_from_repr_spec(w)
    }

    fn to_repr(&self) -> (res: [[[u64; 4]; 2]; 2]) {
        let res = [self.x.to_repr(), self.y.to_repr()];
        assert(res.deep_view() =~= g2_to_repr_spec(*self));
        res
    }

    fn from_repr(repr: &[[[u64; 4]; 2]; 2]) -> (res: G2Affine) {
        assert(repr.deep_view()[0] == repr[0].deep_view());
        assert(repr.deep_view()[1] == repr[1].deep_view());
        G2Affine { x: Fq2::from_repr(&repr[0]), y: Fq2::from_repr(&repr[1]), infinity: false }
    }

    proof fn lemma_repr_round_trip(v: G2Affine) {
        Fq2::lemma_repr_round_trip(v.x);
        Fq2::lemma_repr_round_trip(v.y);
    }
}

pub open spec fn projective_to_repr_spec(p: G1Projective) -> Seq<Seq<u64>> {
    seq![p.x.limbs@, p.y.limbs@, p.z.limbs@]
}

impl HasPrimitiveRepr for G1Projective {
    type Repr = [[u64; 4]; 3];

    open spec fn repr_encodable(v: G1Projective) -> bool {
        v.wf()
    }

    open spec fn repr_decodable(w: Seq<Seq<u64>>) -> bool {
        w.len() == 3 && limbs_decodable(w[0], q()) && limbs_decodable(w[1], q())
            && limbs_decodable(w[2], q())
    }

    open spec fn spec_to_repr(v: G1Projective) -> Seq<Seq<u64>> {
        projective_to_repr_spec(v)
    }

    open spec fn spec_from_repr(w: Seq<Seq<u64>>) -> G1Projective {
        G1Projective {
            x: fq_from_repr_spec(w[0]),
            y: fq_from_repr_spec(w[1]),
            z: fq_from_repr_spec(w[2]),
        }
    }

    fn to_repr(&self) -> (res: [[u64; 4]; 3]) {
        let res = [self.x.to_repr(), self.y.to_repr(), self.z.to_repr()];
        assert(res.deep_view() =~= projective_to_repr_spec(*self));
        res
    }

    fn from_repr(repr: &[[u64; 4]; 3]) -> (res: G1Projective) {
        assert(repr.deep_view()[0] == repr[0].deep_view());
        assert(repr.deep_view()[1] == repr[1].deep_view());
        assert(repr.deep_view()[2] == repr[2].deep_view());
        G1Projective {
            x: Fq::from_repr(&repr[0]),
            y: Fq::from_repr(&repr[1]),
            z: Fq::from_repr(&repr[2]),
        }
    }

    proof fn lemma_repr_round_trip(v: G1Projective) {
        lemma_limbs_seq(v.x.limbs);
        lemma_limbs_seq(v.y.limbs);
        lemma_limbs_seq(v.z.limbs);
    }
}

impl HasPrimitiveRepr for Vec<G1Affine> {
    type Repr = Vec<[[u64; 4]; 2]>;

    open spec fn repr_encodable(v: Seq<G1Affine>) -> bool {
        forall|i: int| 0 <= i < v.len() ==> (#[trigger] v[i]).is_finite()
    }

    open spec fn repr_decodable(w: Seq<Seq<Seq<u64>>>) -> bool {
        forall|i: int| 0 <= i < w.len() ==> g1_decodable(#[trigger] w[i])
    }

    open spec fn spec_to_repr(v: Seq<G1Affine>) -> Seq<Seq<Seq<u64>>> {
        v.map_values(|p: G1Affine| g1_to_repr_spec(p))
    }

    open spec fn spec_from_repr(w: Seq<Seq<Seq<u64>>>) -> Seq<G1Affine> {
        w.map_values(|x: Seq<Seq<u64>>| g1_from_repr_spec(x))
    }

    fn to_repr(&self) -> (res: Vec<[[u64; 4]; 2]>) {
        let ghost v = self.deep_view();
        assert(v =~= self@);
        let mut out: Vec<[[u64; 4]; 2]> = Vec::new();
        let mut i: usize = 0;
        while i < self.len()
            invariant
                i <= self@.len(),
                v == self@,
                Self::repr_encodable(v),
                out@.len() == i,
                forall|k: int| 0 <= k < i ==> (#[trigger] out@[k]).deep_view() == g1_to_repr_spec(
                    v[k],
                ),
            decreases self@.len() - i,
        {
            assert(v[i as int].is_finite());
            out.push(self[i].to_repr());
            i = i + 1;
        }
        assert(out.deep_view() =~= Self::spec_to_repr(v));
        out
    }

    fn from_repr(repr: &Vec<[[u64; 4]; 2]>) -> (res: Vec<G1Affine>) {
        let ghost w = repr.deep_view();
        let mut out: Vec<G1Affine> = Vec::new();
        let mut i: usize = 0;
        while i < repr.len()
            invariant
                i <= repr@.len(),
                w == repr.deep_view(),
                w.len() == repr@.len(),
                Self::repr_decodable(w),
                out@.len() == i,
                forall|k: int| 0 <= k < i ==> (#[trigger] out@[k]) == g1_from_repr_spec(w[k]),
            decreases repr@.len() - i,
        {
            assert(w[i as int] == repr@[i as int].deep_view());
            assert(g1_decodable(w[i as int]));
            out.push(G1Affine::from_repr(&repr[i]));
            i = i + 1;
        }
        assert(out.deep_view() =~= Self::spec_from_repr(w));
        out
    }

    proof fn lemma_repr_round_trip(v: Seq<G1Affine>) {
        let w = Self::spec_to_repr(v);
        assert forall|i: int| 0 <= i < w.len() implies g1_decodable(#[trigger] w[i]) by {
            G1Affine::lemma_repr_round_trip(v[i]);
        }
        assert forall|i: int| 0 <= i < v.len() implies #[trigger] Self::spec_from_repr(w)[i]
            == v[i] by {
            G1Affine::lemma_repr_round_trip(v[i]);
        }
        assert(Self::spec_from_repr(w) =~= v);
    }
}

impl HasPrimitiveRepr for Vec<Fr> {
    type Repr = Vec<[u64; 4]>;

    open spec fn repr_encodable(v: Seq<Fr>) -> bool {
        forall|i: int| 0 <= i < v.len() ==> (#[trigger] v[i]).wf()
    }

    open spec fn repr_decodable(w: Seq<Seq<u64>>) -> bool {
        forall|i: int| 0 <= i < w.len() ==> limbs_decodable(#[trigger] w[i], r())
    }

    open spec fn spec_to_repr(v: Seq<Fr>) -> Seq<Seq<u64>> {
        v.map_values(|x: Fr| x.limbs@)
    }

    open spec fn spec_from_repr(w: Seq<Seq<u64>>) -> Seq<Fr> {
        w.map_values(|x: Seq<u64>| Fr { limbs: limbs_from_seq(x) })
    }

    fn to_repr(&self) -> (res: Vec<[u64; 4]>) {
        let ghost v = self.deep_view();
        assert(v =~= self@);
        let mut out: Vec<[u64; 4]> = Vec::new();
        let mut i: usize = 0;
        while i < self.len()
            invariant
                i <= self@.len(),
                v == self@,
                Self::repr_encodable(v),
                out@.len() == i,
                forall|k: int| 0 <= k < i ==> (#[trigger] out@[k]).deep_view() == v[k].limbs@,
            decreases self@.len() - i,
        {
            assert(v[i as int].wf());
            out.push(self[i].to_repr());
            i = i + 1;
        }
        assert(out.deep_view() =~= Self::spec_to_repr(v));
        out
    }

    fn from_repr(repr: &Vec<[u64; 4]>) -> (res: Vec<Fr>) {
        let ghost w = repr.deep_view();
        let mut out: Vec<Fr> = Vec::new();
        let mut i: usize = 0;
        while i < repr.len()
            invariant
                i <= repr@.len(),
                w == repr.deep_view(),
                w.len() == repr@.len(),
                Self::repr_decodable(w),
                out@.len() == i,
                forall|k: int| 0 <= k < i ==> (#[trigger] out@[k]) == (Fr {
                    limbs: limbs_from_seq(w[k]),
                }),
            decreases repr@.len() - i,
        {
            assert(w[i as int] == repr@[i as int].deep_view());
            assert(limbs_decodable(w[i as int], r()));
            out.push(Fr::from_repr(&repr[i]));
            i = i + 1;
        }
        assert(out.deep_view() =~= Self::spec_from_repr(w));
        out
    }

    proof fn lemma_repr_round_trip(v: Seq<Fr>) {
        let w = Self::spec_to_repr(v);
        assert forall|i: int| 0 <= i < w.len() implies limbs_decodable(#[trigger] w[i], r()) by {
            lemma_limbs_seq(v[i].limbs);
        }
        assert forall|i: int| 0 <= i < v.len() implies #[trigger] Self::spec_from_repr(w)[i]
            == v[i] by {
            lemma_limbs_seq(v[i].limbs);
        }
        assert(Self::spec_from_repr(w) =~= v);
    }
}

impl HasPrimitiveRepr for Proof {
    type Repr = ([[u64; 4]; 2], [[[u64; 4]; 2]; 2], [[u64; 4]; 2]);

    open spec fn repr_encodable(v: Proof) -> bool {
        v.pi_a.is_finite() && v.pi_b.is_finite() && v.pi_c.is_finite()
    }

    open spec fn repr_decodable(w: (Seq<Seq<u64>>, Seq<Seq<Seq<u64>>>, Seq<Seq<u64>>)) -> bool {
        g1_decodable(w.0) && g2_decodable(w.1) && g1_decodable(w.2)
    }

    open spec fn spec_to_repr(v: Proof) -> (Seq<Seq<u64>>, Seq<Seq<Seq<u64>>>, Seq<Seq<u64>>) {
        (g1_to_repr_spec(v.pi_a), g2_to_repr_spec(v.pi_b), g1_to_repr_spec(v.pi_c))
    }

    open spec fn spec_from_repr(w: (Seq<Seq<u64>>, Seq<Seq<Seq<u64>>>, Seq<Seq<u64>>)) -> Proof {
        Proof {
            pi_a: g1_from_repr_spec(w.0),
            pi_b: g2_from_repr_spec(w.1),
            pi_c: g1_from_repr_spec(w.2),
        }
    }

    fn to_repr(&self) -> (res: ([[u64; 4]; 2], [[[u64; 4]; 2]; 2], [[u64; 4]; 2])) {
        (self.pi_a.to_repr(), self.pi_b.to_repr(), self.pi_c.to_repr())
    }

    fn from_repr(repr: &([[u64; 4]; 2], [[[u64; 4]; 2]; 2], [[u64; 4]; 2])) -> (res: Proof) {
        Proof {
            pi_a: G1Affine::from_repr(&repr.0),
            pi_b: G2Affine::from_repr(&repr.1),
            pi_c: G1Affine::from_repr(&repr.2),
        }
    }

    proof fn lemma_repr_round_trip(v: Proof) {
        G1Affine::lemma_repr_round_trip(v.pi_a);
        G2Affine::lemma_repr_round_trip(v.pi_b);
        G1Affine::lemma_repr_round_trip(v.pi_c);
    }
}

impl HasPrimitiveRepr for VerifyingKey {
    type Repr = (
        [[u64; 4]; 2],
        [[[u64; 4]; 2]; 2],
        [[[u64; 4]; 2]; 2],
        [[[u64; 4]; 2]; 2],
        Vec<[[u64; 4]; 2]>,
    );

    open spec fn repr_encodable(v: VerifyingKeyModel) -> bool {
        &&& v.alpha.is_finite()
        &&& v.beta.is_finite()
        &&& v.gamma.is_finite()
        &&& v.delta.is_finite()
        &&& forall|i: int| 0 <= i < v.s.len() ==> (#[trigger] v.s[i]).is_finite()
    }

    open spec fn repr_decodable(w: <Self::Repr as DeepView>::V) -> bool {
        &&& g1_decodable(w.0)
        &&& g2_decodable(w.1)
        &&& g2_decodable(w.2)
        &&& g2_decodable(w.3)
        &&& forall|i: int| 0 <= i < w.4.len() ==> g1_decodable(#[trigger] w.4[i])
    }

    open spec fn spec_to_repr(v: VerifyingKeyModel) -> <Self::Repr as DeepView>::V {
        (
            g1_to_repr_spec(v.alpha),
            g2_to_repr_spec(v.beta),
            g2_to_repr_spec(v.gamma),
            g2_to_repr_spec(v.delta),
            v.s.map_values(|p: G1Affine| g1_to_repr_spec(p)),
        )
    }

    open spec fn spec_from_repr(w: <Self::Repr as DeepView>::V) -> VerifyingKeyModel {
        VerifyingKeyModel {
            alpha: g1_from_repr_spec(w.0),
            beta: g2_from_repr_spec(w.1),
            gamma: g2_from_repr_spec(w.2),
            delta: g2_from_repr_spec(w.3),
            s: w.4.map_values(|x: Seq<Seq<u64>>| g1_from_repr_spec(x)),
        }
    }

    fn to_repr(&self) -> (res: Self::Repr) {
        assert(self@.s == self.s@);
        assert(self.s.deep_view() =~= self.s@);
        (
            self.alpha.to_repr(),
            self.beta.to_repr(),
            self.gamma.to_repr(),
            self.delta.to_repr(),
            self.s.to_repr(),
        )
    }

    fn from_repr(repr: &Self::Repr) -> (res: VerifyingKey) {
        assert(repr.deep_view().4 == repr.4.deep_view());
        assert(<Vec<G1Affine> as HasPrimitiveRepr>::repr_decodable(repr.4.deep_view()));
        let s = Vec::<G1Affine>::from_repr(&repr.4);
        assert(s.deep_view() =~= s@);
        VerifyingKey {
            alpha: G1Affine::from_repr(&repr.0),
            beta: G2Affine::from_repr(&repr.1),
            gamma: G2Affine::from_repr(&repr.2),
            delta: G2Affine::from_repr(&repr.3),
            s,
        }
    }

    proof fn lemma_repr_round_trip(v: VerifyingKeyModel) {
        G1Affine::lemma_repr_round_trip(v.alpha);
        G2Affine::lemma_repr_round_trip(v.beta);
        G2Affine::lemma_repr_round_trip(v.gamma);
        G2Affine::lemma_repr_round_trip(v.delta);
        Vec::<G1Affine>::lemma_repr_round_trip(v.s);
    }
}

} // verus!
