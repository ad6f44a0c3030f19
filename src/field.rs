//! Prime-field elements held as four canonical little-endian 64-bit limbs.
use vstd::arithmetic::div_mod::lemma_fundamental_div_mod_converse;
use vstd::prelude::*;

verus! {

/// 2^64
pub open spec fn base() -> nat {
    0x1_0000_0000_0000_0000nat
}

/// The integer that four little-endian 64-bit limbs stand for.
pub open spec fn limbs_value(l: [u64; 4]) -> nat {
    (l[0] as nat) + base() * ((l[1] as nat) + base() * ((l[2] as nat) + base() * (l[3] as nat)))
}

/// The base-field modulus q.
pub open spec fn q() -> nat {
    21888242871839275222246405745257275088696311157297823662689037894645226208583nat
}

/// The scalar-field modulus r.
pub open spec fn r() -> nat {
    21888242871839275222246405745257275088548364400416034343698204186575808495617nat
}

/// The limbs of q.
pub fn fq_modulus() -> (m: [u64; 4])
    ensures
        limbs_value(m) == q(),
{
    let m: [u64; 4] = [0x3c208c16d87cfd47, 0x97816a916871ca8d, 0xb85045b68181585d, 0x30644e72e131a029];
    assert(limbs_value(m) == q());
    m
}

/// The limbs of r.
pub fn fr_modulus() -> (m: [u64; 4])
    ensures
        limbs_value(m) == r(),
{
    let m: [u64; 4] = [0x43e1f593f0000001, 0x2833e84879b97091, 0xb85045b68181585d, 0x30644e72e131a029];
    assert(limbs_value(m) == r());
    m
}

proof fn lemma_digit_order(a_hi: int, a_lo: int, b_hi: int, b_lo: int, b: int)
    by (nonlinear_arith)
    requires
        0 <= a_lo < b,
        0 <= b_lo < b,
        0 <= a_hi,
        0 <= b_hi,
    ensures
        a_hi < b_hi ==> a_lo + b * a_hi < b_lo + b * b_hi,
        a_hi > b_hi ==> a_lo + b * a_hi > b_lo + b * b_hi,
        a_hi == b_hi ==> (a_lo + b * a_hi < b_lo + b * b_hi <==> a_lo < b_lo),
{
}

spec fn tail3(l: [u64; 4]) -> nat {
    (l[1] as nat) + base() * ((l[2] as nat) + base() * (l[3] as nat))
}

spec fn tail2(l: [u64; 4]) -> nat {
    (l[2] as nat) + base() * (l[3] as nat)
}

/// Compares two limb arrays as the integers they stand for.
pub fn limbs_lt(a: &[u64; 4], m: &[u64; 4]) -> (res: bool)
    ensures
        res == (limbs_value(*a) < limbs_value(*m)),
{
    let ghost b = base() as int;
    proof {
        assert(tail2(*a) < b * b) by (nonlinear_arith)
            requires
                b == base(),
                tail2(*a) == (a[2] as nat) + b * (a[3] as nat),
                (a[2] as nat) < b,
                (a[3] as nat) < b,
        ;
        assert(tail2(*m) < b * b) by (nonlinear_arith)
            requires
                b == base(),
                tail2(*m) == (m[2] as nat) + b * (m[3] as nat),
                (m[2] as nat) < b,
                (m[3] as nat) < b,
        ;
        assert(tail3(*a) < b * b * b) by (nonlinear_arith)
            requires
                b == base(),
                tail3(*a) == (a[1] as nat) + b * tail2(*a),
                tail2(*a) < b * b,
                (a[1] as nat) < b,
        ;
        assert(tail3(*m) < b * b * b) by (nonlinear_arith)
            requires
                b == base(),
                tail3(*m) == (m[1] as nat) + b * tail2(*m),
                tail2(*m) < b * b,
                (m[1] as nat) < b,
        ;
        lemma_digit_order(a[3] as int, a[2] as int, m[3] as int, m[2] as int, b);
        lemma_digit_order(tail2(*a) as int, a[1] as int, tail2(*m) as int, m[1] as int, b);
        lemma_digit_order(tail3(*a) as int, a[0] as int, tail3(*m) as int, m[0] as int, b);
    }
    if a[3] != m[3] {
        a[3] < m[3]
    } else if a[2] != m[2] {
        a[2] < m[2]
    } else if a[1] != m[1] {
        a[1] < m[1]
    } else {
        a[0] < m[0]
    }
}

/// An element of the BN254 base field: the canonical integer below q, in limbs.
#[derive(Clone, Copy, Debug, PartialEq, Eq)]
pub struct Fq {
    pub limbs: [u64; 4],
}

/// An element of the BN254 scalar field: the canonical integer below r, in limbs.
#[derive(Clone, Copy, Debug, PartialEq, Eq)]
pub struct Fr {
    pub limbs: [u64; 4],
}

/// An element `c0 + c1 * u` of the quadratic extension of the base field.
#[derive(Clone, Copy, Debug, PartialEq, Eq)]
pub struct Fq2 {
    pub c0: Fq,
    pub c1: Fq,
}

/// An element of the degree-12 extension of the base field, as its twelve
/// base-field coefficients in ark's tower order.
#[derive(Clone, Debug)]
pub struct Fq12 {
    pub coeffs: Vec<Fq>,
}

impl Fq {
    pub open spec fn value(self) -> nat {
        limbs_value(self.limbs)
    }

    /// The limbs are the canonical representative (below q).
    pub open spec fn wf(self) -> bool {
        self.value() < q()
    }

    /// The element whose canonical integer is `n` (which must be below q).
    pub open spec fn spec_of(n: nat) -> Fq {
        Fq { limbs: limbs_of(n) }
    }

    /// The element for the given limbs, if they are canonical.
    pub fn from_bigint(limbs: [u64; 4]) -> (res: Option<Fq>)
        ensures
            res == (if limbs_value(limbs) < q() {
                Some(Fq { limbs })
            } else {
                None
            }),
    {
        let m = fq_modulus();
        if limbs_lt(&limbs, &m) {
            Some(Fq { limbs })
        } else {
            None
        }
    }

    /// The canonical limbs.
    pub fn into_bigint(&self) -> (res: [u64; 4])
        ensures
            res == self.limbs,
    {
        self.limbs
    }

    /// Whether the limbs are canonical.
    pub fn is_valid(&self) -> (res: bool)
        ensures
            res == self.wf(),
    {
        let m = fq_modulus();
        limbs_lt(&self.limbs, &m)
    }
}

impl Fr {
    pub open spec fn value(self) -> nat {
        limbs_value(self.limbs)
    }

    /// The limbs are the canonical representative (below r).
    pub open spec fn wf(self) -> bool {
        self.value() < r()
    }

    /// The element whose canonical integer is `n` (which must be below r).
    pub open spec fn spec_of(n: nat) -> Fr {
        Fr { limbs: limbs_of(n) }
    }

    /// The element for the given limbs, if they are canonical.
    pub fn from_bigint(limbs: [u64; 4]) -> (res: Option<Fr>)
        ensures
            res == (if limbs_value(limbs) < r() {
                Some(Fr { limbs })
            } else {
                None
            }),
    {
        let m = fr_modulus();
        if limbs_lt(&limbs, &m) {
            Some(Fr { limbs })
        } else {
            None
        }
    }

    /// The canonical limbs.
    pub fn into_bigint(&self) -> (res: [u64; 4])
        ensures
            res == self.limbs,
    {
        self.limbs
    }

    /// Whether the limbs are canonical.
    pub fn is_valid(&self) -> (res: bool)
        ensures
            res == self.wf(),
    {
        let m = fr_modulus();
        limbs_lt(&self.limbs, &m)
    }
}

impl Fq2 {
    pub open spec fn wf(self) -> bool {
        self.c0.wf() && self.c1.wf()
    }

    /// Whether both components are canonical.
    pub fn is_valid(&self) -> (res: bool)
        ensures
            res == self.wf(),
    {
        self.c0.is_valid() && self.c1.is_valid()
    }
}

impl Fq12 {
    pub open spec fn wf(self) -> bool {
        &&& self.coeffs@.len() == 12
        &&& forall|i: int| 0 <= i < 12 ==> (#[trigger] self.coeffs@[i]).wf()
    }

    /// Whether this is the multiplicative identity.
    pub fn is_one(&self) -> (res: bool)
        ensures
            res == coeffs_are_one(self.coeffs@),
    {
        if self.coeffs.len() != 12 {
            return false;
        }
        let c = self.coeffs[0].limbs;
        if !(c[0] == 1 && c[1] == 0 && c[2] == 0 && c[3] == 0) {
            assert(limbs_value(c) != 1) by (nonlinear_arith)
                requires
                    !(c[0] == 1 && c[1] == 0 && c[2] == 0 && c[3] == 0),
                    limbs_value(c) == (c[0] as nat) + base() * ((c[1] as nat) + base() * ((c[2] as nat) + base() * (c[3] as nat))),
                    base() > 1,
            ;
            return false;
        }
        let mut i: usize = 1;
        while i < 12
            invariant
                1 <= i <= 12,
                self.coeffs@.len() == 12,
                self.coeffs@[0].value() == 1,
                forall|j: int| 1 <= j < i ==> (#[trigger] self.coeffs@[j]).value() == 0,
            decreases 12 - i,
        {
            let d = self.coeffs[i].limbs;
            if !(d[0] == 0 && d[1] == 0 && d[2] == 0 && d[3] == 0) {
                assert(limbs_value(d) != 0) by (nonlinear_arith)
                    requires
                        !(d[0] == 0 && d[1] == 0 && d[2] == 0 && d[3] == 0),
                        limbs_value(d) == (d[0] as nat) + base() * ((d[1] as nat) + base() * ((d[2] as nat) + base() * (d[3] as nat))),
                        base() > 1,
                ;
                return false;
            }
            i = i + 1;
        }
        true
    }
}

/// Twelve coefficients of the multiplicative identity: one, then zeros.
pub open spec fn coeffs_are_one(c: Seq<Fq>) -> bool {
    &&& c.len() == 12
    &&& c[0].value() == 1
    &&& forall|i: int| 1 <= i < 12 ==> (#[trigger] c[i]).value() == 0
}

/// The limbs of an integer below 2^256.
pub open spec fn limbs_of(n: nat) -> [u64; 4] {
    [
        (n % base()) as u64,
        ((n / base()) % base()) as u64,
        ((n / base() / base()) % base()) as u64,
        ((n / base() / base() / base()) % base()) as u64,
    ]
}

/// Limbs read back from the integer they stand for are the same limbs.
pub proof fn lemma_limbs_of_value(l: [u64; 4])
    ensures
        limbs_of(limbs_value(l)) == l,
{
    let b = base() as int;
    let t2 = (l[2] as int) + b * (l[3] as int);
    let t1 = (l[1] as int) + b * t2;
    let v = (l[0] as int) + b * t1;
    assert(v == limbs_value(l));
    assert(t1 * b == b * t1) by (nonlinear_arith);
    assert(t2 * b == b * t2) by (nonlinear_arith);
    assert((l[3] as int) * b == b * (l[3] as int)) by (nonlinear_arith);
    lemma_fundamental_div_mod_converse(v, b, t1, l[0] as int);
    lemma_fundamental_div_mod_converse(t1, b, t2, l[1] as int);
    lemma_fundamental_div_mod_converse(t2, b, l[3] as int, l[2] as int);
    lemma_fundamental_div_mod_converse(l[3] as int, b, 0, l[3] as int);
    assert(limbs_of(v as nat) =~= l);
}

// ---------------------------------------------------------------------
// Decimal numerals
// ---------------------------------------------------------------------

pub open spec fn is_digit(c: char) -> bool {
    '0' <= c && c <= '9'
}

pub open spec fn digit_value(c: char) -> nat {
    (c as nat - '0' as nat) as nat
}

pub open spec fn digit_char(d: nat) -> char {
    ((d + '0' as nat) as u32) as char
}

/// Every character is a decimal digit.
pub open spec fn all_digits(s: Seq<char>) -> bool {
    forall|i: int| 0 <= i < s.len() ==> is_digit(#[trigger] s[i])
}

/// The integer that a string of decimal digits stands for.
pub open spec fn decimal_value(s: Seq<char>) -> nat
    decreases s.len(),
{
    if s.len() == 0 {
        0
    } else {
        decimal_value(s.drop_last()) * 10 + digit_value(s.last())
    }
}

/// The decimal digits of `n` with no leading zero; empty for zero.
pub open spec fn decimal_digits(n: nat) -> Seq<char>
    decreases n,
{
    if n == 0 {
        Seq::empty()
    } else {
        decimal_digits(n / 10).push(digit_char(n % 10))
    }
}

/// The decimal numeral of `n`: "0" for zero, else its digits.
pub open spec fn decimal_numeral(n: nat) -> Seq<char> {
    if n == 0 {
        seq!['0']
    } else {
        decimal_digits(n)
    }
}

/// A decimal numeral without superfluous leading zeros.
pub open spec fn is_canonical_decimal(s: Seq<char>) -> bool {
    s =~= seq!['0'] || (s.len() > 0 && all_digits(s) && s[0] != '0')
}

proof fn lemma_decimal_digits(n: nat)
    ensures
        all_digits(decimal_digits(n)),
        decimal_value(decimal_digits(n)) == n,
        n > 0 ==> decimal_digits(n).len() > 0 && decimal_digits(n)[0] != '0',
    decreases n,
{
    if n > 0 {
        lemma_decimal_digits(n / 10);
        let d = decimal_digits(n);
        assert(d.drop_last() =~= decimal_digits(n / 10));
        assert(d.last() == digit_char(n % 10));
        assert(digit_value(digit_char(n % 10)) == n % 10);
        if n / 10 == 0 {
            assert(d.len() == 1);
            assert(n % 10 != 0);
        } else {
            assert(d[0] == decimal_digits(n / 10)[0]);
        }
    }
}

/// The numeral of a value is canonical and reads back as that value.
pub proof fn lemma_decimal_numeral(n: nat)
    ensures
        is_canonical_decimal(decimal_numeral(n)),
        decimal_value(decimal_numeral(n)) == n,
{
    lemma_decimal_digits(n);
    if n == 0 {
        let s = seq!['0'];
        assert(s.drop_last() =~= Seq::<char>::empty());
        assert(decimal_value(s) == 0);
    }
}

impl DeepView for Fq {
    type V = Fq;

    open spec fn deep_view(&self) -> Fq {
        *self
    }
}

impl DeepView for Fr {
    type V = Fr;

    open spec fn deep_view(&self) -> Fr {
        *self
    }
}

impl DeepView for Fq2 {
    type V = Fq2;

    open spec fn deep_view(&self) -> Fq2 {
        *self
    }
}

} // verus!
