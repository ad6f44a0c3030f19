//! The JSON form of keys, proofs and inputs: field elements as decimal
//! strings (or `0x` hexadecimal on input), points and extension elements as
//! arrays, keys and proofs as objects.
use crate::curve::{G1Affine, G2Affine};
use crate::{Proof, VerifyingKey, VerifyingKeyModel};
use crate::field::Fq2;
use crate::backend::{fq_from_decimal, fq_to_decimal, fr_from_decimal, fr_to_decimal};
use crate::field::{
    base, decimal_numeral, decimal_value, fq_modulus, fr_modulus, is_canonical_decimal,
    lemma_decimal_numeral, lemma_limbs_of_value, limbs_lt, limbs_of, limbs_value, q, r, Fq, Fr,
};
use vstd::arithmetic::div_mod::lemma_fundamental_div_mod_converse;
use vstd::prelude::*;

verus! {

/// Why a JSON value could not be decoded.
#[derive(Clone, Copy, Debug, PartialEq, Eq, Structural)]
pub enum DecodeError {
    /// A slice that should hold eight bytes holds some other number.
    SliceLength,
    /// A `0x` numeral holds a character that is not a hexadecimal digit.
    InvalidHex,
    /// A `0x` numeral stands for more than 32 bytes.
    HexTooLong,
    /// A `0x` numeral is not below the field's modulus.
    NotCanonical,
    /// A decimal numeral is empty, has a leading zero or a non-digit.
    InvalidDecimal,
}

// ---------------------------------------------------------------------
// Bytes
// ---------------------------------------------------------------------

/// The integer that little-endian bytes stand for.
pub open spec fn le_value(b: Seq<u8>) -> nat
    decreases b.len(),
{
    if b.len() == 0 {
        0
    } else {
        (b[0] as nat) + 256 * le_value(b.drop_first())
    }
}

/// The integer that big-endian bytes stand for.
pub open spec fn be_value(b: Seq<u8>) -> nat
    decreases b.len(),
{
    if b.len() == 0 {
        0
    } else {
        be_value(b.drop_last()) * 256 + (b.last() as nat)
    }
}

pub open spec fn pow256(k: nat) -> nat
    decreases k,
{
    if k == 0 {
        1
    } else {
        256 * pow256((k - 1) as nat)
    }
}

proof fn lemma_le_split(x: Seq<u8>, k: nat)
    requires
        k <= x.len(),
    ensures
        le_value(x) == le_value(x.subrange(0, k as int)) + pow256(k) * le_value(
            x.subrange(k as int, x.len() as int),
        ),
    decreases k,
{
    if k == 0 {
        assert(x.subrange(0, 0) =~= Seq::<u8>::empty());
        assert(x.subrange(0, x.len() as int) =~= x);
        assert(le_value(Seq::<u8>::empty()) == 0);
        assert(pow256(0) == 1);
    } else {
        let t = x.drop_first();
        lemma_le_split(t, (k - 1) as nat);
        assert(t.subrange(0, k - 1) =~= x.subrange(0, k as int).drop_first());
        assert(t.subrange(k - 1, t.len() as int) =~= x.subrange(k as int, x.len() as int));
        let a = le_value(t.subrange(0, k - 1));
        let p = pow256((k - 1) as nat);
        let c = le_value(x.subrange(k as int, x.len() as int));
        assert(256 * (a + p * c) == 256 * a + (256 * p) * c) by (nonlinear_arith);
        let h = x.subrange(0, k as int);
        assert(h[0] == x[0]);
        assert(le_value(h) == (x[0] as nat) + 256 * a);
        assert(le_value(x) == (x[0] as nat) + 256 * le_value(t));
        assert(pow256(k) == 256 * p);
        assert(le_value(x) == le_value(h) + (256 * p) * c);
    }
}

proof fn lemma_pow256_8()
    ensures
        pow256(8) == base(),
{
    reveal_with_fuel(pow256, 9);
}

/// The integer of eight little-endian bytes.
pub fn u64_from_le_bytes(bytes: &[u8; 8]) -> (res: u64)
    ensures
        res as nat == le_value(bytes@),
{
    let b0 = bytes[0];
    let b1 = bytes[1];
    let b2 = bytes[2];
    let b3 = bytes[3];
    let b4 = bytes[4];
    let b5 = bytes[5];
    let b6 = bytes[6];
    let b7 = bytes[7];
    let res = (b0 as u64) | ((b1 as u64) << 8) | ((b2 as u64) << 16) | ((b3 as u64) << 24) | ((
    b4 as u64) << 32) | ((b5 as u64) << 40) | ((b6 as u64) << 48) | ((b7 as u64) << 56);
    assert(res == (b0 as u64) + 256 * ((b1 as u64) + 256 * ((b2 as u64) + 256 * ((b3 as u64) + 256
        * ((b4 as u64) + 256 * ((b5 as u64) + 256 * ((b6 as u64) + 256 * (b7 as u64)))))))) by (bit_vector)
        requires
            res == (b0 as u64) | ((b1 as u64) << 8) | ((b2 as u64) << 16) | ((b3 as u64) << 24)
                | ((b4 as u64) << 32) | ((b5 as u64) << 40) | ((b6 as u64) << 48) | ((b7 as u64)
                << 56),
    ;
    proof {
        reveal_with_fuel(le_value, 9);
        let s = bytes@;
        assert(s.drop_first().drop_first().drop_first().drop_first().drop_first().drop_first().drop_first().drop_first().len() == 0);
    }
    res
}

/// The integer of a slice of exactly eight little-endian bytes.
pub fn u64_from_le_bytes_slice(bytes: &[u8]) -> (res: Result<u64, DecodeError>)
    ensures
        bytes@.len() == 8 ==> (res matches Ok(v) && v as nat == le_value(bytes@)),
        bytes@.len() != 8 ==> res == Err::<u64, DecodeError>(DecodeError::SliceLength),
{
    if bytes.len() != 8 {
        return Err(DecodeError::SliceLength);
    }
    let a: [u8; 8] = [bytes[0], bytes[1], bytes[2], bytes[3], bytes[4], bytes[5], bytes[6], bytes[7]];
    assert(a@ =~= bytes@);
    Ok(u64_from_le_bytes(&a))
}

// ---------------------------------------------------------------------
// Hexadecimal numerals
// ---------------------------------------------------------------------

/// An ASCII hexadecimal digit, either case.
pub open spec fn is_hex_byte(b: u8) -> bool {
    (48 <= b && b <= 57) || (65 <= b && b <= 70) || (97 <= b && b <= 102)
}

pub open spec fn hex_byte_value(b: u8) -> nat {
    if 48 <= b && b <= 57 {
        (b - 48) as nat
    } else if 65 <= b && b <= 70 {
        (b - 55) as nat
    } else {
        (b - 87) as nat
    }
}

/// A hexadecimal digit character.
pub open spec fn is_hex_char(c: char) -> bool {
    (c as u32) < 128 && is_hex_byte((c as u32) as u8)
}

/// Every character is a hexadecimal digit.
pub open spec fn all_hex(t: Seq<char>) -> bool {
    forall|i: int| 0 <= i < t.len() ==> is_hex_char(#[trigger] t[i])
}

/// The integer that a string of hexadecimal digits stands for.
pub open spec fn hex_value(t: Seq<char>) -> nat
    decreases t.len(),
{
    if t.len() == 0 {
        0
    } else {
        hex_value(t.drop_last()) * 16 + hex_byte_value((t.last() as u32) as u8)
    }
}

/// The integer that a sequence of ASCII hexadecimal digits stands for.
pub open spec fn hex_bytes_value(d: Seq<u8>) -> nat
    decreases d.len(),
{
    if d.len() == 0 {
        0
    } else {
        hex_bytes_value(d.drop_last()) * 16 + hex_byte_value(d.last())
    }
}

/// The bytes that pairs of hexadecimal digits spell, high digit first.
pub open spec fn hex_pairs(d: Seq<u8>) -> Seq<u8> {
    Seq::new(
        d.len() / 2,
        |i: int| (16 * hex_byte_value(d[2 * i]) + hex_byte_value(d[2 * i + 1])) as u8,
    )
}

/// `s` without a leading "0x", if it has one.
pub open spec fn strip_hex_prefix(s: Seq<char>) -> Seq<char> {
    if s.len() >= 2 && s[0] == '0' && s[1] == 'x' {
        s.subrange(2, s.len() as int)
    } else {
        s
    }
}

/// Whether `s` starts with "0x".
pub open spec fn has_hex_prefix(s: Seq<char>) -> bool {
    s.len() >= 2 && s[0] == '0' && s[1] == 'x'
}

pub open spec fn ascii_of(t: Seq<char>) -> Seq<u8> {
    Seq::new(t.len(), |i: int| (t[i] as u32) as u8)
}

/// `b` reversed, then padded with zeros to `m` bytes.
pub open spec fn reversed_padded(b: Seq<u8>, m: nat) -> Seq<u8> {
    Seq::new(m, |i: int| if i < b.len() { b[b.len() - 1 - i] } else { 0u8 })
}

/// Relies on hex::decode: it succeeds exactly on an even number of ASCII
/// hexadecimal digits (either case), and gives the byte of each pair.
#[verifier::external_body]
fn hex_decode(digits: &[u8]) -> (res: Option<Vec<u8>>)
    ensures
        match res {
            Some(v) => digits@.len() % 2 == 0 && (forall|i: int|
                0 <= i < digits@.len() ==> is_hex_byte(#[trigger] digits@[i])) && v@ == hex_pairs(
                digits@,
            ),
            None => !(digits@.len() % 2 == 0 && (forall|i: int|
                0 <= i < digits@.len() ==> is_hex_byte(#[trigger] digits@[i]))),
        },
{
    hex::decode(digits).ok()
}

proof fn lemma_ascii_value(t: Seq<char>)
    ensures
        hex_bytes_value(ascii_of(t)) == hex_value(t),
    decreases t.len(),
{
    if t.len() > 0 {
        lemma_ascii_value(t.drop_last());
        assert(ascii_of(t).drop_last() =~= ascii_of(t.drop_last()));
    }
}

proof fn lemma_zero_pad(d: Seq<u8>)
    ensures
        hex_bytes_value(seq![48u8] + d) == hex_bytes_value(d),
    decreases d.len(),
{
    let e = seq![48u8] + d;
    if d.len() == 0 {
        assert(e.drop_last() =~= Seq::<u8>::empty());
        assert(e.last() == 48u8);
        assert(hex_bytes_value(Seq::<u8>::empty()) == 0);
    } else {
        lemma_zero_pad(d.drop_last());
        assert(e.drop_last() =~= seq![48u8] + d.drop_last());
        assert(e.last() == d.last());
    }
}

proof fn lemma_pairs_value(d: Seq<u8>)
    requires
        d.len() % 2 == 0,
        forall|i: int| 0 <= i < d.len() ==> is_hex_byte(#[trigger] d[i]),
    ensures
        be_value(hex_pairs(d)) == hex_bytes_value(d),
    decreases d.len(),
{
    if d.len() > 0 {
        let e = d.subrange(0, d.len() - 2);
        assert forall|i: int| 0 <= i < e.len() implies is_hex_byte(#[trigger] e[i]) by {
            assert(e[i] == d[i]);
        }
        lemma_pairs_value(e);
        assert(hex_pairs(d).drop_last() =~= hex_pairs(e));
        assert(d.drop_last().drop_last() =~= e);
        let x = hex_bytes_value(e);
        let hi = hex_byte_value(d[d.len() - 2]);
        let lo = hex_byte_value(d[d.len() - 1]);
        assert(is_hex_byte(d[d.len() - 2]));
        assert(is_hex_byte(d[d.len() - 1]));
        assert(hi < 16 && lo < 16);
        let k = d.len() / 2 - 1;
        assert(2 * k == d.len() - 2);
        assert(hex_pairs(d).last() as nat == 16 * hi + lo);
        assert(d.drop_last().last() == d[d.len() - 2]);
        assert(hex_bytes_value(d.drop_last()) == x * 16 + hi);
        assert(hex_bytes_value(d) == hex_bytes_value(d.drop_last()) * 16 + lo);
        assert(be_value(hex_pairs(d)) == be_value(hex_pairs(e)) * 256 + (16 * hi + lo));
        assert((x * 16 + hi) * 16 + lo == x * 256 + (16 * hi + lo)) by (nonlinear_arith);
    }
}

proof fn lemma_reversed_value(b: Seq<u8>, m: nat)
    requires
        b.len() <= m,
    ensures
        le_value(reversed_padded(b, m)) == be_value(b),
    decreases m,
{
    let r = reversed_padded(b, m);
    if m > 0 {
        if b.len() == 0 {
            lemma_reversed_value(b, (m - 1) as nat);
            assert(r.drop_first() =~= reversed_padded(b, (m - 1) as nat));
        } else {
            lemma_reversed_value(b.drop_last(), (m - 1) as nat);
            assert(r.drop_first() =~= reversed_padded(b.drop_last(), (m - 1) as nat));
            assert(r[0] == b.last());
        }
    } else {
        assert(r.len() == 0);
    }
}

/// The 32 little-endian bytes of a hexadecimal numeral (with or without a
/// leading "0x"); an odd number of digits is read with a leading '0'.
pub fn le_bytes32_from_hex(s: &str) -> (res: Result<[u8; 32], DecodeError>)
    ensures
        !all_hex(strip_hex_prefix(s@)) ==> res == Err::<[u8; 32], DecodeError>(
            DecodeError::InvalidHex,
        ),
        all_hex(strip_hex_prefix(s@)) && strip_hex_prefix(s@).len() > 64 ==> res == Err::<
            [u8; 32],
            DecodeError,
        >(DecodeError::HexTooLong),
        all_hex(strip_hex_prefix(s@)) && strip_hex_prefix(s@).len() <= 64 ==> (res matches Ok(b)
            && le_value(b@) == hex_value(strip_hex_prefix(s@))),
{
    let n = s.unicode_len();
    let mut start: usize = 0;
    if n >= 2 {
        if s.get_char(0) == '0' && s.get_char(1) == 'x' {
            start = 2;
        }
    }
    let ghost t = strip_hex_prefix(s@);
    assert(t =~= s@.subrange(start as int, n as int));
    let mut digits: Vec<u8> = Vec::new();
    let odd = (n - start) % 2 == 1;
    if odd {
        digits.push(48u8);
    }
    let ghost pad: Seq<u8> = digits@;
    let mut j: usize = start;
    while j < n
        invariant
            start <= j <= n,
            n == s@.len(),
            t =~= s@.subrange(start as int, n as int),
            t == strip_hex_prefix(s@),
            pad.len() <= 1,
            pad.len() == 1 ==> pad =~= seq![48u8],
            odd <==> pad.len() == 1,
            digits@ =~= pad + ascii_of(t.subrange(0, j - start)),
            forall|i: int| 0 <= i < j - start ==> (#[trigger] t[i] as u32) < 128,
        decreases n - j,
    {
        let c = s.get_char(j);
        assert(t[j - start] == c);
        if (c as u32) >= 128 {
            assert(!is_hex_char(t[j - start]));
            assert(!all_hex(t));
            assert(t == strip_hex_prefix(s@));
            return Err(DecodeError::InvalidHex);
        }
        digits.push((c as u32) as u8);
        j = j + 1;
        assert(ascii_of(t.subrange(0, j - start)) =~= ascii_of(t.subrange(0, j - start - 1)).push(
            (c as u32) as u8,
        ));
    }
    assert(t.subrange(0, n - start) =~= t);
    assert(digits@.len() % 2 == 0);
    assert forall|i: int| 0 <= i < t.len() implies (is_hex_char(#[trigger] t[i]) <==> is_hex_byte(
        digits@[i + pad.len()],
    )) by {
        assert(digits@[i + pad.len()] == (t[i] as u32) as u8);
    }
    let decoded = hex_decode(digits.as_slice());
    let bytes = match decoded {
        Some(b) => b,
        None => {
            proof {
                let i = choose|i: int|
                    0 <= i < digits@.len() && !is_hex_byte(#[trigger] digits@[i]);
                if pad.len() == 1 {
                    assert(i > 0);
                    assert(!is_hex_char(t[i - 1]));
                } else {
                    assert(!is_hex_char(t[i]));
                }
            }
            return Err(DecodeError::InvalidHex);
        },
    };
    assert forall|i: int| 0 <= i < t.len() implies is_hex_char(#[trigger] t[i]) by {
        assert(is_hex_byte(digits@[i + pad.len()]));
    }
    if bytes.len() > 32 {
        return Err(DecodeError::HexTooLong);
    }
    let m = bytes.len();
    let mut out: [u8; 32] = [0u8; 32];
    let mut k: usize = 0;
    while k < m
        invariant
            m == bytes@.len(),
            m <= 32,
            k <= m,
            forall|i: int| 0 <= i < k ==> out@[i] == bytes@[m - 1 - i],
            forall|i: int| m <= i < 32 ==> out@[i] == 0u8,
        decreases m - k,
    {
        out[k] = bytes[m - 1 - k];
        k = k + 1;
    }
    proof {
        assert(out@ =~= reversed_padded(bytes@, 32));
        lemma_reversed_value(bytes@, 32);
        lemma_pairs_value(digits@);
        lemma_ascii_value(t);
        if pad.len() == 1 {
            lemma_zero_pad(ascii_of(t));
        } else {
            assert(digits@ =~= ascii_of(t));
        }
    }
    Ok(out)
}

// ---------------------------------------------------------------------
// Field elements
// ---------------------------------------------------------------------

/// What a field element's JSON string decodes to, as an integer below the
/// modulus `m`: a `0x` numeral is read as hexadecimal and must be below `m`;
/// anything else must be a canonical decimal numeral, which is reduced mod `m`.
pub open spec fn field_json_value(s: Seq<char>, m: nat) -> Result<nat, DecodeError> {
    if has_hex_prefix(s) {
        let t = strip_hex_prefix(s);
        if !all_hex(t) {
            Err(DecodeError::InvalidHex)
        } else if t.len() > 64 {
            Err(DecodeError::HexTooLong)
        } else if hex_value(t) < m {
            Ok(hex_value(t))
        } else {
            Err(DecodeError::NotCanonical)
        }
    } else if is_canonical_decimal(s) {
        Ok(decimal_value(s) % m)
    } else {
        Err(DecodeError::InvalidDecimal)
    }
}

/// What a base-field element's JSON string decodes to.
pub open spec fn fq_from_json_spec(s: Seq<char>) -> Result<Fq, DecodeError> {
    match field_json_value(s, q()) {
        Ok(v) => Ok(Fq::spec_of(v)),
        Err(e) => Err(e),
    }
}

/// What a scalar-field element's JSON string decodes to.
pub open spec fn fr_from_json_spec(s: Seq<char>) -> Result<Fr, DecodeError> {
    match field_json_value(s, r()) {
        Ok(v) => Ok(Fr::spec_of(v)),
        Err(e) => Err(e),
    }
}

fn str_has_hex_prefix(s: &str) -> (res: bool)
    ensures
        res == has_hex_prefix(s@),
{
    let n = s.unicode_len();
    n >= 2 && s.get_char(0) == '0' && s.get_char(1) == 'x'
}

/// The limbs of a `0x` numeral, which must be below the modulus `m`.
fn limbs_from_hex(s: &str, m: &[u64; 4]) -> (res: Result<[u64; 4], DecodeError>)
    requires
        has_hex_prefix(s@),
    ensures
        match field_json_value(s@, limbs_value(*m)) {
            Ok(v) => res == Ok::<[u64; 4], DecodeError>(limbs_of(v)),
            Err(e) => res == Err::<[u64; 4], DecodeError>(e),
        },
{
    let bytes = match le_bytes32_from_hex(s) {
        Ok(b) => b,
        Err(e) => return Err(e),
    };
    let ghost t = strip_hex_prefix(s@);
    let whole = bytes.as_slice();
    let l0 = match u64_from_le_bytes_slice(vstd::slice::slice_subrange(whole, 0, 8)) {
        Ok(x) => x,
        Err(e) => return Err(e),
    };
    let l1 = match u64_from_le_bytes_slice(vstd::slice::slice_subrange(whole, 8, 16)) {
        Ok(x) => x,
        Err(e) => return Err(e),
    };
    let l2 = match u64_from_le_bytes_slice(vstd::slice::slice_subrange(whole, 16, 24)) {
        Ok(x) => x,
        Err(e) => return Err(e),
    };
    let l3 = match u64_from_le_bytes_slice(vstd::slice::slice_subrange(whole, 24, 32)) {
        Ok(x) => x,
        Err(e) => return Err(e),
    };
    let limbs: [u64; 4] = [l0, l1, l2, l3];
    proof {
        let x = bytes@;
        lemma_pow256_8();
        lemma_le_split(x, 8);
        let x1 = x.subrange(8, 32);
        lemma_le_split(x1, 8);
        let x2 = x1.subrange(8, 24);
        lemma_le_split(x2, 8);
        let x3 = x2.subrange(8, 16);
        assert(x.subrange(0, 8) =~= x.subrange(0, 8));
        assert(x1.subrange(0, 8) =~= x.subrange(8, 16));
        assert(x2.subrange(0, 8) =~= x.subrange(16, 24));
        assert(x3 =~= x.subrange(24, 32));
        assert(l0 as nat == le_value(x.subrange(0, 8)));
        assert(l1 as nat == le_value(x1.subrange(0, 8)));
        assert(l2 as nat == le_value(x2.subrange(0, 8)));
        assert(l3 as nat == le_value(x3));
        assert(x1.subrange(8, x1.len() as int) =~= x2);
        assert(x2.subrange(8, x2.len() as int) =~= x3);
        assert(x.subrange(8, x.len() as int) =~= x1);
        assert(limbs_value(limbs) == le_value(x));
        lemma_limbs_of_value(limbs);
    }
    if limbs_lt(&limbs, m) {
        Ok(limbs)
    } else {
        Err(DecodeError::NotCanonical)
    }
}

/// Types with a JSON representation.
pub trait HasJsonRepr: Sized + DeepView {
    type JsonRepr: DeepView;

    /// Values that have a JSON form: canonical, with no point at infinity.
    spec fn json_encodable(v: <Self as DeepView>::V) -> bool;

    /// The JSON form of a value.
    spec fn spec_to_json(v: <Self as DeepView>::V) -> <Self::JsonRepr as DeepView>::V;

    /// What a JSON form decodes to.
    spec fn spec_from_json(j: <Self::JsonRepr as DeepView>::V) -> Result<
        <Self as DeepView>::V,
        DecodeError,
    >;

    fn to_json(&self) -> (res: Self::JsonRepr)
        requires
            Self::json_encodable(self.deep_view()),
        ensures
            res.deep_view() == Self::spec_to_json(self.deep_view()),
    ;

    fn from_json(repr: &Self::JsonRepr) -> (res: Result<Self, DecodeError>)
        ensures
            match res {
                Ok(v) => Self::spec_from_json(repr.deep_view()) == Ok::<
                    <Self as DeepView>::V,
                    DecodeError,
                >(v.deep_view()),
                Err(e) => Self::spec_from_json(repr.deep_view()) == Err::<
                    <Self as DeepView>::V,
                    DecodeError,
                >(e),
            },
    ;

    /// Decoding the JSON form of an encodable value gives that value back.
    proof fn lemma_json_round_trip(v: <Self as DeepView>::V)
        requires
            Self::json_encodable(v),
        ensures
            Self::spec_from_json(Self::spec_to_json(v)) == Ok::<<Self as DeepView>::V, DecodeError>(
                v,
            ),
    ;
}

/// The decimal numeral of a field element's value; "0" where the
/// formatter gives nothing.
fn decimal_or_zero(t: String) -> (res: String)
    ensures
        t@.len() == 0 ==> res@ == seq!['0'],
        t@.len() != 0 ==> res@ == t@,
{
    if t.as_str().is_empty() {
        let z = String::from_str("0");
        proof {
            reveal_strlit("0");
        }
        z
    } else {
        t
    }
}

proof fn lemma_decimal_not_hex(n: nat)
    ensures
        !has_hex_prefix(decimal_numeral(n)),
{
    lemma_decimal_numeral(n);
    lemma_canonical_decimal_not_hex(decimal_numeral(n));
}

spec fn digit_at(s: Seq<char>, i: int) -> bool {
    '0' <= s[i] && s[i] <= '9'
}

impl HasJsonRepr for Fq {
    type JsonRepr = String;

    open spec fn json_encodable(v: Fq) -> bool {
        v.wf()
    }

    open spec fn spec_to_json(v: Fq) -> Seq<char> {
        decimal_numeral(v.value())
    }

    open spec fn spec_from_json(j: Seq<char>) -> Result<Fq, DecodeError> {
        fq_from_json_spec(j)
    }

    fn to_json(&self) -> (res: String) {
        decimal_or_zero(fq_to_decimal(self))
    }

    fn from_json(repr: &String) -> (res: Result<Fq, DecodeError>) {
        let s = repr.as_str();
        if str_has_hex_prefix(s) {
            let m = fq_modulus();
            match limbs_from_hex(s, &m) {
                Ok(limbs) => Ok(Fq { limbs }),
                Err(e) => Err(e),
            }
        } else {
            match fq_from_decimal(s) {
                Some(x) => Ok(x),
                None => Err(DecodeError::InvalidDecimal),
            }
        }
    }

    proof fn lemma_json_round_trip(v: Fq) {
        let n = v.value();
        lemma_decimal_numeral(n);
        lemma_decimal_not_hex(n);
        lemma_limbs_of_value(v.limbs);
        assert(n % q() == n) by (nonlinear_arith)
            requires
                n < q(),
        ;
    }
}

impl HasJsonRepr for Fr {
    type JsonRepr = String;

    open spec fn json_encodable(v: Fr) -> bool {
        v.wf()
    }

    open spec fn spec_to_json(v: Fr) -> Seq<char> {
        decimal_numeral(v.value())
    }

    open spec fn spec_from_json(j: Seq<char>) -> Result<Fr, DecodeError> {
        fr_from_json_spec(j)
    }

    fn to_json(&self) -> (res: String) {
        decimal_or_zero(fr_to_decimal(self))
    }

    fn from_json(repr: &String) -> (res: Result<Fr, DecodeError>) {
        let s = repr.as_str();
        if str_has_hex_prefix(s) {
            let m = fr_modulus();
            match limbs_from_hex(s, &m) {
                Ok(limbs) => Ok(Fr { limbs }),
                Err(e) => Err(e),
            }
        } else {
            match fr_from_decimal(s) {
                Some(x) => Ok(x),
                None => Err(DecodeError::InvalidDecimal),
            }
        }
    }

    proof fn lemma_json_round_trip(v: Fr) {
        let n = v.value();
        lemma_decimal_numeral(n);
        lemma_decimal_not_hex(n);
        lemma_limbs_of_value(v.limbs);
        assert(n % r() == n) by (nonlinear_arith)
            requires
                n < r(),
        ;
    }
}

/// A decimal numeral and a `0x` numeral of the same value below q decode to
/// the same base-field element.
pub proof fn lemma_fq_hex_decimal_agree(dec: Seq<char>, hex: Seq<char>)
    requires
        is_canonical_decimal(dec),
        has_hex_prefix(hex),
        all_hex(strip_hex_prefix(hex)),
        strip_hex_prefix(hex).len() <= 64,
        decimal_value(dec) == hex_value(strip_hex_prefix(hex)),
        decimal_value(dec) < q(),
    ensures
        fq_from_json_spec(dec) == fq_from_json_spec(hex),
        fq_from_json_spec(dec) == Ok::<Fq, DecodeError>(Fq::spec_of(decimal_value(dec))),
{
    lemma_canonical_decimal_not_hex(dec);
    let n = decimal_value(dec);
    assert(n % q() == n) by (nonlinear_arith)
        requires
            n < q(),
    ;
}

/// A decimal numeral and a `0x` numeral of the same value below r decode to
/// the same scalar.
pub proof fn lemma_fr_hex_decimal_agree(dec: Seq<char>, hex: Seq<char>)
    requires
        is_canonical_decimal(dec),
        has_hex_prefix(hex),
        all_hex(strip_hex_prefix(hex)),
        strip_hex_prefix(hex).len() <= 64,
        decimal_value(dec) == hex_value(strip_hex_prefix(hex)),
        decimal_value(dec) < r(),
    ensures
        fr_from_json_spec(dec) == fr_from_json_spec(hex),
        fr_from_json_spec(dec) == Ok::<Fr, DecodeError>(Fr::spec_of(decimal_value(dec))),
{
    lemma_canonical_decimal_not_hex(dec);
    let n = decimal_value(dec);
    assert(n % r() == n) by (nonlinear_arith)
        requires
            n < r(),
    ;
}

proof fn lemma_canonical_decimal_not_hex(s: Seq<char>)
    requires
        is_canonical_decimal(s),
    ensures
        !has_hex_prefix(s),
{
    if s.len() >= 2 {
        assert(digit_at(s, 1));
    }
}

// ---------------------------------------------------------------------
// Extension elements, points, sequences, keys and proofs
// ---------------------------------------------------------------------

pub type Fp2Json = [String; 2];

pub type G1AffineJson = [String; 2];

pub type G2AffineJson = [[String; 2]; 2];

/// The JSON object of a verifying key.
#[derive(Clone, Debug, PartialEq, Eq)]
pub struct VerifyingKeyJson {
    pub alpha: G1AffineJson,
    pub beta: G2AffineJson,
    pub gamma: G2AffineJson,
    pub delta: G2AffineJson,
    pub s: Vec<G1AffineJson>,
}

/// The JSON object of a proof.
#[derive(Clone, Debug, PartialEq, Eq)]
pub struct ProofJson {
    pub pi_a: G1AffineJson,
    pub pi_b: G2AffineJson,
    pub pi_c: G1AffineJson,
}

impl DeepView for VerifyingKeyJson {
    type V = (
        Seq<Seq<char>>,
        Seq<Seq<Seq<char>>>,
        Seq<Seq<Seq<char>>>,
        Seq<Seq<Seq<char>>>,
        Seq<Seq<Seq<char>>>,
    );

    open spec fn deep_view(&self) -> Self::V {
        (
            self.alpha.deep_view(),
            self.beta.deep_view(),
            self.gamma.deep_view(),
            self.delta.deep_view(),
            self.s.deep_view(),
        )
    }
}

impl DeepView for ProofJson {
    type V = (Seq<Seq<char>>, Seq<Seq<Seq<char>>>, Seq<Seq<char>>);

    open spec fn deep_view(&self) -> Self::V {
        (self.pi_a.deep_view(), self.pi_b.deep_view(), self.pi_c.deep_view())
    }
}

pub open spec fn fq2_to_json_spec(v: Fq2) -> Seq<Seq<char>> {
    seq![decimal_numeral(v.c0.value()), decimal_numeral(v.c1.value())]
}

pub open spec fn fq2_from_json_spec(j: Seq<Seq<char>>) -> Result<Fq2, DecodeError> {
    match fq_from_json_spec(j[0]) {
        Err(e) => Err(e),
        Ok(c0) => match fq_from_json_spec(j[1]) {
            Err(e) => Err(e),
            Ok(c1) => Ok(Fq2 { c0, c1 }),
        },
    }
}

pub open spec fn g1_to_json_spec(p: G1Affine) -> Seq<Seq<char>> {
    seq![decimal_numeral(p.x.value()), decimal_numeral(p.y.value())]
}

pub open spec fn g1_from_json_spec(j: Seq<Seq<char>>) -> Result<G1Affine, DecodeError> {
    match fq_from_json_spec(j[0]) {
        Err(e) => Err(e),
        Ok(x) => match fq_from_json_spec(j[1]) {
            Err(e) => Err(e),
            Ok(y) => Ok(G1Affine { x, y, infinity: false }),
        },
    }
}

pub open spec fn g2_to_json_spec(p: G2Affine) -> Seq<Seq<Seq<char>>> {
    seq![fq2_to_json_spec(p.x), fq2_to_json_spec(p.y)]
}

pub open spec fn g2_from_json_spec(j: Seq<Seq<Seq<char>>>) -> Result<G2Affine, DecodeError> {
    match fq2_from_json_spec(j[0]) {
        Err(e) => Err(e),
        Ok(x) => match fq2_from_json_spec(j[1]) {
            Err(e) => Err(e),
            Ok(y) => Ok(G2Affine { x, y, infinity: false }),
        },
    }
}

/// The JSON form of a scalar.
pub open spec fn fr_to_json_spec(x: Fr) -> Seq<char> {
    decimal_numeral(x.value())
}

/// Decodes each point's JSON form in order; the first failure is the result.
pub open spec fn g1s_from_json_spec(j: Seq<Seq<Seq<char>>>) -> Result<Seq<G1Affine>, DecodeError>
    decreases j.len(),
{
    if j.len() == 0 {
        Ok(Seq::empty())
    } else {
        match g1s_from_json_spec(j.drop_last()) {
            Err(e) => Err(e),
            Ok(xs) => match g1_from_json_spec(j.last()) {
                Err(e) => Err(e),
                Ok(x) => Ok(xs.push(x)),
            },
        }
    }
}

proof fn lemma_g1s_from_json_spec_prefix_err(j: Seq<Seq<Seq<char>>>, k: int, e: DecodeError)
    requires
        0 <= k <= j.len(),
        g1s_from_json_spec(j.take(k)) == Err::<Seq<G1Affine>, DecodeError>(e),
    ensures
        g1s_from_json_spec(j) == Err::<Seq<G1Affine>, DecodeError>(e),
    decreases j.len() - k,
{
    if k < j.len() {
        assert(j.take(k + 1).drop_last() =~= j.take(k));
        lemma_g1s_from_json_spec_prefix_err(j, k + 1, e);
    } else {
        assert(j.take(k) =~= j);
    }
}

proof fn lemma_g1s_from_json_spec_encoded(v: Seq<G1Affine>)
    requires
        forall|i: int| 0 <= i < v.len() ==> g1_from_json_spec(g1_to_json_spec(#[trigger] v[i])) == Ok::<G1Affine, DecodeError>(v[i]),
    ensures
        g1s_from_json_spec(v.map_values(|x: G1Affine| g1_to_json_spec(x))) == Ok::<Seq<G1Affine>, DecodeError>(v),
    decreases v.len(),
{
    let m = v.map_values(|x: G1Affine| g1_to_json_spec(x));
    if v.len() == 0 {
        assert(m =~= Seq::<Seq<Seq<char>>>::empty());
        assert(v =~= Seq::<G1Affine>::empty());
    } else {
        let w = v.drop_last();
        assert forall|i: int| 0 <= i < w.len() implies g1_from_json_spec(g1_to_json_spec(#[trigger] w[i])) == Ok::<G1Affine, DecodeError>(w[i]) by {
            assert(w[i] == v[i]);
        }
        lemma_g1s_from_json_spec_encoded(w);
        assert(m.drop_last() =~= w.map_values(|x: G1Affine| g1_to_json_spec(x)));
        assert(w.push(v.last()) =~= v);
        assert(g1_from_json_spec(g1_to_json_spec(v[v.len() - 1])) == Ok::<G1Affine, DecodeError>(v[v.len() - 1]));
        assert(m.last() == g1_to_json_spec(v.last()));
    }
}

/// Decodes each scalar's JSON form in order; the first failure is the result.
pub open spec fn frs_from_json_spec(j: Seq<Seq<char>>) -> Result<Seq<Fr>, DecodeError>
    decreases j.len(),
{
    if j.len() == 0 {
        Ok(Seq::empty())
    } else {
        match frs_from_json_spec(j.drop_last()) {
            Err(e) => Err(e),
            Ok(xs) => match fr_from_json_spec(j.last()) {
                Err(e) => Err(e),
                Ok(x) => Ok(xs.push(x)),
            },
        }
    }
}

proof fn lemma_frs_from_json_spec_prefix_err(j: Seq<Seq<char>>, k: int, e: DecodeError)
    requires
        0 <= k <= j.len(),
        frs_from_json_spec(j.take(k)) == Err::<Seq<Fr>, DecodeError>(e),
    ensures
        frs_from_json_spec(j) == Err::<Seq<Fr>, DecodeError>(e),
    decreases j.len() - k,
{
    if k < j.len() {
        assert(j.take(k + 1).drop_last() =~= j.take(k));
        lemma_frs_from_json_spec_prefix_err(j, k + 1, e);
    } else {
        assert(j.take(k) =~= j);
    }
}

proof fn lemma_frs_from_json_spec_encoded(v: Seq<Fr>)
    requires
        forall|i: int| 0 <= i < v.len() ==> fr_from_json_spec(fr_to_json_spec(#[trigger] v[i])) == Ok::<Fr, DecodeError>(v[i]),
    ensures
        frs_from_json_spec(v.map_values(|x: Fr| fr_to_json_spec(x))) == Ok::<Seq<Fr>, DecodeError>(v),
    decreases v.len(),
{
    let m = v.map_values(|x: Fr| fr_to_json_spec(x));
    if v.len() == 0 {
        assert(m =~= Seq::<Seq<char>>::empty());
        assert(v =~= Seq::<Fr>::empty());
    } else {
        let w = v.drop_last();
        assert forall|i: int| 0 <= i < w.len() implies fr_from_json_spec(fr_to_json_spec(#[trigger] w[i])) == Ok::<Fr, DecodeError>(w[i]) by {
            assert(w[i] == v[i]);
        }
        lemma_frs_from_json_spec_encoded(w);
        assert(m.drop_last() =~= w.map_values(|x: Fr| fr_to_json_spec(x)));
        assert(w.push(v.last()) =~= v);
        assert(fr_from_json_spec(fr_to_json_spec(v[v.len() - 1])) == Ok::<Fr, DecodeError>(v[v.len() - 1]));
        assert(m.last() == fr_to_json_spec(v.last()));
    }
}

impl HasJsonRepr for Fq2 {
    type JsonRepr = Fp2Json;

    open spec fn json_encodable(v: Fq2) -> bool {
        v.wf()
    }

    open spec fn spec_to_json(v: Fq2) -> Seq<Seq<char>> {
        fq2_to_json_spec(v)
    }

    open spec fn spec_from_json(j: Seq<Seq<char>>) -> Result<Fq2, DecodeError> {
        fq2_from_json_spec(j)
    }

    fn to_json(&self) -> (res: Fp2Json) {
        let res = [self.c0.to_json(), self.c1.to_json()];
        assert(res.deep_view() =~= fq2_to_json_spec(*self));
        res
    }

    fn from_json(repr: &Fp2Json) -> (res: Result<Fq2, DecodeError>) {
        assert(repr.deep_view()[0] == repr[0]@);
        assert(repr.deep_view()[1] == repr[1]@);
        let c0 = match Fq::from_json(&repr[0]) {
            Ok(x) => x,
            Err(e) => return Err(e),
        };
        let c1 = match Fq::from_json(&repr[1]) {
            Ok(x) => x,
            Err(e) => return Err(e),
        };
        Ok(Fq2 { c0, c1 })
    }

    proof fn lemma_json_round_trip(v: Fq2) {
        Fq::lemma_json_round_trip(v.c0);
        Fq::lemma_json_round_trip(v.c1);
    }
}

impl HasJsonRepr for G1Affine {
    type JsonRepr = G1AffineJson;

    open spec fn json_encodable(v: G1Affine) -> bool {
        v.is_finite()
    }

    open spec fn spec_to_json(v: G1Affine) -> Seq<Seq<char>> {
        g1_to_json_spec(v)
    }

    open spec fn spec_from_json(j: Seq<Seq<char>>) -> Result<G1Affine, DecodeError> {
        g1_from_json_spec(j)
    }

    fn to_json(&self) -> (res: G1AffineJson) {
        let res = [self.x.to_json(), self.y.to_json()];
        assert(res.deep_view() =~= g1_to_json_spec(*self));
        res
    }

    fn from_json(repr: &G1AffineJson) -> (res: Result<G1Affine, DecodeError>) {
        assert(repr.deep_view()[0] == repr[0]@);
        assert(repr.deep_view()[1] == repr[1]@);
        let x = match Fq::from_json(&repr[0]) {
            Ok(x) => x,
            Err(e) => return Err(e),
        };
        let y = match Fq::from_json(&repr[1]) {
            Ok(y) => y,
            Err(e) => return Err(e),
        };
        Ok(G1Affine { x, y, infinity: false })
    }

    proof fn lemma_json_round_trip(v: G1Affine) {
        Fq::lemma_json_round_trip(v.x);
        Fq::lemma_json_round_trip(v.y);
    }
}

impl HasJsonRepr for G2Affine {
    type JsonRepr = G2AffineJson;

    open spec fn json_encodable(v: G2Affine) -> bool {
        v.is_finite()
    }

    open spec fn spec_to_json(v: G2Affine) -> Seq<Seq<Seq<char>>> {
        g2_to_json_spec(v)
    }

    open spec fn spec_from_json(j: Seq<Seq<Seq<char>>>) -> Result<G2Affine, DecodeError> {
        g2_from_json_spec(j)
    }

    fn to_json(&self) -> (res: G2AffineJson) {
        let res = [self.x.to_json(), self.y.to_json()];
        assert(res.deep_view() =~= g2_to_json_spec(*self));
        res
    }

    fn from_json(repr: &G2AffineJson) -> (res: Result<G2Affine, DecodeError>) {
        assert(repr.deep_view()[0] == repr[0].deep_view());
        assert(repr.deep_view()[1] == repr[1].deep_view());
        let x = match Fq2::from_json(&repr[0]) {
            Ok(x) => x,
            Err(e) => return Err(e),
        };
        let y = match Fq2::from_json(&repr[1]) {
            Ok(y) => y,
            Err(e) => return Err(e),
        };
        Ok(G2Affine { x, y, infinity: false })
    }

    proof fn lemma_json_round_trip(v: G2Affine) {
        Fq2::lemma_json_round_trip(v.x);
        Fq2::lemma_json_round_trip(v.y);
    }
}

impl HasJsonRepr for Vec<G1Affine> {
    type JsonRepr = Vec<G1AffineJson>;

    open spec fn json_encodable(v: Seq<G1Affine>) -> bool {
        forall|i: int| 0 <= i < v.len() ==> (#[trigger] v[i]).is_finite()
    }

    open spec fn spec_to_json(v: Seq<G1Affine>) -> Seq<Seq<Seq<char>>> {
        v.map_values(|x: G1Affine| g1_to_json_spec(x))
    }

    open spec fn spec_from_json(j: Seq<Seq<Seq<char>>>) -> Result<Seq<G1Affine>, DecodeError> {
        g1s_from_json_spec(j)
    }

    fn to_json(&self) -> (res: Vec<G1AffineJson>) {
        let ghost v = self.deep_view();
        assert(v =~= self@);
        let mut out: Vec<G1AffineJson> = Vec::new();
        let mut i: usize = 0;
        while i < self.len()
            invariant
                i <= self@.len(),
                v == self@,
                Self::json_encodable(v),
                out@.len() == i,
                forall|k: int| 0 <= k < i ==> (#[trigger] out@[k]).deep_view() == g1_to_json_spec(
                    v[k],
                ),
            decreases self@.len() - i,
        {
            assert(v[i as int].is_finite());
            out.push(self[i].to_json());
            i = i + 1;
        }
        assert(out.deep_view() =~= Self::spec_to_json(v));
        out
    }

    fn from_json(repr: &Vec<G1AffineJson>) -> (res: Result<Vec<G1Affine>, DecodeError>) {
        let ghost j = repr.deep_view();
        let mut out: Vec<G1Affine> = Vec::new();
        let mut i: usize = 0;
        assert(j.take(0) =~= Seq::<Seq<Seq<char>>>::empty());
        while i < repr.len()
            invariant
                i <= repr@.len(),
                j == repr.deep_view(),
                j.len() == repr@.len(),
                g1s_from_json_spec(j.take(i as int)) == Ok::<Seq<G1Affine>, DecodeError>(out@),
            decreases repr@.len() - i,
        {
            assert(j.take(i + 1).drop_last() =~= j.take(i as int));
            assert(j.take(i + 1).last() == repr@[i as int].deep_view());
            match G1Affine::from_json(&repr[i]) {
                Ok(p) => {
                    let ghost prev = out@;
                    assert(g1_from_json_spec(j.take(i + 1).last()) == Ok::<G1Affine, DecodeError>(p));
                    out.push(p);
                    assert(out@ =~= prev.push(p));
                },
                Err(e) => {
                    proof {
                        assert(g1s_from_json_spec(j.take(i + 1)) == Err::<Seq<G1Affine>, DecodeError>(e));
                        lemma_g1s_from_json_spec_prefix_err(j, i + 1, e);
                    }
                    return Err(e);
                },
            }
            i = i + 1;
        }
        assert(j.take(i as int) =~= j);
        assert(out.deep_view() =~= out@);
        Ok(out)
    }

    proof fn lemma_json_round_trip(v: Seq<G1Affine>) {
        assert forall|i: int| 0 <= i < v.len() implies g1_from_json_spec(
            g1_to_json_spec(#[trigger] v[i]),
        ) == Ok::<G1Affine, DecodeError>(v[i]) by {
            G1Affine::lemma_json_round_trip(v[i]);
        }
        lemma_g1s_from_json_spec_encoded(v);
    }
}

impl HasJsonRepr for Vec<Fr> {
    type JsonRepr = Vec<String>;

    open spec fn json_encodable(v: Seq<Fr>) -> bool {
        forall|i: int| 0 <= i < v.len() ==> (#[trigger] v[i]).wf()
    }

    open spec fn spec_to_json(v: Seq<Fr>) -> Seq<Seq<char>> {
        v.map_values(|x: Fr| fr_to_json_spec(x))
    }

    open spec fn spec_from_json(j: Seq<Seq<char>>) -> Result<Seq<Fr>, DecodeError> {
        frs_from_json_spec(j)
    }

    fn to_json(&self) -> (res: Vec<String>) {
        let ghost v = self.deep_view();
        assert(v =~= self@);
        let mut out: Vec<String> = Vec::new();
        let mut i: usize = 0;
        while i < self.len()
            invariant
                i <= self@.len(),
                v == self@,
                Self::json_encodable(v),
                out@.len() == i,
                forall|k: int| 0 <= k < i ==> (#[trigger] out@[k])@ == decimal_numeral(
                    v[k].value(),
                ),
            decreases self@.len() - i,
        {
            assert(v[i as int].wf());
            out.push(self[i].to_json());
            i = i + 1;
        }
        assert(out.deep_view() =~= Self::spec_to_json(v));
        out
    }

    fn from_json(repr: &Vec<String>) -> (res: Result<Vec<Fr>, DecodeError>) {
        let ghost j = repr.deep_view();
        let mut out: Vec<Fr> = Vec::new();
        let mut i: usize = 0;
        assert(j.take(0) =~= Seq::<Seq<char>>::empty());
        while i < repr.len()
            invariant
                i <= repr@.len(),
                j == repr.deep_view(),
                j.len() == repr@.len(),
                frs_from_json_spec(j.take(i as int)) == Ok::<Seq<Fr>, DecodeError>(out@),
            decreases repr@.len() - i,
        {
            assert(j.take(i + 1).drop_last() =~= j.take(i as int));
            assert(j.take(i + 1).last() == repr@[i as int]@);
            match Fr::from_json(&repr[i]) {
                Ok(x) => {
                    let ghost prev = out@;
                    assert(fr_from_json_spec(j.take(i + 1).last()) == Ok::<Fr, DecodeError>(x));
                    out.push(x);
                    assert(out@ =~= prev.push(x));
                },
                Err(e) => {
                    proof {
                        assert(frs_from_json_spec(j.take(i + 1)) == Err::<Seq<Fr>, DecodeError>(e));
                        lemma_frs_from_json_spec_prefix_err(j, i + 1, e);
                    }
                    return Err(e);
                },
            }
            i = i + 1;
        }
        assert(j.take(i as int) =~= j);
        assert(out.deep_view() =~= out@);
        Ok(out)
    }

    proof fn lemma_json_round_trip(v: Seq<Fr>) {
        assert forall|i: int| 0 <= i < v.len() implies fr_from_json_spec(
            fr_to_json_spec(#[trigger] v[i]),
        ) == Ok::<Fr, DecodeError>(v[i]) by {
            Fr::lemma_json_round_trip(v[i]);
        }
        lemma_frs_from_json_spec_encoded(v);
    }
}

impl HasJsonRepr for VerifyingKey {
    type JsonRepr = VerifyingKeyJson;

    open spec fn json_encodable(v: VerifyingKeyModel) -> bool {
        &&& v.alpha.is_finite()
        &&& v.beta.is_finite()
        &&& v.gamma.is_finite()
        &&& v.delta.is_finite()
        &&& forall|i: int| 0 <= i < v.s.len() ==> (#[trigger] v.s[i]).is_finite()
    }

    open spec fn spec_to_json(v: VerifyingKeyModel) -> <VerifyingKeyJson as DeepView>::V {
        (
            g1_to_json_spec(v.alpha),
            g2_to_json_spec(v.beta),
            g2_to_json_spec(v.gamma),
            g2_to_json_spec(v.delta),
            v.s.map_values(|x: G1Affine| g1_to_json_spec(x)),
        )
    }

    open spec fn spec_from_json(j: <VerifyingKeyJson as DeepView>::V) -> Result<
        VerifyingKeyModel,
        DecodeError,
    > {
        match g1_from_json_spec(j.0) {
            Err(e) => Err(e),
            Ok(alpha) => match g2_from_json_spec(j.1) {
                Err(e) => Err(e),
                Ok(beta) => match g2_from_json_spec(j.2) {
                    Err(e) => Err(e),
                    Ok(gamma) => match g2_from_json_spec(j.3) {
                        Err(e) => Err(e),
                        Ok(delta) => match g1s_from_json_spec(j.4) {
                            Err(e) => Err(e),
                            Ok(s) => Ok(VerifyingKeyModel { alpha, beta, gamma, delta, s }),
                        },
                    },
                },
            },
        }
    }

    fn to_json(&self) -> (res: VerifyingKeyJson) {
        assert(self.s.deep_view() =~= self.s@);
        assert(self@.s == self.s@);
        assert(<Vec<G1Affine> as HasJsonRepr>::json_encodable(self.s.deep_view()));
        VerifyingKeyJson {
            alpha: self.alpha.to_json(),
            beta: self.beta.to_json(),
            gamma: self.gamma.to_json(),
            delta: self.delta.to_json(),
            s: self.s.to_json(),
        }
    }

    fn from_json(json: &VerifyingKeyJson) -> (res: Result<VerifyingKey, DecodeError>) {
        let alpha = match G1Affine::from_json(&json.alpha) {
            Ok(x) => x,
            Err(e) => return Err(e),
        };
        let beta = match G2Affine::from_json(&json.beta) {
            Ok(x) => x,
            Err(e) => return Err(e),
        };
        let gamma = match G2Affine::from_json(&json.gamma) {
            Ok(x) => x,
            Err(e) => return Err(e),
        };
        let delta = match G2Affine::from_json(&json.delta) {
            Ok(x) => x,
            Err(e) => return Err(e),
        };
        let s = match Vec::<G1Affine>::from_json(&json.s) {
            Ok(x) => x,
            Err(e) => return Err(e),
        };
        assert(s.deep_view() =~= s@);
        Ok(VerifyingKey { alpha, beta, gamma, delta, s })
    }

    proof fn lemma_json_round_trip(v: VerifyingKeyModel) {
        G1Affine::lemma_json_round_trip(v.alpha);
        G2Affine::lemma_json_round_trip(v.beta);
        G2Affine::lemma_json_round_trip(v.gamma);
        G2Affine::lemma_json_round_trip(v.delta);
        Vec::<G1Affine>::lemma_json_round_trip(v.s);
    }
}

impl HasJsonRepr for Proof {
    type JsonRepr = ProofJson;

    open spec fn json_encodable(v: Proof) -> bool {
        v.pi_a.is_finite() && v.pi_b.is_finite() && v.pi_c.is_finite()
    }

    open spec fn spec_to_json(v: Proof) -> <ProofJson as DeepView>::V {
        (g1_to_json_spec(v.pi_a), g2_to_json_spec(v.pi_b), g1_to_json_spec(v.pi_c))
    }

    open spec fn spec_from_json(j: <ProofJson as DeepView>::V) -> Result<Proof, DecodeError> {
        match g1_from_json_spec(j.0) {
            Err(e) => Err(e),
            Ok(pi_a) => match g2_from_json_spec(j.1) {
                Err(e) => Err(e),
                Ok(pi_b) => match g1_from_json_spec(j.2) {
                    Err(e) => Err(e),
                    Ok(pi_c) => Ok(Proof { pi_a, pi_b, pi_c }),
                },
            },
        }
    }

    fn to_json(&self) -> (res: ProofJson) {
        ProofJson {
            pi_a: self.pi_a.to_json(),
            pi_b: self.pi_b.to_json(),
            pi_c: self.pi_c.to_json(),
        }
    }

    fn from_json(json: &ProofJson) -> (res: Result<Proof, DecodeError>) {
        let pi_a = match G1Affine::from_json(&json.pi_a) {
            Ok(x) => x,
            Err(e) => return Err(e),
        };
        let pi_b = match G2Affine::from_json(&json.pi_b) {
            Ok(x) => x,
            Err(e) => return Err(e),
        };
        let pi_c = match G1Affine::from_json(&json.pi_c) {
            Ok(x) => x,
            Err(e) => return Err(e),
        };
        Ok(Proof { pi_a, pi_b, pi_c })
    }

    proof fn lemma_json_round_trip(v: Proof) {
        G1Affine::lemma_json_round_trip(v.pi_a);
        G2Affine::lemma_json_round_trip(v.pi_b);
        G1Affine::lemma_json_round_trip(v.pi_c);
    }
}

} // verus!
