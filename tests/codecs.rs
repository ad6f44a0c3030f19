use groth16::has_json_repr::{
    le_bytes32_from_hex, u64_from_le_bytes, u64_from_le_bytes_slice, DecodeError, HasJsonRepr,
    ProofJson, VerifyingKeyJson,
};
use groth16::has_primitive_repr::HasPrimitiveRepr;
use groth16::{Fq, Fq2, Fr, G1Affine, G1Projective, G2Affine, Inputs, Proof, VerifyingKey};

const Q_DECIMAL: &str =
    "21888242871839275222246405745257275088696311157297823662689037894645226208583";
const Q_HEX: &str = "0x30644e72e131a029b85045b68181585d97816a916871ca8d3c208c16d87cfd47";
const R_HEX: &str = "0x30644e72e131a029b85045b68181585d2833e84879b9709143e1f593f0000001";

fn q_limbs() -> [u64; 4] {
    [0x3c208c16d87cfd47, 0x97816a916871ca8d, 0xb85045b68181585d, 0x30644e72e131a029]
}

fn small(v: u64) -> Fq {
    Fq { limbs: [v, 0, 0, 0] }
}

fn point(x: u64, y: u64) -> G1Affine {
    G1Affine { x: small(x), y: small(y), infinity: false }
}

fn point2(a: u64) -> G2Affine {
    G2Affine {
        x: Fq2 { c0: small(a), c1: small(a + 1) },
        y: Fq2 { c0: small(a + 2), c1: Fq { limbs: [1, 2, 3, 4] } },
        infinity: false,
    }
}

fn sample_vk() -> VerifyingKey {
    VerifyingKey {
        alpha: point(1, 2),
        beta: point2(3),
        gamma: point2(10),
        delta: point2(20),
        s: vec![point(5, 6), point(0, 7), G1Affine { x: Fq { limbs: [9, 9, 9, 9] }, y: small(1), infinity: false }],
    }
}

fn sample_proof() -> Proof {
    Proof { pi_a: point(11, 12), pi_b: point2(30), pi_c: point(13, 14) }
}

#[test]
fn u64_from_le_bytes_reads_little_endian() {
    assert_eq!(u64_from_le_bytes(&[1, 2, 3, 4, 5, 6, 7, 8]), 0x0807060504030201);
    assert_eq!(u64_from_le_bytes(&[0xff; 8]), u64::MAX);
}

#[test]
fn u64_from_le_bytes_slice_needs_eight_bytes() {
    assert_eq!(u64_from_le_bytes_slice(&[1, 0, 0, 0, 0, 0, 0, 0]), Ok(1));
    assert_eq!(u64_from_le_bytes_slice(&[1, 2, 3]), Err(DecodeError::SliceLength));
    assert_eq!(u64_from_le_bytes_slice(&[0; 9]), Err(DecodeError::SliceLength));
}

#[test]
fn hex_bytes_come_out_little_endian() {
    let b = le_bytes32_from_hex("0x0102").unwrap();
    let mut expected = [0u8; 32];
    expected[0] = 2;
    expected[1] = 1;
    assert_eq!(b, expected);
    // Without the prefix the digits are read the same way.
    assert_eq!(le_bytes32_from_hex("0102").unwrap(), expected);
}

#[test]
fn odd_hex_is_padded_with_a_leading_zero() {
    let b = le_bytes32_from_hex("0xabc").unwrap();
    assert_eq!(&b[..3], &[0xbc, 0x0a, 0]);
}

#[test]
fn hex_of_thirty_two_bytes_is_accepted() {
    let s = format!("0x{}", "ab".repeat(32));
    assert_eq!(le_bytes32_from_hex(&s).unwrap(), [0xab; 32]);
}

#[test]
fn hex_longer_than_thirty_two_bytes_is_rejected() {
    let s = format!("0x{}", "01".repeat(33));
    assert_eq!(le_bytes32_from_hex(&s), Err(DecodeError::HexTooLong));
    let odd = format!("0x1{}", "00".repeat(32));
    assert_eq!(le_bytes32_from_hex(&odd), Err(DecodeError::HexTooLong));
    assert_eq!(Fq::from_json(&s), Err(DecodeError::HexTooLong));
}

#[test]
fn bad_hex_digits_are_rejected() {
    assert_eq!(le_bytes32_from_hex("0xzz"), Err(DecodeError::InvalidHex));
    assert_eq!(le_bytes32_from_hex("0x1é"), Err(DecodeError::InvalidHex));
    assert_eq!(Fq::from_json(&"0x12g4".to_string()), Err(DecodeError::InvalidHex));
}

#[test]
fn field_element_limbs_are_checked_against_the_modulus() {
    assert_eq!(Fq::from_bigint(q_limbs()), None);
    let mut below = q_limbs();
    below[0] -= 1;
    assert_eq!(Fq::from_bigint(below), Some(Fq { limbs: below }));
    assert!(Fq { limbs: below }.is_valid());
    assert!(!Fq { limbs: q_limbs() }.is_valid());
    assert_eq!(Fr::from_bigint(q_limbs()), None);
}

#[test]
fn field_element_encodes_as_decimal() {
    assert_eq!(small(4660).to_json(), "4660");
    assert_eq!(Fr { limbs: [0, 1, 0, 0] }.to_json(), "18446744073709551616");
}

#[test]
fn zero_encodes_as_a_zero_digit() {
    assert_eq!(small(0).to_json(), "0");
    assert_eq!(Fq::from_json(&"0".to_string()), Ok(small(0)));
    assert_eq!(Fr { limbs: [0; 4] }.to_json(), "0");
}

#[test]
fn decimal_and_hex_forms_decode_alike() {
    assert_eq!(Fq::from_json(&"4660".to_string()), Ok(small(4660)));
    assert_eq!(Fq::from_json(&"0x1234".to_string()), Ok(small(4660)));
    assert_eq!(Fq::from_json(&"0xABC".to_string()), Fq::from_json(&"2748".to_string()));
    assert_eq!(Fr::from_json(&"0x1234".to_string()), Fr::from_json(&"4660".to_string()));
    let mut below = q_limbs();
    below[0] -= 1;
    let q_minus_1 = "21888242871839275222246405745257275088696311157297823662689037894645226208582";
    let hex = "0x30644e72e131a029b85045b68181585d97816a916871ca8d3c208c16d87cfd46";
    assert_eq!(Fq::from_json(&q_minus_1.to_string()), Ok(Fq { limbs: below }));
    assert_eq!(Fq::from_json(&hex.to_string()), Ok(Fq { limbs: below }));
}

#[test]
fn hex_at_or_above_the_modulus_is_not_canonical() {
    assert_eq!(Fq::from_json(&Q_HEX.to_string()), Err(DecodeError::NotCanonical));
    assert_eq!(Fr::from_json(&R_HEX.to_string()), Err(DecodeError::NotCanonical));
    // Below q but not below r.
    assert!(Fq::from_json(&R_HEX.to_string()).is_ok());
}

#[test]
fn decimal_at_or_above_the_modulus_is_reduced() {
    assert_eq!(Fq::from_json(&Q_DECIMAL.to_string()), Ok(small(0)));
    let q_plus_1 = "21888242871839275222246405745257275088696311157297823662689037894645226208584";
    assert_eq!(Fq::from_json(&q_plus_1.to_string()), Ok(small(1)));
}

#[test]
fn malformed_decimals_are_rejected() {
    for s in ["", "012", "00", "12a", "-1", "+1", " 1", "1_000"] {
        assert_eq!(Fq::from_json(&s.to_string()), Err(DecodeError::InvalidDecimal), "{s}");
    }
    assert_eq!(Fr::from_json(&"x1".to_string()), Err(DecodeError::InvalidDecimal));
}

#[test]
fn points_encode_as_arrays() {
    assert_eq!(point(1, 2).to_json(), ["1".to_string(), "2".to_string()]);
    let j = point2(3).to_json();
    assert_eq!(j[0], ["3".to_string(), "4".to_string()]);
    assert_eq!(j[1][0], "5");
}

#[test]
fn decoded_points_are_finite() {
    let p = G1Affine::from_json(&["1".to_string(), "0x2".to_string()]).unwrap();
    assert_eq!(p, point(1, 2));
    assert!(!p.infinity);
}

#[test]
fn point_with_bad_coordinate_is_rejected() {
    let r = G1Affine::from_json(&["1".to_string(), "01".to_string()]);
    assert_eq!(r, Err(DecodeError::InvalidDecimal));
    let r = G2Affine::from_json(&[["1".to_string(), "2".to_string()], ["3".to_string(), Q_HEX.to_string()]]);
    assert_eq!(r, Err(DecodeError::NotCanonical));
}

#[test]
fn verifying_key_json_round_trip() {
    let vk = sample_vk();
    let j: VerifyingKeyJson = vk.to_json();
    assert_eq!(j.s.len(), 3);
    assert_eq!(j.s[1][0], "0");
    assert_eq!(VerifyingKey::from_json(&j), Ok(vk));
}

#[test]
fn proof_json_round_trip() {
    let proof = sample_proof();
    let j: ProofJson = proof.to_json();
    assert_eq!(j.pi_a, ["11".to_string(), "12".to_string()]);
    assert_eq!(Proof::from_json(&j), Ok(proof));
}

#[test]
fn inputs_json_round_trip() {
    let inputs: Inputs = vec![Fr { limbs: [0; 4] }, Fr { limbs: [7, 0, 0, 0] }, Fr { limbs: [1, 2, 3, 4] }];
    let j = inputs.to_json();
    assert_eq!(j[0], "0");
    assert_eq!(j[1], "7");
    assert_eq!(Inputs::from_json(&j), Ok(inputs));
}

#[test]
fn sequence_decoding_stops_at_the_first_bad_item() {
    let j = vec!["1".to_string(), "0xzz".to_string(), "01".to_string()];
    assert_eq!(Inputs::from_json(&j), Err(DecodeError::InvalidHex));
    let empty: Vec<String> = vec![];
    assert_eq!(Inputs::from_json(&empty), Ok(vec![]));
}

#[test]
fn field_element_repr_is_its_limbs() {
    let x = Fq { limbs: [1, 2, 3, 4] };
    assert_eq!(x.to_repr(), [1, 2, 3, 4]);
    assert_eq!(Fq::from_repr(&[1, 2, 3, 4]), x);
    assert_eq!(point2(3).to_repr()[0], [[3, 0, 0, 0], [4, 0, 0, 0]]);
    assert_eq!(7u32.to_repr(), 7);
    assert_eq!(u8::from_repr(&9), 9);
}

#[test]
fn projective_repr_round_trip() {
    let p = G1Projective { x: small(1), y: small(2), z: small(3) };
    let r = p.to_repr();
    assert_eq!(r, [[1, 0, 0, 0], [2, 0, 0, 0], [3, 0, 0, 0]]);
    assert_eq!(G1Projective::from_repr(&r), p);
}

#[test]
fn verifying_key_repr_round_trip() {
    let vk = sample_vk();
    let r = vk.to_repr();
    assert_eq!(r.0, [[1, 0, 0, 0], [2, 0, 0, 0]]);
    assert_eq!(r.4.len(), 3);
    assert_eq!(VerifyingKey::from_repr(&r), vk);
}

#[test]
fn proof_repr_round_trip() {
    let proof = sample_proof();
    assert_eq!(Proof::from_repr(&proof.to_repr()), proof);
}

#[test]
fn inputs_repr_round_trip() {
    let inputs: Inputs = vec![Fr { limbs: [5, 0, 0, 1] }, Fr { limbs: [0; 4] }];
    let r = inputs.to_repr();
    assert_eq!(r, vec![[5, 0, 0, 1], [0; 4]]);
    assert_eq!(Inputs::from_repr(&r), inputs);
}
