use bw6_pairing::bw6::{BW6Parameters, G1Affine, G1Prepared, G2Affine, G2Prepared, TwistType};
use bw6_pairing::codec::SerializationError;
use bw6_pairing::field::PrimeField;

fn toy_curve() -> BW6Parameters {
    BW6Parameters {
        field: PrimeField { modulus: 103 },
        coeff_b: 3,
        twist_type: TwistType::M,
        ate_loop_count_1: vec![true, false, true],
        ate_loop_count_2: vec![1, 0, -1, 1],
        g1_generator: G1Affine { x: 1, y: 2, infinity: false },
        g2_generator: G2Affine { x: 1, y: 2, infinity: false },
    }
}

fn encode(g: &G2Prepared) -> Vec<u8> {
    let mut out = Vec::new();
    g.write_le(&mut out);
    out
}

#[test]
fn infinity_encodes_to_nine_bytes_and_back() {
    let params = toy_curve();
    let g = G2Prepared::from(G2Affine { x: 0, y: 1, infinity: true }, &params);
    let bytes = encode(&g);
    assert_eq!(bytes, vec![0, 0, 0, 0, 0, 0, 0, 0, 1]);
    let (back, used) = G2Prepared::read_le(&bytes, &params.field).unwrap();
    assert_eq!(back, g);
    assert_eq!(used, 9);
}

#[test]
fn prepared_point_round_trips() {
    let params = toy_curve();
    let g = G2Prepared::from(G2Affine { x: 1, y: 2, infinity: false }, &params);
    let mut bytes = encode(&g);
    assert_eq!(bytes.len(), 4 + 24 * 3 + 4 + 24 * 5 + 1);
    bytes.extend_from_slice(&[7, 7, 7]);
    let (back, used) = G2Prepared::read_le(&bytes, &params.field).unwrap();
    assert_eq!(back, g);
    assert_eq!(used, bytes.len() - 3);
}

#[test]
fn layout_is_little_endian() {
    let g = G2Prepared {
        ell_coeffs_1: vec![(0x0102030405060708, 1, 2)],
        ell_coeffs_2: vec![],
        infinity: false,
    };
    let bytes = encode(&g);
    let mut expected = vec![1, 0, 0, 0, 8, 7, 6, 5, 4, 3, 2, 1];
    expected.extend_from_slice(&[1, 0, 0, 0, 0, 0, 0, 0]);
    expected.extend_from_slice(&[2, 0, 0, 0, 0, 0, 0, 0]);
    expected.extend_from_slice(&[0, 0, 0, 0]);
    expected.push(0);
    assert_eq!(bytes, expected);
    let field = PrimeField { modulus: u64::MAX };
    let (back, used) = G2Prepared::read_le(&bytes, &field).unwrap();
    assert_eq!(back, g);
    assert_eq!(used, bytes.len());
}

#[test]
fn short_input_is_unexpected_end() {
    let params = toy_curve();
    let g = G2Prepared::from(G2Affine { x: 1, y: 2, infinity: false }, &params);
    let bytes = encode(&g);
    for cut in [0, 3, 4, 20, bytes.len() - 1] {
        assert_eq!(
            G2Prepared::read_le(&bytes[..cut], &params.field).unwrap_err(),
            SerializationError::UnexpectedEnd
        );
    }
    // a length prefix that promises more triples than there are bytes
    let lying = vec![0xff, 0xff, 0xff, 0xff, 1, 0, 0, 0];
    assert_eq!(G2Prepared::read_le(&lying, &params.field).unwrap_err(), SerializationError::UnexpectedEnd);
}

#[test]
fn element_above_modulus_is_rejected() {
    let params = toy_curve();
    let mut bytes = vec![1, 0, 0, 0];
    bytes.extend_from_slice(&[103, 0, 0, 0, 0, 0, 0, 0]);
    bytes.extend_from_slice(&[1, 0, 0, 0, 0, 0, 0, 0]);
    bytes.extend_from_slice(&[2, 0, 0, 0, 0, 0, 0, 0]);
    bytes.extend_from_slice(&[0, 0, 0, 0, 0]);
    assert_eq!(
        G2Prepared::read_le(&bytes, &params.field).unwrap_err(),
        SerializationError::NonCanonicalElement
    );
    bytes[4] = 102;
    assert!(G2Prepared::read_le(&bytes, &params.field).is_ok());
}

#[test]
fn flag_byte_must_be_zero_or_one() {
    let params = toy_curve();
    let bytes = vec![0, 0, 0, 0, 0, 0, 0, 0, 2];
    assert_eq!(G2Prepared::read_le(&bytes, &params.field).unwrap_err(), SerializationError::InvalidBool);
    let (g, _) = G2Prepared::read_le(&[0, 0, 0, 0, 0, 0, 0, 0, 1], &params.field).unwrap();
    assert!(g.infinity);
}

#[test]
fn g1_round_trip_and_errors() {
    let params = toy_curve();
    let p = G1Prepared::from(G1Affine { x: 1, y: 2, infinity: false });
    let mut bytes = Vec::new();
    p.write_le(&mut bytes);
    assert_eq!(bytes, vec![1, 0, 0, 0, 0, 0, 0, 0, 2, 0, 0, 0, 0, 0, 0, 0, 0]);
    let (back, used) = G1Prepared::read_le(&bytes, &params.field).unwrap();
    assert_eq!(back, p);
    assert_eq!(used, 17);
    assert_eq!(G1Prepared::read_le(&bytes[..16], &params.field).unwrap_err(), SerializationError::UnexpectedEnd);
    let mut bad = bytes.clone();
    bad[8] = 200;
    assert_eq!(G1Prepared::read_le(&bad, &params.field).unwrap_err(), SerializationError::NonCanonicalElement);
    let mut bad_flag = bytes.clone();
    bad_flag[16] = 9;
    assert_eq!(G1Prepared::read_le(&bad_flag, &params.field).unwrap_err(), SerializationError::InvalidBool);
}
