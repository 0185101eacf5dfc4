use kzg_srs::field::BaseField;
use kzg_srs::point::{G1Point, G2Point, QuadField};
use kzg_srs::srs::{decode_g1_points, encode_g1_points, encode_g2_points, KZGCommitmentScheme};

const P: [u64; 4] = [
    0x3c208c16d87cfd47,
    0x97816a916871ca8d,
    0xb85045b68181585d,
    0x30644e72e131a029,
];

fn fe(v: u64) -> BaseField {
    BaseField { limbs: [v, 0, 0, 0] }
}

fn p_minus(v: u64) -> BaseField {
    let mut l = P;
    l[0] -= v;
    BaseField { limbs: l }
}

fn le_bytes(f: &BaseField) -> Vec<u8> {
    f.limbs.iter().flat_map(|l| l.to_le_bytes()).collect()
}

fn g1(x: BaseField, y: BaseField) -> G1Point {
    G1Point { x, y, infinity: false }
}

fn g1_identity() -> G1Point {
    G1Point { x: fe(0), y: fe(0), infinity: true }
}

fn g2_generator() -> G2Point {
    G2Point {
        x: QuadField {
            c0: BaseField { limbs: [0x46debd5cd992f6ed, 0x674322d4f75edadd, 0x426a00665e5c4479, 0x1800deef121f1e76] },
            c1: BaseField { limbs: [0x97e485b7aef312c2, 0xf1aa493335a9e712, 0x7260bfb731fb5d25, 0x198e9393920d483a] },
        },
        y: QuadField {
            c0: BaseField { limbs: [0x4ce6cc0166fa7daa, 0xe3d1e7690c43d37b, 0x4aab71808dcb408f, 0x12c85ea5db8c6deb] },
            c1: BaseField { limbs: [0x55acdadcd122975b, 0xbc4b313370b38ef3, 0xec9e99ad690c3395, 0x090689d0585ff075] },
        },
        infinity: false,
    }
}

#[test]
fn g1_generator_encoding_is_little_endian_coordinates() {
    let bytes = encode_g1_points(&[g1(fe(1), fe(2))]);
    let mut expected = vec![0u8; 64];
    expected[0] = 1;
    expected[32] = 2;
    assert_eq!(bytes, expected);
}

#[test]
fn g1_negative_y_sets_top_bit() {
    let y = p_minus(2);
    let bytes = encode_g1_points(&[g1(fe(1), y)]);
    let mut expected = le_bytes(&fe(1));
    let mut yb = le_bytes(&y);
    yb[31] |= 0x80;
    expected.extend(yb);
    assert_eq!(bytes, expected);
}

#[test]
fn g1_infinity_sets_second_bit() {
    let bytes = encode_g1_points(&[g1_identity()]);
    let mut expected = vec![0u8; 64];
    expected[63] = 0x40;
    assert_eq!(bytes, expected);
}

#[test]
fn g1_decoding_rejects_both_flags_and_large_values() {
    let mut both = vec![0u8; 64];
    both[63] = 0xc0;
    assert!(decode_g1_points(&both, 1).is_none());
    let mut big = le_bytes(&BaseField { limbs: P });
    big.extend(vec![0u8; 32]);
    assert!(decode_g1_points(&big, 1).is_none());
    assert!(decode_g1_points(&[0u8; 63], 1).is_none());
}

#[test]
fn g1_decoding_ignores_coordinates_under_infinity_flag() {
    let mut bytes = vec![0u8; 64];
    bytes[0] = 7;
    bytes[40] = 9;
    bytes[63] = 0x40;
    let points = decode_g1_points(&bytes, 1).unwrap();
    assert_eq!(points, vec![g1_identity()]);
}

#[test]
fn g1_decoding_clears_sign_bit() {
    let mut bytes = vec![0u8; 64];
    bytes[0] = 1;
    bytes[32] = 2;
    bytes[63] = 0x80;
    let points = decode_g1_points(&bytes, 1).unwrap();
    assert_eq!(points, vec![g1(fe(1), fe(2))]);
}

#[test]
fn g2_generator_encoding_is_coefficients_in_order() {
    let g = g2_generator();
    let bytes = encode_g2_points(&[g]);
    let mut expected = le_bytes(&g.x.c0);
    expected.extend(le_bytes(&g.x.c1));
    expected.extend(le_bytes(&g.y.c0));
    expected.extend(le_bytes(&g.y.c1));
    assert_eq!(bytes, expected);
}

#[test]
fn unchecked_bytes_roundtrip() {
    let scheme = KZGCommitmentScheme {
        public_parameter_group_1: vec![g1(fe(1), fe(2)), g1(fe(1), p_minus(2)), g1_identity()],
        public_parameter_group_2: vec![g2_generator()],
    };
    let bytes = scheme.to_unchecked_bytes();
    assert_eq!(bytes.len(), 8 + 3 * 64 + 128);
    assert_eq!(&bytes[0..8], &[3, 0, 0, 0, 1, 0, 0, 0]);
    let back = KZGCommitmentScheme::from_unchecked_bytes(&bytes);
    assert_eq!(back.public_parameter_group_1, scheme.public_parameter_group_1);
    assert_eq!(back.public_parameter_group_2, scheme.public_parameter_group_2);
}

#[test]
fn unchecked_bytes_ignores_trailing_bytes() {
    let scheme = KZGCommitmentScheme {
        public_parameter_group_1: vec![g1(fe(1), fe(2))],
        public_parameter_group_2: vec![],
    };
    let mut bytes = scheme.to_unchecked_bytes();
    bytes.extend([5u8; 10]);
    let back = KZGCommitmentScheme::from_unchecked_bytes(&bytes);
    assert_eq!(back.public_parameter_group_1, scheme.public_parameter_group_1);
    assert!(back.public_parameter_group_2.is_empty());
}

#[test]
fn unchecked_bytes_too_short() {
    assert!(KZGCommitmentScheme::try_from_unchecked_bytes(&[1, 0, 0]).is_none());
    assert!(KZGCommitmentScheme::try_from_unchecked_bytes(&[1, 0, 0, 0, 0, 0, 0, 0]).is_none());
    let empty = KZGCommitmentScheme::try_from_unchecked_bytes(&[0u8; 8]).unwrap();
    assert!(empty.public_parameter_group_1.is_empty());
}

#[test]
fn reencoding_canonical_bytes_gives_them_back() {
    let scheme = KZGCommitmentScheme {
        public_parameter_group_1: vec![g1(fe(1), fe(2)), g1(fe(1), p_minus(2)), g1_identity()],
        public_parameter_group_2: vec![g2_generator()],
    };
    let bytes = scheme.to_unchecked_bytes();
    let mut longer = bytes.clone();
    longer.extend([9u8; 5]);
    let back = KZGCommitmentScheme::from_unchecked_bytes(&longer);
    assert_eq!(back.to_unchecked_bytes(), bytes);
    // A sign bit that does not match y is not canonical, and is rewritten.
    let mut flipped = bytes.clone();
    flipped[8 + 63] |= 0x80;
    let back = KZGCommitmentScheme::from_unchecked_bytes(&flipped);
    assert_eq!(back.to_unchecked_bytes(), bytes);
}
