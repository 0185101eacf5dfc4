use kzg_srs::field::BaseField;
use kzg_srs::import::{
    limb_reversed, srs_from_point_files, transcript_coordinate, transcript_g1_points,
    transcript_g2_points, validated_g1_points, G1_POINT_COUNT, TRANSCRIPT_G1_OFFSET,
    TRANSCRIPT_G1_RECORDS, TRANSCRIPT_G2_OFFSET,
};
use kzg_srs::point::{G1Point, G2Point, QuadField};
use kzg_srs::srs::{decode_g1_points, encode_g1_points, encode_g2_points};

fn fe(v: u64) -> BaseField {
    BaseField { limbs: [v, 0, 0, 0] }
}

fn g1(x: u64, y: u64) -> G1Point {
    G1Point { x: fe(x), y: fe(y), infinity: false }
}

/// The transcript layout of a coordinate: limbs least significant first, each big-endian.
fn transcript_raw(f: &BaseField) -> Vec<u8> {
    f.limbs.iter().flat_map(|l| l.to_be_bytes()).collect()
}

fn g2_gen() -> G2Point {
    G2Point {
        x: QuadField {
            c0: BaseField { limbs: [0x46debd5cd992f6ed, 0x674322d4f75edadd, 0x426a00665e5c4479, 0x1800deef121f1e76] },
            c1: BaseField { limbs: [0x97e485b7aef312c2, 0xf1aa493335a9e712, 0x7260bfb731fb5d25, 0x198e9393920d483a] },
        },
        y: QuadField {
            c0: BaseField { limbs: [0x4ce6cc0166fa7daa, 0xe3d1e7690c43d37b, 0x4aab71808dcb408f, 0x12c85ea5db8c6deb] },
            c1: BaseField { limbs: [0x55acdadcd122975b, 0xbc4b313370b38ef3, 0xec9e99ad690c3395, 0x090689d0585ff075] },
        },
        infinity: false,
    }
}

#[test]
fn transcript_offsets() {
    assert_eq!(TRANSCRIPT_G1_OFFSET, 28);
    assert_eq!(TRANSCRIPT_G2_OFFSET, 322560028);
    assert_eq!(G1_POINT_COUNT, 8195);
    assert_eq!(TRANSCRIPT_G1_RECORDS, 8194);
}

#[test]
fn limb_reversal_moves_whole_limbs() {
    let raw: Vec<u8> = (0u8..32).collect();
    let out = limb_reversed(&raw);
    for j in 0..4 {
        for k in 0..8 {
            assert_eq!(out[(3 - j) * 8 + k], raw[j * 8 + k]);
        }
    }
    assert_eq!(limb_reversed(&out), raw);
}

#[test]
fn transcript_coordinate_reads_small_values() {
    let mut raw = vec![0u8; 32];
    raw[7] = 5;
    assert_eq!(transcript_coordinate(&raw), fe(5));
    let mut raw = vec![0u8; 32];
    raw[8 + 7] = 1;
    assert_eq!(transcript_coordinate(&raw), BaseField { limbs: [0, 1, 0, 0] });
}

#[test]
fn transcript_coordinate_reduces_modulo_p() {
    let raw = vec![0xffu8; 32];
    assert_eq!(
        transcript_coordinate(&raw),
        BaseField { limbs: [0xd35d438dc58f0d9c, 0x0a78eb28f5c70b3d, 0x666ea36f7879462c, 0x0e0a77c19a07df2f] }
    );
}

fn generator_records(count: usize) -> Vec<u8> {
    let mut records = Vec::new();
    for _ in 0..count {
        records.extend(transcript_raw(&fe(1)));
        records.extend(transcript_raw(&fe(2)));
    }
    records
}

#[test]
fn transcript_g1_points_reads_all_records() {
    let records = generator_records(TRANSCRIPT_G1_RECORDS);
    let points = transcript_g1_points(&records).unwrap();
    assert_eq!(points.len(), G1_POINT_COUNT);
    assert!(points.iter().all(|p| *p == g1(1, 2)));
    let bytes = encode_g1_points(&points);
    assert_eq!(bytes.len(), 64 * G1_POINT_COUNT);
}

#[test]
fn transcript_g1_points_rejects_short_or_invalid() {
    let records = generator_records(TRANSCRIPT_G1_RECORDS - 1);
    assert!(transcript_g1_points(&records).is_none());
    let mut records = generator_records(TRANSCRIPT_G1_RECORDS);
    records[64 * 100 + 32 + 7] = 3;
    assert!(transcript_g1_points(&records).is_none());
}

#[test]
fn transcript_g2_points_reads_generator_and_record() {
    let g = g2_gen();
    let mut record = Vec::new();
    for c in [&g.x.c0, &g.x.c1, &g.y.c0, &g.y.c1] {
        record.extend(transcript_raw(c));
    }
    let points = transcript_g2_points(&record).unwrap();
    assert_eq!(points, vec![g, g]);
    assert_eq!(encode_g2_points(&points).len(), 256);
    assert!(transcript_g2_points(&record[..127]).is_none());
    record[7] ^= 1;
    assert!(transcript_g2_points(&record).is_none());
}

#[test]
fn validated_points_reject_points_off_the_curve() {
    let identity = G1Point { x: fe(0), y: fe(0), infinity: true };
    let good = encode_g1_points(&[g1(1, 2), identity]);
    assert_eq!(validated_g1_points(&good, 2).unwrap(), vec![g1(1, 2), identity]);
    let bad = encode_g1_points(&[g1(1, 3)]);
    assert_eq!(decode_g1_points(&bad, 1).unwrap(), vec![g1(1, 3)]);
    assert!(validated_g1_points(&bad, 1).is_none());
}

#[test]
fn srs_from_point_files_builds_parameters() {
    let g1_bytes = encode_g1_points(&vec![g1(1, 2); G1_POINT_COUNT]);
    let g2_bytes = encode_g2_points(&[g2_gen(), g2_gen()]);
    let scheme = srs_from_point_files(&g1_bytes, &g2_bytes).unwrap();
    assert_eq!(scheme.public_parameter_group_1.len(), G1_POINT_COUNT);
    assert_eq!(scheme.public_parameter_group_2, vec![g2_gen(), g2_gen()]);
    assert!(srs_from_point_files(&g1_bytes[..64 * 8194], &g2_bytes).is_none());
}
