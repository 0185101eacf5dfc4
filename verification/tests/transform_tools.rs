use kzg_srs::field::BaseField;
use kzg_srs::point::G1Point;
use kzg_srs::srs::KZGCommitmentScheme;
use kzg_srs::transform::{lagrange_srs, padded_srs};

fn g1(x: u64, y: u64) -> G1Point {
    G1Point { x: BaseField { limbs: [x, 0, 0, 0] }, y: BaseField { limbs: [y, 0, 0, 0] }, infinity: false }
}

#[test]
fn padding_keeps_the_selected_powers() {
    let points: Vec<G1Point> = (0..8300u64).map(|i| g1(i, 0)).collect();
    let scheme = KZGCommitmentScheme { public_parameter_group_1: points, public_parameter_group_2: vec![] };
    let padded = padded_srs(scheme);
    let g1s = &padded.public_parameter_group_1;
    assert_eq!(g1s.len(), 2057);
    assert_eq!(g1s[2050].x.limbs[0], 2050);
    assert_eq!(g1s[2051].x.limbs[0], 4096);
    assert_eq!(g1s[2053].x.limbs[0], 4098);
    assert_eq!(g1s[2054].x.limbs[0], 8192);
    assert_eq!(g1s[2056].x.limbs[0], 8194);
    assert!(padded.public_parameter_group_2.is_empty());
}

#[test]
fn lagrange_of_one_point_is_the_point() {
    let scheme = KZGCommitmentScheme { public_parameter_group_1: vec![g1(1, 2), g1(1, 2)], public_parameter_group_2: vec![] };
    let l = lagrange_srs(&scheme, 0);
    assert_eq!(l.public_parameter_group_1, vec![g1(1, 2)]);
}

#[test]
fn lagrange_of_two_equal_points() {
    let scheme = KZGCommitmentScheme { public_parameter_group_1: vec![g1(1, 2), g1(1, 2), g1(1, 2)], public_parameter_group_2: vec![] };
    let l = lagrange_srs(&scheme, 1);
    let identity = G1Point { x: BaseField { limbs: [0; 4] }, y: BaseField { limbs: [0; 4] }, infinity: true };
    assert_eq!(l.public_parameter_group_1, vec![g1(1, 2), identity]);
    assert!(l.public_parameter_group_2.is_empty());
}
