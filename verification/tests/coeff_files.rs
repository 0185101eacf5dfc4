use kzg_srs::coeffs::{
    coordinate_values, line_hex_fields, split_on_byte, trim_end_len, zei_coordinates, zei_crs,
};

#[test]
fn trims_trailing_whitespace() {
    assert_eq!(trim_end_len(b"0x1 0x2 \r\n"), 7);
    assert_eq!(trim_end_len(b"  "), 0);
}

#[test]
fn splits_at_separators() {
    assert_eq!(split_on_byte(b"a b  c", b' '), vec![b"a".to_vec(), b"b".to_vec(), vec![], b"c".to_vec()]);
    assert_eq!(split_on_byte(b"", b' '), vec![Vec::<u8>::new()]);
}

#[test]
fn line_fields_need_prefix_and_count() {
    assert_eq!(line_hex_fields(b"0xab 0x12\n", 2).unwrap(), vec![b"ab".to_vec(), b"12".to_vec()]);
    assert!(line_hex_fields(b"0xab 12", 2).is_none());
    assert!(line_hex_fields(b"0xab", 2).is_none());
}

#[test]
fn coordinate_values_stop_at_blank_line() {
    let text = b"0x1 0x2\n0xff 0x10\n\n0x3 0x4\n";
    let v = coordinate_values(text, 2, usize::MAX).unwrap();
    assert_eq!(v, vec![vec![vec![1], vec![2]], vec![vec![255], vec![16]]]);
    let v = coordinate_values(text, 2, 1).unwrap();
    assert_eq!(v.len(), 1);
}

#[test]
fn coordinate_values_follow_the_numeral_grammar() {
    let v = coordinate_values(b"0x+1_00 0x0\n", 2, 5).unwrap();
    assert_eq!(v, vec![vec![vec![0, 1], vec![0]]]);
    assert!(coordinate_values(b"0xzz 0x1\n", 2, 5).is_none());
    assert!(coordinate_values(b"0x_1 0x1\n", 2, 5).is_none());
    assert!(coordinate_values(b"0x1\n", 2, 5).is_none());
    assert!(coordinate_values(b"\n0xzz\n", 2, 5).unwrap().is_empty());
}

#[test]
fn zei_coordinates_keep_two_to_the_n_plus_three_g1_points() {
    let mut g1 = Vec::new();
    for i in 0..10u8 {
        g1.extend(format!("0x{:x} 0x1\n", i + 1).into_bytes());
    }
    let g2 = b"0x1 0x2 0x3 0x4\n0x5 0x6 0x7 0x8\n0x9 0x9 0x9 0x9\n";
    let (a, b) = zei_coordinates(&g1, g2, 1).unwrap();
    assert_eq!(a.len(), 5);
    assert_eq!(a[4][0], vec![5]);
    assert_eq!(b.len(), 2);
    assert_eq!(b[1][3], vec![8]);
    let (a, _) = zei_coordinates(&g1, g2, 5).unwrap();
    assert_eq!(a.len(), 10);
}

fn hex_bytes(s: &str) -> Vec<u8> {
    (0..s.len()).step_by(2).map(|i| u8::from_str_radix(&s[i..i + 2], 16).unwrap()).collect()
}

const G1_X: &str = "17f1d3a73197d7942695638c4fa9ac0fc3688c4f9774b905a14e3a3f171bac586c55e83ff97a1aeffb3af00adb22c6bb";
const G1_Y: &str = "08b3f481e3aaa0f1a09e30ed741d8ae4fcf5e095d5d00af600db18cb2c04b3edd03cc744a2888ae40caa232946c5e7e1";
const G2_X0: &str = "024aa2b2f08f0a91260805272dc51051c6e47ad4fa403b02b4510b647ae3d1770bac0326a805bbefd48056c8c121bdb8";
const G2_X1: &str = "13e02b6052719f607dacd3a088274f65596bd0d09920b61ab5da61bbdc7f5049334cf11213945d57e5ac7d055d042b7e";
const G2_Y0: &str = "0ce5d527727d6e118cc9cdc6da2e351aadfd9baa8cbdd3a76d429a695160d12c923ac9cc3baca289e193548608b82801";
const G2_Y1: &str = "0606c4a02ea734cc32acd2b02bc28b99cb3e287e85a763af267492ab572e99ab3f370d275cec1da1aaa9075ff05f79be";

#[test]
fn zei_crs_compresses_the_generators() {
    let g1_text = format!("0x{} 0x{}\n", G1_X, G1_Y);
    let g2_text = format!("0x{} 0x{} 0x{} 0x{}\n", G2_X0, G2_X1, G2_Y0, G2_Y1);
    let (g1, g2) = zei_crs(g1_text.as_bytes(), g2_text.as_bytes(), 3).unwrap();
    let mut expected_g1 = hex_bytes(G1_X);
    expected_g1[0] |= 0x80;
    assert_eq!(g1, vec![expected_g1]);
    let mut expected_g2 = hex_bytes(G2_X1);
    expected_g2.extend(hex_bytes(G2_X0));
    expected_g2[0] |= 0x80;
    assert_eq!(g2, vec![expected_g2]);
}

#[test]
fn zei_crs_rejects_g2_points_off_the_curve() {
    let g1_text = format!("0x{} 0x{}\n", G1_X, G1_Y);
    let g2_text = format!("0x{} 0x{} 0x{} 0x1\n", G2_X0, G2_X1, G2_Y0);
    assert!(zei_crs(g1_text.as_bytes(), g2_text.as_bytes(), 3).is_none());
}

#[test]
fn zei_crs_negated_y_sets_sort_flag() {
    // -y of the G1 generator, which is the larger root.
    let p = "1a0111ea397fe69a4b1ba7b6434bacd764774b84f38512bf6730d2a0f6b0f6241eabfffeb153ffffb9feffffffffaaab";
    let neg_y = {
        let a = hex_bytes(p);
        let b = hex_bytes(G1_Y);
        let mut out = vec![0u8; 48];
        let mut borrow = 0i32;
        for i in (0..48).rev() {
            let mut d = a[i] as i32 - b[i] as i32 - borrow;
            borrow = if d < 0 { d += 256; 1 } else { 0 };
            out[i] = d as u8;
        }
        out.iter().map(|b| format!("{:02x}", b)).collect::<String>()
    };
    let g1_text = format!("0x{} 0x{}\n", G1_X, neg_y);
    let (g1, g2) = zei_crs(g1_text.as_bytes(), b"", 0).unwrap();
    let mut expected = hex_bytes(G1_X);
    expected[0] |= 0xa0;
    assert_eq!(g1, vec![expected]);
    assert!(g2.is_empty());
}

#[test]
fn unicode_whitespace_is_trimmed_and_blank() {
    assert_eq!(trim_end_len(b"0x1 0x2\x0b"), 7);
    assert_eq!(trim_end_len("0x1 0x2\u{a0}\u{3000}\u{2009}".as_bytes()), 7);
    assert_eq!(trim_end_len("\u{85}\u{1680}\u{205f}\t".as_bytes()), 0);
    assert_eq!(trim_end_len(b"0x1\xe2\x80\x8b"), 6);
    let text = "0x1 0x2\n\u{a0}\n0x3 0x4\n";
    assert_eq!(coordinate_values(text.as_bytes(), 2, usize::MAX).unwrap().len(), 1);
    let text = b"0x1 0x2\n\x0b\n0xzz\n";
    assert_eq!(coordinate_values(text, 2, usize::MAX).unwrap().len(), 1);
}

#[test]
fn zei_crs_rejects_g1_points_off_the_curve() {
    let g1_text = format!("0x{} 0x{}\n0x1 0x2\n", G1_X, G1_Y);
    assert!(zei_crs(g1_text.as_bytes(), b"", 3).is_none());
    // Beyond the kept points the check does not apply.
    let good = format!("0x{} 0x{}\n", G1_X, G1_Y);
    let g1_text = format!("{}{}{}{}0x1 0x2\n", good, good, good, good);
    let (g1, g2) = zei_crs(g1_text.as_bytes(), b"", 0).unwrap();
    assert_eq!(g1.len(), 4);
    assert!(g2.is_empty());
}
