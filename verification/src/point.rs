//! Affine points of the BN254 groups G1 and G2, and their 64- and 128-byte
//! uncompressed encodings.

use crate::field::{
    BaseField, fe_bytes, fe_from_bytes, fe_le_neg, fe_zero, lemma_fe_bytes_of_read,
    lemma_fe_bytes_roundtrip, lemma_fe_top_byte, lemma_fe_zero_bytes, modulus, neg_value,
};
use ark_bn254::{Fq, Fq2, G1Affine, G2Affine};
use ark_ff::{BigInt, PrimeField};
use ark_serialize::{CanonicalDeserialize, CanonicalSerialize, Compress, Valid, Validate};
use vstd::prelude::*;

verus! {

/// The flag that an uncompressed point encoding carries in the two top bits of
/// its last byte.
#[derive(Clone, Copy, Debug, PartialEq, Eq)]
pub enum PointFlag {
    YIsPositive,
    PointAtInfinity,
    YIsNegative,
}

/// The bits that a flag sets in the last byte.
pub open spec fn flag_mask(f: PointFlag) -> u8 {
    match f {
        PointFlag::YIsPositive => 0u8,
        PointFlag::PointAtInfinity => 0x40u8,
        PointFlag::YIsNegative => 0x80u8,
    }
}

/// The flag that the two top bits of a byte name; both bits set names none.
pub open spec fn flag_of_byte(b: u8) -> Option<PointFlag> {
    let negative = (b >> 7u8) & 1u8 == 1u8;
    let infinity = (b >> 6u8) & 1u8 == 1u8;
    if negative && infinity {
        None
    } else if infinity {
        Some(PointFlag::PointAtInfinity)
    } else if negative {
        Some(PointFlag::YIsNegative)
    } else {
        Some(PointFlag::YIsPositive)
    }
}

/// 32 bytes of an element with a flag or'ed into the last byte.
pub open spec fn with_flag(s: Seq<u8>, f: PointFlag) -> Seq<u8> {
    s.update(31, s[31] | flag_mask(f))
}

/// Reads a canonical element from 32 bytes; `None` where the value is not below the modulus.
pub open spec fn fe_read(s: Seq<u8>) -> Option<BaseField> {
    let v = fe_from_bytes(s);
    if v.wf() {
        Some(v)
    } else {
        None
    }
}

/// Reads a canonical element and a flag from 32 bytes: the flag's bits are
/// cleared before the value is read.
pub open spec fn fe_read_with_flag(s: Seq<u8>) -> Option<(BaseField, PointFlag)> {
    match flag_of_byte(s[31]) {
        None => None,
        Some(f) => match fe_read(s.update(31, s[31] & !flag_mask(f))) {
            None => None,
            Some(v) => Some((v, f)),
        },
    }
}

/// A flag set into a byte whose two top bits are clear is read back, and
/// clearing it restores the byte.
pub proof fn lemma_flag_roundtrip(b: u8, f: PointFlag)
    requires
        b < 64,
    ensures
        flag_of_byte(b | flag_mask(f)) == Some(f),
        (b | flag_mask(f)) & !flag_mask(f) == b,
{
    match f {
        PointFlag::YIsPositive => {
            assert(b < 64 ==> (b | 0u8) & !0u8 == b && (b | 0u8) >> 7u8 & 1u8 == 0u8 && (b | 0u8)
                >> 6u8 & 1u8 == 0u8) by (bit_vector);
        },
        PointFlag::PointAtInfinity => {
            assert(b < 64 ==> (b | 0x40u8) & !0x40u8 == b && (b | 0x40u8) >> 7u8 & 1u8 == 0u8 && (b
                | 0x40u8) >> 6u8 & 1u8 == 1u8) by (bit_vector);
        },
        PointFlag::YIsNegative => {
            assert(b < 64 ==> (b | 0x80u8) & !0x80u8 == b && (b | 0x80u8) >> 7u8 & 1u8 == 1u8 && (b
                | 0x80u8) >> 6u8 & 1u8 == 0u8) by (bit_vector);
        },
    }
}

/// A canonical element written with any flag is read back with that flag.
pub proof fn lemma_fe_flag_roundtrip(v: BaseField, f: PointFlag)
    requires
        v.wf(),
    ensures
        with_flag(fe_bytes(v), f).len() == 32,
        fe_read_with_flag(with_flag(fe_bytes(v), f)) == Some((v, f)),
        fe_read(fe_bytes(v)) == Some(v),
{
    lemma_fe_bytes_roundtrip(v);
    lemma_fe_top_byte(v);
    let s = fe_bytes(v);
    let b = s[31];
    lemma_flag_roundtrip(b, f);
    let t = with_flag(s, f);
    assert(t[31] == b | flag_mask(f));
    assert(t.update(31, t[31] & !flag_mask(f)) =~= s);
}

/// An element of the quadratic extension field `Fq2 = Fq[u]`, `c0 + c1 * u`.
#[derive(Clone, Copy, Debug, PartialEq, Eq)]
pub struct QuadField {
    pub c0: BaseField,
    pub c1: BaseField,
}

impl QuadField {
    /// Both coefficients are canonical.
    pub open spec fn wf(self) -> bool {
        self.c0.wf() && self.c1.wf()
    }

    /// The additive identity.
    pub open spec fn spec_zero() -> QuadField {
        QuadField { c0: fe_zero(), c1: fe_zero() }
    }

    /// `q <= -q` in the field's order, which compares `c1` first and then `c0`.
    pub open spec fn le_neg(self) -> bool {
        let v1 = self.c1.value();
        let v0 = self.c0.value();
        v1 < neg_value(v1) || (v1 == neg_value(v1) && v0 <= neg_value(v0))
    }
}

/// An affine point of G1 (the curve `y^2 = x^3 + 3` over the base field), or the
/// point at infinity.
#[derive(Clone, Copy, Debug, PartialEq, Eq)]
pub struct G1Point {
    pub x: BaseField,
    pub y: BaseField,
    pub infinity: bool,
}

/// An affine point of G2 (a curve over `Fq2`), or the point at infinity.
#[derive(Clone, Copy, Debug, PartialEq, Eq)]
pub struct G2Point {
    pub x: QuadField,
    pub y: QuadField,
    pub infinity: bool,
}

impl G1Point {
    /// Coordinates are canonical, and the point at infinity has zero coordinates.
    pub open spec fn wf(self) -> bool {
        &&& self.x.wf()
        &&& self.y.wf()
        &&& self.infinity ==> self.x == fe_zero() && self.y == fe_zero()
    }

    /// The point at infinity.
    pub open spec fn spec_identity() -> G1Point {
        G1Point { x: fe_zero(), y: fe_zero(), infinity: true }
    }

    /// The flag that the encoding of this point carries.
    pub open spec fn flag(self) -> PointFlag {
        if self.infinity {
            PointFlag::PointAtInfinity
        } else if fe_le_neg(self.y) {
            PointFlag::YIsPositive
        } else {
            PointFlag::YIsNegative
        }
    }
}

impl G2Point {
    /// Coordinates are canonical, and the point at infinity has zero coordinates.
    pub open spec fn wf(self) -> bool {
        &&& self.x.wf()
        &&& self.y.wf()
        &&& self.infinity ==> self.x == QuadField::spec_zero() && self.y == QuadField::spec_zero()
    }

    /// The point at infinity.
    pub open spec fn spec_identity() -> G2Point {
        G2Point { x: QuadField::spec_zero(), y: QuadField::spec_zero(), infinity: true }
    }

    /// The flag that the encoding of this point carries.
    pub open spec fn flag(self) -> PointFlag {
        if self.infinity {
            PointFlag::PointAtInfinity
        } else if self.y.le_neg() {
            PointFlag::YIsPositive
        } else {
            PointFlag::YIsNegative
        }
    }
}

/// The 64-byte uncompressed encoding of a G1 point: `x` then `y`, each as 32
/// little-endian bytes, with the point's flag in the top bits of the last byte.
/// The point at infinity is written with zero coordinates.
pub open spec fn g1_encoding(p: G1Point) -> Seq<u8> {
    if p.infinity {
        fe_bytes(fe_zero()) + with_flag(fe_bytes(fe_zero()), PointFlag::PointAtInfinity)
    } else {
        fe_bytes(p.x) + with_flag(fe_bytes(p.y), p.flag())
    }
}

/// The point that 64 bytes encode without validation: both coordinates must be
/// canonical and the flag bits must name a flag; the infinity flag gives the
/// point at infinity whatever the coordinates, and the sign flag is not checked.
pub open spec fn g1_decoding(s: Seq<u8>) -> Option<G1Point> {
    match fe_read(s.subrange(0, 32)) {
        None => None,
        Some(x) => match fe_read_with_flag(s.subrange(32, 64)) {
            None => None,
            Some((y, f)) => if f == PointFlag::PointAtInfinity {
                Some(G1Point::spec_identity())
            } else {
                Some(G1Point { x, y, infinity: false })
            },
        },
    }
}

/// The 128-byte uncompressed encoding of a G2 point: `x.c0`, `x.c1`, `y.c0`,
/// `y.c1`, each as 32 little-endian bytes, with the point's flag in the top
/// bits of the last byte. The point at infinity is written with zero coordinates.
pub open spec fn g2_encoding(p: G2Point) -> Seq<u8> {
    if p.infinity {
        fe_bytes(fe_zero()) + fe_bytes(fe_zero()) + fe_bytes(fe_zero()) + with_flag(
            fe_bytes(fe_zero()),
            PointFlag::PointAtInfinity,
        )
    } else {
        fe_bytes(p.x.c0) + fe_bytes(p.x.c1) + fe_bytes(p.y.c0) + with_flag(
            fe_bytes(p.y.c1),
            p.flag(),
        )
    }
}

/// The point that 128 bytes encode without validation, read as for G1 with
/// four coefficients in place of two coordinates.
pub open spec fn g2_decoding(s: Seq<u8>) -> Option<G2Point> {
    match (
        fe_read(s.subrange(0, 32)),
        fe_read(s.subrange(32, 64)),
        fe_read(s.subrange(64, 96)),
        fe_read_with_flag(s.subrange(96, 128)),
    ) {
        (Some(x0), Some(x1), Some(y0), Some((y1, f))) => if f == PointFlag::PointAtInfinity {
            Some(G2Point::spec_identity())
        } else {
            Some(
                G2Point {
                    x: QuadField { c0: x0, c1: x1 },
                    y: QuadField { c0: y0, c1: y1 },
                    infinity: false,
                },
            )
        },
        _ => None,
    }
}

/// Decoding the encoding of a well-formed G1 point gives the point back.
pub proof fn lemma_g1_roundtrip(p: G1Point)
    requires
        p.wf(),
    ensures
        g1_encoding(p).len() == 64,
        g1_decoding(g1_encoding(p)) == Some(p),
{
    let q = if p.infinity {
        G1Point::spec_identity()
    } else {
        p
    };
    assert(fe_zero().value() == 0);
    lemma_fe_bytes_roundtrip(q.x);
    lemma_fe_bytes_roundtrip(q.y);
    lemma_fe_flag_roundtrip(q.x, p.flag());
    lemma_fe_flag_roundtrip(q.y, p.flag());
    let s = g1_encoding(p);
    assert(s == fe_bytes(q.x) + with_flag(fe_bytes(q.y), p.flag()));
    assert(s.subrange(0, 32) =~= fe_bytes(q.x));
    assert(s.subrange(32, 64) =~= with_flag(fe_bytes(q.y), p.flag()));
}

/// Decoding the encoding of a well-formed G2 point gives the point back.
pub proof fn lemma_g2_roundtrip(p: G2Point)
    requires
        p.wf(),
    ensures
        g2_encoding(p).len() == 128,
        g2_decoding(g2_encoding(p)) == Some(p),
{
    let q = if p.infinity {
        G2Point::spec_identity()
    } else {
        p
    };
    assert(fe_zero().value() == 0);
    lemma_fe_bytes_roundtrip(q.x.c0);
    lemma_fe_bytes_roundtrip(q.x.c1);
    lemma_fe_bytes_roundtrip(q.y.c0);
    lemma_fe_bytes_roundtrip(q.y.c1);
    lemma_fe_flag_roundtrip(q.x.c0, p.flag());
    lemma_fe_flag_roundtrip(q.x.c1, p.flag());
    lemma_fe_flag_roundtrip(q.y.c0, p.flag());
    lemma_fe_flag_roundtrip(q.y.c1, p.flag());
    let a = fe_bytes(q.x.c0);
    let b = fe_bytes(q.x.c1);
    let c = fe_bytes(q.y.c0);
    let d = with_flag(fe_bytes(q.y.c1), p.flag());
    let s = g2_encoding(p);
    assert(s == a + b + c + d);
    assert(s.subrange(0, 32) =~= a);
    assert(s.subrange(32, 64) =~= b);
    assert(s.subrange(64, 96) =~= c);
    assert(s.subrange(96, 128) =~= d);
}

/// Setting back the bits of the flag that a byte names restores the byte.
pub proof fn lemma_flag_restore(b: u8, f: PointFlag)
    requires
        flag_of_byte(b) == Some(f),
    ensures
        (b & !flag_mask(f)) | flag_mask(f) == b,
{
    match f {
        PointFlag::YIsPositive => {
            assert((b & !0u8) | 0u8 == b) by (bit_vector);
        },
        PointFlag::PointAtInfinity => {
            assert((b >> 6u8) & 1u8 == 1u8 ==> (b & !0x40u8) | 0x40u8 == b) by (bit_vector);
        },
        PointFlag::YIsNegative => {
            assert((b >> 7u8) & 1u8 == 1u8 ==> (b & !0x80u8) | 0x80u8 == b) by (bit_vector);
        },
    }
}

/// 64 bytes are the canonical encoding of a G1 point: they decode, their flag
/// bits are those the point's encoding carries (bit 7 of the last byte set
/// exactly when `y > -y`), and the point at infinity is written as zero bytes
/// with only the infinity bit set.
pub open spec fn g1_chunk_canonical(c: Seq<u8>) -> bool {
    &&& g1_decoding(c) is Some
    &&& flag_of_byte(c[63]) == Some(g1_decoding(c).unwrap().flag())
    &&& g1_decoding(c).unwrap().infinity ==> (forall|i: int| 0 <= i < 63 ==> c[i] == 0u8) && c[63]
        == 0x40u8
}

/// 128 bytes are the canonical encoding of a G2 point, in the sense of
/// `g1_chunk_canonical`.
pub open spec fn g2_chunk_canonical(c: Seq<u8>) -> bool {
    &&& g2_decoding(c) is Some
    &&& flag_of_byte(c[127]) == Some(g2_decoding(c).unwrap().flag())
    &&& g2_decoding(c).unwrap().infinity ==> (forall|i: int| 0 <= i < 127 ==> c[i] == 0u8)
        && c[127] == 0x40u8
}

/// Encoding the point that canonical bytes decode to gives the bytes back.
pub proof fn lemma_g1_reencode(c: Seq<u8>)
    requires
        c.len() == 64,
        g1_chunk_canonical(c),
    ensures
        g1_encoding(g1_decoding(c).unwrap()) == c,
{
    let p = g1_decoding(c).unwrap();
    if p.infinity {
        lemma_fe_zero_bytes();
        assert(0u8 | 0x40u8 == 0x40u8) by (bit_vector);
        assert(g1_encoding(p) =~= c);
    } else {
        let xs = c.subrange(0, 32);
        let ys = c.subrange(32, 64);
        let f = p.flag();
        let b = ys[31];
        let cleared = ys.update(31, b & !flag_mask(f));
        lemma_fe_bytes_of_read(xs);
        lemma_fe_bytes_of_read(cleared);
        lemma_flag_restore(b, f);
        assert(with_flag(fe_bytes(p.y), f) =~= ys);
        assert(g1_encoding(p) =~= c);
    }
}

/// Encoding the point that canonical bytes decode to gives the bytes back.
pub proof fn lemma_g2_reencode(c: Seq<u8>)
    requires
        c.len() == 128,
        g2_chunk_canonical(c),
    ensures
        g2_encoding(g2_decoding(c).unwrap()) == c,
{
    let p = g2_decoding(c).unwrap();
    if p.infinity {
        lemma_fe_zero_bytes();
        assert(0u8 | 0x40u8 == 0x40u8) by (bit_vector);
        assert(g2_encoding(p) =~= c);
    } else {
        let f = p.flag();
        let ys = c.subrange(96, 128);
        let b = ys[31];
        let cleared = ys.update(31, b & !flag_mask(f));
        lemma_fe_bytes_of_read(c.subrange(0, 32));
        lemma_fe_bytes_of_read(c.subrange(32, 64));
        lemma_fe_bytes_of_read(c.subrange(64, 96));
        lemma_fe_bytes_of_read(cleared);
        lemma_flag_restore(b, f);
        assert(with_flag(fe_bytes(p.y.c1), f) =~= ys);
        assert(g2_encoding(p) =~= c);
    }
}

/// Whatever 64 bytes decode to is a well-formed G1 point.
pub proof fn lemma_g1_decoding_wf(s: Seq<u8>)
    ensures
        g1_decoding(s) matches Some(p) ==> p.wf(),
{
    assert(fe_zero().value() == 0);
}

/// Whatever 128 bytes decode to is a well-formed G2 point.
pub proof fn lemma_g2_decoding_wf(s: Seq<u8>)
    ensures
        g2_decoding(s) matches Some(p) ==> p.wf(),
{
    assert(fe_zero().value() == 0);
}

/// Writes a G1 point with ark-serialize's `serialize_with_mode` (`Compress::No`)
/// on an ark-bn254 `G1Affine` built from the coordinates. The contract states
/// the bytes that this writes, as the crate's source shows them: each
/// coordinate as 32 little-endian bytes, the flag bits or'ed into the last byte.
#[verifier::external_body]
pub(crate) fn g1_serialize_uncompressed(p: &G1Point) -> (res: Vec<u8>)
    requires
        p.wf(),
    ensures
        res@ == g1_encoding(*p),
{
    let a = G1Affine {
        x: Fq::from_bigint(BigInt::new(p.x.limbs)).unwrap(),
        y: Fq::from_bigint(BigInt::new(p.y.limbs)).unwrap(),
        infinity: p.infinity,
    };
    let mut out = Vec::new();
    a.serialize_with_mode(&mut out, Compress::No).unwrap();
    out
}

/// Reads a G1 point with ark-serialize's `deserialize_with_mode`
/// (`Compress::No`, `Validate::No`) on ark-bn254's `G1Affine`, and hands back
/// its canonical coordinates. The contract states, as the crate's source shows
/// it, on which bytes this succeeds and what it reads.
#[verifier::external_body]
pub(crate) fn g1_deserialize_unchecked(bytes: &[u8]) -> (res: Option<G1Point>)
    requires
        bytes@.len() == 64,
    ensures
        res == g1_decoding(bytes@),
{
    match G1Affine::deserialize_with_mode(bytes, Compress::No, Validate::No) {
        Ok(a) => Some(G1Point {
            x: BaseField { limbs: a.x.into_bigint().0 },
            y: BaseField { limbs: a.y.into_bigint().0 },
            infinity: a.infinity,
        }),
        Err(_) => None,
    }
}

/// Writes a G2 point with ark-serialize's `serialize_with_mode` (`Compress::No`)
/// on an ark-bn254 `G2Affine` built from the coordinates. The contract states
/// the bytes that this writes, as the crate's source shows them.
#[verifier::external_body]
pub(crate) fn g2_serialize_uncompressed(p: &G2Point) -> (res: Vec<u8>)
    requires
        p.wf(),
    ensures
        res@ == g2_encoding(*p),
{
    let a = G2Affine {
        x: Fq2::new(
            Fq::from_bigint(BigInt::new(p.x.c0.limbs)).unwrap(),
            Fq::from_bigint(BigInt::new(p.x.c1.limbs)).unwrap(),
        ),
        y: Fq2::new(
            Fq::from_bigint(BigInt::new(p.y.c0.limbs)).unwrap(),
            Fq::from_bigint(BigInt::new(p.y.c1.limbs)).unwrap(),
        ),
        infinity: p.infinity,
    };
    let mut out = Vec::new();
    a.serialize_with_mode(&mut out, Compress::No).unwrap();
    out
}

/// Reads a G2 point with ark-serialize's `deserialize_with_mode`
/// (`Compress::No`, `Validate::No`) on ark-bn254's `G2Affine`, and hands back
/// its canonical coordinates. The contract states, as the crate's source shows
/// it, on which bytes this succeeds and what it reads.
#[verifier::external_body]
pub(crate) fn g2_deserialize_unchecked(bytes: &[u8]) -> (res: Option<G2Point>)
    requires
        bytes@.len() == 128,
    ensures
        res == g2_decoding(bytes@),
{
    match G2Affine::deserialize_with_mode(bytes, Compress::No, Validate::No) {
        Ok(a) => Some(G2Point {
            x: QuadField {
                c0: BaseField { limbs: a.x.c0.into_bigint().0 },
                c1: BaseField { limbs: a.x.c1.into_bigint().0 },
            },
            y: QuadField {
                c0: BaseField { limbs: a.y.c0.into_bigint().0 },
                c1: BaseField { limbs: a.y.c1.into_bigint().0 },
            },
            infinity: a.infinity,
        }),
        Err(_) => None,
    }
}

/// The point lies on G1's curve `y^2 = x^3 + 3`; the point at infinity does.
pub open spec fn g1_on_curve(p: G1Point) -> bool {
    let x = p.x.value() as int;
    let y = p.y.value() as int;
    p.infinity || (y * y) % (modulus() as int) == (x * x * x + 3) % (modulus() as int)
}

/// A product in `Fq2 = Fq[u] / (u^2 + 1)`, on pairs of integers, reduced.
pub open spec fn fq2_mul(a: (int, int), b: (int, int)) -> (int, int) {
    let m = modulus() as int;
    ((a.0 * b.0 - a.1 * b.1) % m, (a.0 * b.1 + a.1 * b.0) % m)
}

/// The constant `b = 3 / (u + 9)` of G2's curve `y^2 = x^3 + b`.
pub open spec fn g2_coeff_b() -> (int, int) {
    (
        19485874751759354771024239261021720505790618469301721065564631296452457478373int,
        266929791119991161246907387137283842545076965332900288569378510910307636690int,
    )
}

/// The point lies on G2's curve `y^2 = x^3 + b`; the point at infinity does.
pub open spec fn g2_on_curve(p: G2Point) -> bool {
    let m = modulus() as int;
    let x = (p.x.c0.value() as int, p.x.c1.value() as int);
    let y = (p.y.c0.value() as int, p.y.c1.value() as int);
    let x3 = fq2_mul(fq2_mul(x, x), x);
    let b = g2_coeff_b();
    p.infinity || fq2_mul(y, y) == ((x3.0 + b.0) % m, (x3.1 + b.1) % m)
}

/// What ark-ec's subgroup test (`is_in_correct_subgroup_assuming_on_curve`,
/// for ark-bn254's G1) answers for a point.
pub uninterp spec fn g1_in_prime_order_subgroup(p: G1Point) -> bool;

/// What ark-ec's subgroup test (`is_in_correct_subgroup_assuming_on_curve`,
/// for ark-bn254's G2) answers for a point.
pub uninterp spec fn g2_in_prime_order_subgroup(p: G2Point) -> bool;

/// Runs ark-serialize's `Valid::check` on an ark-bn254 `G1Affine` built from
/// the coordinates; it passes when the point is on the curve and the
/// subgroup test passes. The contract states the curve equation and names
/// the subgroup test's answer.
#[verifier::external_body]
pub(crate) fn g1_check(p: &G1Point) -> (res: bool)
    requires
        p.wf(),
    ensures
        res == (g1_on_curve(*p) && g1_in_prime_order_subgroup(*p)),
{
    G1Affine {
        x: Fq::from_bigint(BigInt::new(p.x.limbs)).unwrap(),
        y: Fq::from_bigint(BigInt::new(p.y.limbs)).unwrap(),
        infinity: p.infinity,
    }.check().is_ok()
}

/// Runs ark-serialize's `Valid::check` on an ark-bn254 `G2Affine` built from
/// the coordinates; it passes when the point is on the curve and the
/// subgroup test passes. The contract states the curve equation and names
/// the subgroup test's answer.
#[verifier::external_body]
pub(crate) fn g2_check(p: &G2Point) -> (res: bool)
    requires
        p.wf(),
    ensures
        res == (g2_on_curve(*p) && g2_in_prime_order_subgroup(*p)),
{
    G2Affine {
        x: Fq2::new(
            Fq::from_bigint(BigInt::new(p.x.c0.limbs)).unwrap(),
            Fq::from_bigint(BigInt::new(p.x.c1.limbs)).unwrap(),
        ),
        y: Fq2::new(
            Fq::from_bigint(BigInt::new(p.y.c0.limbs)).unwrap(),
            Fq::from_bigint(BigInt::new(p.y.c1.limbs)).unwrap(),
        ),
        infinity: p.infinity,
    }.check().is_ok()
}

} // verus!
