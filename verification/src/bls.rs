//! Elements and points of BLS12-381, as far as the parameter export needs
//! them: coordinates reduced from integers, and the compressed point encodings.

use ark_bls12_381::{Fq, Fq2, G1Affine, G2Affine};
use ark_ff::{BigInt, PrimeField};
use ark_serialize::{CanonicalDeserialize, CanonicalSerialize};
use num_bigint::BigUint;
use vstd::prelude::*;

verus! {

/// The base of a 64-bit limb.
pub open spec fn limb_base() -> nat {
    0x1_0000_0000_0000_0000nat
}

/// `limb_base()` to the `n`-th power.
pub open spec fn limb_base_pow(n: nat) -> nat
    decreases n,
{
    if n == 0 {
        1
    } else {
        limb_base() * limb_base_pow((n - 1) as nat)
    }
}

/// The integer that little-endian 64-bit limbs spell.
pub open spec fn digits_value(s: Seq<u64>) -> nat
    decreases s.len(),
{
    if s.len() == 0 {
        0
    } else {
        s[0] as nat + limb_base() * digits_value(s.drop_first())
    }
}

/// The first `n` base-`2^64` digits of a value, least significant first.
pub open spec fn digits_of(v: nat, n: nat) -> Seq<u64>
    decreases n,
{
    if n == 0 {
        Seq::empty()
    } else {
        seq![(v % limb_base()) as u64] + digits_of(v / limb_base(), (n - 1) as nat)
    }
}

/// The first `n` digits of a value below `2^(64 n)` spell that value.
pub proof fn lemma_digits_of(v: nat, n: nat)
    requires
        v < limb_base_pow(n),
    ensures
        digits_of(v, n).len() == n,
        digits_value(digits_of(v, n)) == v,
    decreases n,
{
    if n > 0 {
        let b = limb_base();
        let q = v / b;
        let p = limb_base_pow((n - 1) as nat);
        assert(v == q * b + v % b && v % b < b && q < p) by (nonlinear_arith)
            requires
                b > 0,
                q == v / b,
                v < b * p,
        ;
        lemma_digits_of(q, (n - 1) as nat);
        let d = digits_of(v, n);
        assert(d.drop_first() =~= digits_of(q, (n - 1) as nat));
        assert(d[0] as nat == v % b);
    }
}

/// The BLS12-381 base field modulus.
pub open spec fn bls_modulus() -> nat {
    4002409555221667393417789825735904156556882819939007885332058136124031650490837864442687629129015664037894272559787nat
}

/// An element of the BLS12-381 base field, as the six little-endian 64-bit
/// limbs of its canonical integer value.
#[derive(Clone, Copy, Debug, PartialEq, Eq)]
pub struct BlsField {
    pub limbs: [u64; 6],
}

impl BlsField {
    /// The integer this element stands for.
    pub open spec fn value(self) -> nat {
        digits_value(self.limbs@)
    }

    /// The limbs hold a canonical value, below the modulus.
    pub open spec fn wf(self) -> bool {
        self.value() < bls_modulus()
    }
}

/// The element of a value below `2^384`.
pub open spec fn bls_fe_from_value(v: nat) -> BlsField {
    let d = digits_of(v, 6);
    BlsField { limbs: [d[0], d[1], d[2], d[3], d[4], d[5]] }
}

/// The element of a canonical value has that value.
pub proof fn lemma_bls_fe_from_value(v: nat)
    requires
        v < bls_modulus(),
    ensures
        bls_fe_from_value(v).value() == v,
        bls_fe_from_value(v).wf(),
{
    assert(limb_base_pow(0) == 1);
    assert(limb_base_pow(1) == 18446744073709551616nat);
    assert(limb_base_pow(2) == 340282366920938463463374607431768211456nat);
    assert(limb_base_pow(3) == 6277101735386680763835789423207666416102355444464034512896nat);
    assert(limb_base_pow(4) == 115792089237316195423570985008687907853269984665640564039457584007913129639936nat);
    assert(limb_base_pow(5) == 2135987035920910082395021706169552114602704522356652769947041607822219725780640550022962086936576nat);
    assert(limb_base_pow(6) == 39402006196394479212279040100143613805079739270465446667948293404245721771497210611414266254884915640806627990306816nat);
    lemma_digits_of(v, 6);
    assert(bls_fe_from_value(v).limbs@ =~= digits_of(v, 6));
}

/// The additive identity, as a spec value.
pub open spec fn bls_fe_zero() -> BlsField {
    BlsField { limbs: [0u64, 0u64, 0u64, 0u64, 0u64, 0u64] }
}

/// An element of `Fq2 = Fq[u] / (u^2 + 1)` over the BLS12-381 base field.
#[derive(Clone, Copy, Debug, PartialEq, Eq)]
pub struct BlsQuad {
    pub c0: BlsField,
    pub c1: BlsField,
}

/// An affine point of BLS12-381's G1 curve, or the point at infinity.
#[derive(Clone, Copy, Debug, PartialEq, Eq)]
pub struct BlsG1Point {
    pub x: BlsField,
    pub y: BlsField,
    pub infinity: bool,
}

/// An affine point of BLS12-381's G2 curve, or the point at infinity.
#[derive(Clone, Copy, Debug, PartialEq, Eq)]
pub struct BlsG2Point {
    pub x: BlsQuad,
    pub y: BlsQuad,
    pub infinity: bool,
}

impl BlsG1Point {
    /// Both coordinates are canonical.
    pub open spec fn wf(self) -> bool {
        self.x.wf() && self.y.wf()
    }
}

impl BlsG2Point {
    /// All four coefficients are canonical.
    pub open spec fn wf(self) -> bool {
        self.x.c0.wf() && self.x.c1.wf() && self.y.c0.wf() && self.y.c1.wf()
    }
}

/// The eight big-endian bytes of a limb.
pub open spec fn be_u64(x: u64) -> Seq<u8> {
    seq![
        ((x >> 56u64) & 0xff) as u8,
        ((x >> 48u64) & 0xff) as u8,
        ((x >> 40u64) & 0xff) as u8,
        ((x >> 32u64) & 0xff) as u8,
        ((x >> 24u64) & 0xff) as u8,
        ((x >> 16u64) & 0xff) as u8,
        ((x >> 8u64) & 0xff) as u8,
        (x & 0xff) as u8,
    ]
}

/// The 48 big-endian bytes of an element: its limbs, most significant first.
pub open spec fn bls_fe_be_bytes(f: BlsField) -> Seq<u8> {
    let l = f.limbs@;
    be_u64(l[5]) + be_u64(l[4]) + be_u64(l[3]) + be_u64(l[2]) + be_u64(l[1]) + be_u64(l[0])
}

/// The canonical value of the additive inverse of a canonical value.
pub open spec fn bls_neg_value(v: nat) -> nat {
    if v == 0 {
        0
    } else {
        (bls_modulus() - v) as nat
    }
}

/// `y > -y` in the field's order, which compares canonical values.
pub open spec fn bls_g1_y_largest(y: BlsField) -> bool {
    y.value() > bls_neg_value(y.value())
}

/// `y > -y` in the quadratic field's order, which compares `c1` first, then `c0`.
pub open spec fn bls_g2_y_largest(y: BlsQuad) -> bool {
    let v1 = y.c1.value();
    let v0 = y.c0.value();
    v1 > bls_neg_value(v1) || (v1 == bls_neg_value(v1) && v0 > bls_neg_value(v0))
}

/// The flag bits of a compressed encoding's first byte: compressed, then
/// infinity, or else whether `y` is the larger root.
pub open spec fn compressed_flags(infinity: bool, largest: bool) -> u8 {
    if infinity {
        0xc0u8
    } else if largest {
        0xa0u8
    } else {
        0x80u8
    }
}

/// The 48-byte compressed encoding of a G1 point: `x` big-endian (zero for
/// the point at infinity), with the flags or'ed into the first byte.
pub open spec fn bls_g1_compressed(p: BlsG1Point) -> Seq<u8> {
    let b = bls_fe_be_bytes(if p.infinity { bls_fe_zero() } else { p.x });
    b.update(0, b[0] | compressed_flags(p.infinity, bls_g1_y_largest(p.y)))
}

/// The 96-byte compressed encoding of a G2 point: `x.c1` then `x.c0`
/// big-endian (zero for the point at infinity), with the flags or'ed into the
/// first byte.
pub open spec fn bls_g2_compressed(p: BlsG2Point) -> Seq<u8> {
    let x = if p.infinity {
        BlsQuad { c0: bls_fe_zero(), c1: bls_fe_zero() }
    } else {
        p.x
    };
    let b = bls_fe_be_bytes(x.c1) + bls_fe_be_bytes(x.c0);
    b.update(0, b[0] | compressed_flags(p.infinity, bls_g2_y_largest(p.y)))
}

/// A product in `Fq2`, on pairs of integers, reduced.
pub open spec fn bls_fq2_mul(a: (int, int), b: (int, int)) -> (int, int) {
    let m = bls_modulus() as int;
    ((a.0 * b.0 - a.1 * b.1) % m, (a.0 * b.1 + a.1 * b.0) % m)
}

/// The point lies on G2's curve `y^2 = x^3 + 4 (1 + u)`; the point at infinity does.
pub open spec fn bls_g2_on_curve(p: BlsG2Point) -> bool {
    let m = bls_modulus() as int;
    let x = (p.x.c0.value() as int, p.x.c1.value() as int);
    let y = (p.y.c0.value() as int, p.y.c1.value() as int);
    let x3 = bls_fq2_mul(bls_fq2_mul(x, x), x);
    p.infinity || bls_fq2_mul(y, y) == ((x3.0 + 4) % m, (x3.1 + 4) % m)
}

/// Converts an integer, given as little-endian bytes, to ark-bls12-381's `Fq`
/// through num-bigint's `BigUint` and ark-ff's `From<BigUint>`, which reduces
/// it modulo the field's modulus (`from_le_bytes_mod_order`, as the source shows).
#[verifier::external_body]
pub(crate) fn bls_fq_from_biguint(le: &[u8]) -> (res: BlsField)
    ensures
        res == bls_fe_from_value(crate::coeffs::le_value(le@) % bls_modulus()),
{
    let f: Fq = BigUint::from_bytes_le(le).into();
    BlsField { limbs: f.into_bigint().0 }
}

/// Writes a G1 point with ark-serialize's `serialize_compressed` on an
/// ark-bls12-381 `G1Affine` built from the coordinates. The contract states the
/// bytes that ark-bls12-381's own serialization writes, as its source shows.
#[verifier::external_body]
pub(crate) fn bls_g1_serialize_compressed(p: &BlsG1Point) -> (res: Vec<u8>)
    requires
        p.wf(),
    ensures
        res@ == bls_g1_compressed(*p),
{
    let a = G1Affine {
        x: Fq::from_bigint(BigInt::new(p.x.limbs)).unwrap(),
        y: Fq::from_bigint(BigInt::new(p.y.limbs)).unwrap(),
        infinity: p.infinity,
    };
    let mut out = Vec::new();
    a.serialize_compressed(&mut out).unwrap();
    out
}

/// Writes a G2 point with ark-serialize's `serialize_compressed` on an
/// ark-bls12-381 `G2Affine` built from the coordinates. The contract states the
/// bytes that ark-bls12-381's own serialization writes, as its source shows.
#[verifier::external_body]
pub(crate) fn bls_g2_serialize_compressed(p: &BlsG2Point) -> (res: Vec<u8>)
    requires
        p.wf(),
    ensures
        res@ == bls_g2_compressed(*p),
{
    let a = G2Affine {
        x: Fq2::new(
            Fq::from_bigint(BigInt::new(p.x.c0.limbs)).unwrap(),
            Fq::from_bigint(BigInt::new(p.x.c1.limbs)).unwrap(),
        ),
        y: Fq2::new(
            Fq::from_bigint(BigInt::new(p.y.c0.limbs)).unwrap(),
            Fq::from_bigint(BigInt::new(p.y.c1.limbs)).unwrap(),
        ),
        infinity: p.infinity,
    };
    let mut out = Vec::new();
    a.serialize_compressed(&mut out).unwrap();
    out
}

/// ark-ec's `is_on_curve` on an ark-bls12-381 `G2Affine` built from the
/// coordinates: the curve equation, as the source computes it.
#[verifier::external_body]
pub(crate) fn bls_g2_is_on_curve(p: &BlsG2Point) -> (res: bool)
    requires
        p.wf(),
    ensures
        res == bls_g2_on_curve(*p),
{
    G2Affine {
        x: Fq2::new(
            Fq::from_bigint(BigInt::new(p.x.c0.limbs)).unwrap(),
            Fq::from_bigint(BigInt::new(p.x.c1.limbs)).unwrap(),
        ),
        y: Fq2::new(
            Fq::from_bigint(BigInt::new(p.y.c0.limbs)).unwrap(),
            Fq::from_bigint(BigInt::new(p.y.c1.limbs)).unwrap(),
        ),
        infinity: p.infinity,
    }.is_on_curve()
}

/// Whether ark-serialize's `deserialize_compressed` (which validates: the
/// point must lie on the curve and in the prime-order subgroup) accepts the
/// bytes as an ark-bls12-381 `G1Affine`.
pub uninterp spec fn bls_g1_compressed_accepted(bytes: Seq<u8>) -> bool;

/// Whether ark-serialize's `deserialize_compressed` (which validates: the
/// point must lie on the curve and in the prime-order subgroup) accepts the
/// bytes as an ark-bls12-381 `G2Affine`.
pub uninterp spec fn bls_g2_compressed_accepted(bytes: Seq<u8>) -> bool;

/// Runs ark-serialize's `deserialize_compressed` for ark-bls12-381's
/// `G1Affine` on the bytes and tells whether it succeeds; the contract names
/// that answer.
#[verifier::external_body]
pub(crate) fn bls_g1_compressed_is_valid(bytes: &[u8]) -> (res: bool)
    ensures
        res == bls_g1_compressed_accepted(bytes@),
{
    G1Affine::deserialize_compressed(bytes).is_ok()
}

/// Runs ark-serialize's `deserialize_compressed` for ark-bls12-381's
/// `G2Affine` on the bytes and tells whether it succeeds; the contract names
/// that answer.
#[verifier::external_body]
pub(crate) fn bls_g2_compressed_is_valid(bytes: &[u8]) -> (res: bool)
    ensures
        res == bls_g2_compressed_accepted(bytes@),
{
    G2Affine::deserialize_compressed(bytes).is_ok()
}

} // verus!
