//! Elements of the BN254 base field, held as canonical 64-bit limbs.

use ark_bn254::Fq;
use ark_ff::PrimeField;
use core::str::FromStr;
use vstd::bytes::*;
use vstd::prelude::*;

verus! {

/// The BN254 base field modulus.
pub open spec fn modulus() -> nat {
    21888242871839275222246405745257275088696311157297823662689037894645226208583nat
}

/// An element of the BN254 base field, as the four little-endian 64-bit limbs
/// of its canonical integer value.
#[derive(Clone, Copy, Debug, PartialEq, Eq)]
pub struct BaseField {
    pub limbs: [u64; 4],
}

/// The integer that four little-endian 64-bit limbs spell.
pub open spec fn limbs_value(l: Seq<u64>) -> nat {
    (l[0] + l[1] * 0x1_0000_0000_0000_0000nat + l[2] * 0x1_0000_0000_0000_0000_0000_0000_0000_0000nat
        + l[3] * 0x1_0000_0000_0000_0000_0000_0000_0000_0000_0000_0000_0000_0000nat) as nat
}

impl BaseField {
    /// The integer this element stands for.
    pub open spec fn value(self) -> nat {
        limbs_value(self.limbs@)
    }

    /// The limbs hold a canonical value, below the modulus.
    pub open spec fn wf(self) -> bool {
        self.value() < modulus()
    }
}

/// The additive identity, as a spec value.
pub open spec fn fe_zero() -> BaseField {
    BaseField { limbs: [0u64, 0u64, 0u64, 0u64] }
}

/// The 32 little-endian bytes that spell an element's limbs.
pub open spec fn fe_bytes(f: BaseField) -> Seq<u8> {
    spec_u64_to_le_bytes(f.limbs@[0]) + spec_u64_to_le_bytes(f.limbs@[1]) + spec_u64_to_le_bytes(
        f.limbs@[2],
    ) + spec_u64_to_le_bytes(f.limbs@[3])
}

/// The element whose limbs 32 little-endian bytes spell (whether or not it is canonical).
pub open spec fn fe_from_bytes(s: Seq<u8>) -> BaseField {
    BaseField {
        limbs: [
            spec_u64_from_le_bytes(s.subrange(0, 8)),
            spec_u64_from_le_bytes(s.subrange(8, 16)),
            spec_u64_from_le_bytes(s.subrange(16, 24)),
            spec_u64_from_le_bytes(s.subrange(24, 32)),
        ],
    }
}

/// The integer that a sequence of bytes spells, most significant byte first.
pub open spec fn be_value(s: Seq<u8>) -> nat
    decreases s.len(),
{
    if s.len() == 0 {
        0
    } else {
        be_value(s.drop_last()) * 256 + s.last() as nat
    }
}

/// The canonical value of the additive inverse of a canonical value.
pub open spec fn neg_value(v: nat) -> nat {
    if v == 0 {
        0
    } else {
        (modulus() - v) as nat
    }
}

/// `f <= -f` in the field's order, which compares canonical values.
pub open spec fn fe_le_neg(f: BaseField) -> bool {
    f.value() <= neg_value(f.value())
}

/// Reading back the bytes of an element gives the element.
pub proof fn lemma_fe_bytes_roundtrip(f: BaseField)
    ensures
        fe_bytes(f).len() == 32,
        fe_from_bytes(fe_bytes(f)) == f,
{
    lemma_auto_spec_u64_to_from_le_bytes();
    let s = fe_bytes(f);
    assert(s.subrange(0, 8) =~= spec_u64_to_le_bytes(f.limbs@[0]));
    assert(s.subrange(8, 16) =~= spec_u64_to_le_bytes(f.limbs@[1]));
    assert(s.subrange(16, 24) =~= spec_u64_to_le_bytes(f.limbs@[2]));
    assert(s.subrange(24, 32) =~= spec_u64_to_le_bytes(f.limbs@[3]));
    assert(fe_from_bytes(s).limbs@ =~= f.limbs@);
    assert(fe_from_bytes(s).limbs =~= f.limbs);
}

/// The element that 32 bytes spell is written back as those bytes.
pub proof fn lemma_fe_bytes_of_read(s: Seq<u8>)
    requires
        s.len() == 32,
    ensures
        fe_bytes(fe_from_bytes(s)) == s,
{
    lemma_auto_spec_u64_to_from_le_bytes();
    assert(s.subrange(0, 8).len() == 8);
    assert(s.subrange(8, 16).len() == 8);
    assert(s.subrange(16, 24).len() == 8);
    assert(s.subrange(24, 32).len() == 8);
    let f = fe_from_bytes(s);
    assert(spec_u64_to_le_bytes(f.limbs@[0]) == s.subrange(0, 8));
    assert(spec_u64_to_le_bytes(f.limbs@[1]) == s.subrange(8, 16));
    assert(spec_u64_to_le_bytes(f.limbs@[2]) == s.subrange(16, 24));
    assert(spec_u64_to_le_bytes(f.limbs@[3]) == s.subrange(24, 32));
    assert(fe_bytes(f) =~= s);
}

/// The bytes of zero are 32 zero bytes.
pub proof fn lemma_fe_zero_bytes()
    ensures
        fe_bytes(fe_zero()) == Seq::new(32, |i: int| 0u8),
{
    spec_u64_to_le_bytes_to_open(0u64);
    assert(((0u64 >> 8u64) & 0xff) == 0 && ((0u64 >> 16u64) & 0xff) == 0 && ((0u64 >> 24u64) & 0xff)
        == 0 && ((0u64 >> 32u64) & 0xff) == 0 && ((0u64 >> 40u64) & 0xff) == 0 && ((0u64 >> 48u64)
        & 0xff) == 0 && ((0u64 >> 56u64) & 0xff) == 0 && (0u64 & 0xff) == 0) by (bit_vector);
    assert(spec_u64_to_le_bytes(0u64) =~= Seq::new(8, |i: int| 0u8));
    assert(fe_bytes(fe_zero()) =~= Seq::new(32, |i: int| 0u8));
}

/// In a canonical element the two top bits of the last byte are clear.
pub proof fn lemma_fe_top_byte(f: BaseField)
    requires
        f.wf(),
    ensures
        fe_bytes(f)[31] < 64,
{
    let l3 = f.limbs@[3];
    assert(l3 < 0x4000_0000_0000_0000);
    spec_u64_to_le_bytes_to_open(l3);
    lemma_auto_spec_u64_to_from_le_bytes();
    assert(l3 < 0x4000_0000_0000_0000 ==> ((l3 >> 56u64) & 0xff) < 64) by (bit_vector);
    assert(fe_bytes(f)[31] == spec_u64_to_le_bytes(l3)[7]);
}

/// The element of a value below `2^256`: its four base-`2^64` digits, least significant first.
pub open spec fn fe_from_value(v: nat) -> BaseField {
    let b = 0x1_0000_0000_0000_0000nat;
    BaseField {
        limbs: [
            (v % b) as u64,
            (v / b % b) as u64,
            (v / b / b % b) as u64,
            (v / b / b / b % b) as u64,
        ],
    }
}

/// The digits of a value below `2^256` spell that value.
pub proof fn lemma_fe_from_value(v: nat)
    requires
        v < 0x1_0000_0000_0000_0000_0000_0000_0000_0000_0000_0000_0000_0000_0000_0000_0000_0000nat,
    ensures
        fe_from_value(v).value() == v,
        v < modulus() ==> fe_from_value(v).wf(),
{
    let b = 0x1_0000_0000_0000_0000nat;
    let q1 = v / b;
    let q2 = q1 / b;
    let q3 = q2 / b;
    assert(v == q1 * b + v % b && v % b < b) by (nonlinear_arith)
        requires
            b > 0,
            q1 == v / b,
    ;
    assert(q1 == q2 * b + q1 % b && q1 % b < b) by (nonlinear_arith)
        requires
            b > 0,
            q2 == q1 / b,
    ;
    assert(q2 == q3 * b + q2 % b && q2 % b < b) by (nonlinear_arith)
        requires
            b > 0,
            q3 == q2 / b,
    ;
    assert(q3 < b) by (nonlinear_arith)
        requires
            b == 0x1_0000_0000_0000_0000nat,
            v == q1 * b + v % b,
            q1 == q2 * b + q1 % b,
            q2 == q3 * b + q2 % b,
            v % b < b,
            q1 % b < b,
            q2 % b < b,
            v < b * b * b * b,
    ;
    assert(q3 % b == q3) by (nonlinear_arith)
        requires
            q3 < b,
    ;
    let f = fe_from_value(v);
    assert(f.limbs@[0] == v % b);
    assert(f.limbs@[1] == q1 % b);
    assert(f.limbs@[2] == q2 % b);
    assert(f.limbs@[3] == q3);
    assert(f.value() == v) by (nonlinear_arith)
        requires
            b == 0x1_0000_0000_0000_0000nat,
            f.value() == f.limbs@[0] + f.limbs@[1] * b + f.limbs@[2] * (b * b) + f.limbs@[3] * (b
                * b * b),
            f.limbs@[0] == v % b,
            f.limbs@[1] == q1 % b,
            f.limbs@[2] == q2 % b,
            f.limbs@[3] == q3,
            v == q1 * b + v % b,
            q1 == q2 * b + q1 % b,
            q2 == q3 * b + q2 % b,
    ;
}

/// The characters are a decimal numeral as the field's parser takes it: not
/// empty, only the digits `0` to `9`, and no leading zero unless the numeral is `0`.
pub open spec fn canonical_decimal(s: Seq<char>) -> bool {
    &&& s.len() > 0
    &&& forall|i: int| 0 <= i < s.len() ==> '0' <= #[trigger] s[i] <= '9'
    &&& s.len() == 1 || s[0] != '0'
}

/// The value of a decimal numeral.
pub open spec fn decimal_value(s: Seq<char>) -> nat
    decreases s.len(),
{
    if s.len() == 0 {
        0
    } else {
        decimal_value(s.drop_last()) * 10 + ((s.last() as nat) - ('0' as nat)) as nat
    }
}

/// Parses a decimal numeral with ark-ff's `FromStr` for ark-bn254's `Fq`. As
/// the crate's source shows, it accepts exactly the canonical numerals, and
/// gives the numeral's value reduced modulo the field's modulus.
#[verifier::external_body]
pub(crate) fn fq_from_decimal_str(s: &str) -> (res: Option<BaseField>)
    ensures
        res == (if canonical_decimal(s@) {
            Some(fe_from_value(decimal_value(s@) % modulus()))
        } else {
            None
        }),
{
    match Fq::from_str(s) {
        Ok(f) => Some(BaseField { limbs: f.into_bigint().0 }),
        Err(_) => None,
    }
}

/// Reads 32 bytes as a big-endian integer, reduced modulo the field's modulus,
/// with ark-ff's `from_be_bytes_mod_order` for ark-bn254's `Fq`, as its
/// documentation states.
#[verifier::external_body]
pub(crate) fn fq_from_be_bytes_mod_order(bytes: &[u8]) -> (res: BaseField)
    requires
        bytes@.len() == 32,
    ensures
        res == fe_from_value(be_value(bytes@) % modulus()),
{
    BaseField { limbs: Fq::from_be_bytes_mod_order(bytes).into_bigint().0 }
}

} // verus!
