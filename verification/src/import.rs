//! Building the parameters from a powers-of-tau transcript, and from files of
//! uncompressed points.

use crate::field::{
    BaseField, be_value, canonical_decimal, decimal_value, fe_from_value, fq_from_be_bytes_mod_order,
    fq_from_decimal_str, lemma_fe_from_value, modulus,
};
use crate::point::{
    G1Point, G2Point, QuadField, g1_check, g1_in_prime_order_subgroup, g1_on_curve, g2_check,
    g2_in_prime_order_subgroup, g2_on_curve,
};
use crate::srs::{
    KZGCommitmentScheme, decode_g1_points, decode_g2_points, g1_list_decoding, g2_list_decoding,
};
use vstd::prelude::*;
use vstd::slice::slice_subrange;

verus! {

/// Where the G1 records start in a transcript file.
pub const TRANSCRIPT_G1_OFFSET: u64 = 28;

/// Where the G2 record stands in a transcript file.
pub const TRANSCRIPT_G2_OFFSET: u64 = 322560000 + 28;

/// How many G1 points the import writes: the generator and the transcript's records.
pub const G1_POINT_COUNT: usize = 8192 + 3;

/// How many G1 records the import reads from the transcript.
pub const TRANSCRIPT_G1_RECORDS: usize = 8192 + 2;

/// How many G2 points the import writes: the generator and one transcript record.
pub const G2_POINT_COUNT: usize = 2;

/// A transcript coordinate's 32 bytes hold four 8-byte limbs, least
/// significant limb first; this puts the limbs most significant first and
/// keeps the bytes inside each limb: byte `(3 - j) * 8 + k` of the result is
/// byte `j * 8 + k` of the input.
pub open spec fn limb_reversal(raw: Seq<u8>) -> Seq<u8> {
    Seq::new(32, |i: int| raw[(3 - i / 8) * 8 + i % 8])
}

/// The field element that a transcript coordinate stands for: its limbs
/// reversed, read as a big-endian integer, reduced modulo the field's modulus.
pub open spec fn transcript_coordinate_spec(raw: Seq<u8>) -> BaseField {
    fe_from_value(be_value(limb_reversal(raw)) % modulus())
}

/// Reversing the limb order twice gives the coordinate back.
pub proof fn lemma_limb_reversal_involution(raw: Seq<u8>)
    requires
        raw.len() == 32,
    ensures
        limb_reversal(limb_reversal(raw)) == raw,
{
    assert forall|i: int| 0 <= i < 32 implies #[trigger] limb_reversal(limb_reversal(raw))[i]
        == raw[i] by {
        let j = (3 - i / 8) * 8 + i % 8;
        assert(0 <= j < 32);
        assert((3 - j / 8) * 8 + j % 8 == i);
    }
    assert(limb_reversal(limb_reversal(raw)) =~= raw);
}

/// Reverses the order of the four 8-byte limbs of a 32-byte coordinate.
pub fn limb_reversed(raw: &[u8]) -> (res: Vec<u8>)
    requires
        raw@.len() == 32,
    ensures
        res@ == limb_reversal(raw@),
{
    let mut out: Vec<u8> = Vec::new();
    let mut i: usize = 0;
    while i < 32
        invariant
            i <= 32,
            raw@.len() == 32,
            out@ =~= limb_reversal(raw@).take(i as int),
        decreases 32 - i,
    {
        out.push(raw[(3 - i / 8) * 8 + i % 8]);
        i = i + 1;
    }
    out
}

/// Reads a transcript coordinate as a field element.
pub fn transcript_coordinate(raw: &[u8]) -> (res: BaseField)
    requires
        raw@.len() == 32,
    ensures
        res == transcript_coordinate_spec(raw@),
        res.wf(),
{
    let be = limb_reversed(raw);
    let r = fq_from_be_bytes_mod_order(be.as_slice());
    proof {
        lemma_fe_from_value(be_value(limb_reversal(raw@)) % modulus());
    }
    r
}

/// A point passes the validation that ark-ec's checked constructor asserts.
pub open spec fn g1_valid(p: G1Point) -> bool {
    g1_on_curve(p) && g1_in_prime_order_subgroup(p)
}

/// A point passes the validation that ark-ec's checked constructor asserts.
pub open spec fn g2_valid(p: G2Point) -> bool {
    g2_on_curve(p) && g2_in_prime_order_subgroup(p)
}

/// The generator `(1, 2)` of G1.
pub open spec fn g1_generator_spec() -> G1Point {
    G1Point { x: fe_from_value(1), y: fe_from_value(2), infinity: false }
}

/// The `i`-th G1 point of the transcript's 64-byte records: `x` then `y`.
pub open spec fn transcript_g1_point(records: Seq<u8>, i: int) -> G1Point {
    G1Point {
        x: transcript_coordinate_spec(records.subrange(64 * i, 64 * i + 32)),
        y: transcript_coordinate_spec(records.subrange(64 * i + 32, 64 * i + 64)),
        infinity: false,
    }
}

/// The G1 points that the import writes: the generator, then one point per
/// transcript record.
pub open spec fn transcript_g1_list(records: Seq<u8>) -> Seq<G1Point> {
    seq![g1_generator_spec()] + Seq::new(
        TRANSCRIPT_G1_RECORDS as nat,
        |i: int| transcript_g1_point(records, i),
    )
}

/// The imported G1 list starts with the generator `(1, 2)`, and its point `k`
/// (for `k >= 1`) is the point of the transcript's record `k - 1`: `x` from the
/// record's first 32 bytes, `y` from its last 32, each limb-reversed, read big-endian
/// and reduced.
pub proof fn lemma_transcript_g1_layout(records: Seq<u8>)
    ensures
        transcript_g1_list(records).len() == G1_POINT_COUNT,
        transcript_g1_list(records)[0] == (G1Point {
                x: BaseField { limbs: [1u64, 0u64, 0u64, 0u64] },
                y: BaseField { limbs: [2u64, 0u64, 0u64, 0u64] },
                infinity: false,
            }),
        forall|k: int|
            1 <= k < G1_POINT_COUNT ==> #[trigger] transcript_g1_list(records)[k] == (G1Point {
                x: fe_from_value(be_value(limb_reversal(records.subrange(64 * (k - 1), 64 * (k - 1) + 32))) % modulus()),
                y: fe_from_value(be_value(limb_reversal(records.subrange(64 * (k - 1) + 32, 64 * (k - 1) + 64))) % modulus()),
                infinity: false,
            }),
{
    lemma_fe_from_value(1);
    lemma_fe_from_value(2);
    assert(fe_from_value(1).limbs =~= [1u64, 0u64, 0u64, 0u64]);
    assert(fe_from_value(2).limbs =~= [2u64, 0u64, 0u64, 0u64]);
}

/// Builds the G1 point `(1, 2)`.
fn g1_generator() -> (res: G1Point)
    ensures
        res == g1_generator_spec(),
        res.wf(),
{
    let r = G1Point {
        x: BaseField { limbs: [1u64, 0u64, 0u64, 0u64] },
        y: BaseField { limbs: [2u64, 0u64, 0u64, 0u64] },
        infinity: false,
    };
    proof {
        lemma_fe_from_value(1);
        lemma_fe_from_value(2);
        assert(r.x.limbs =~= fe_from_value(1).limbs);
        assert(r.y.limbs =~= fe_from_value(2).limbs);
    }
    r
}

/// The G1 points of a powers-of-tau transcript: the generator, then one point
/// per 64-byte record of `records` (the transcript from its G1 offset on),
/// each checked as ark-ec's checked constructor does. `None` where the records
/// are too few or a point fails the check.
pub fn transcript_g1_points(records: &[u8]) -> (res: Option<Vec<G1Point>>)
    ensures
        res is Some <==> records@.len() >= 64 * TRANSCRIPT_G1_RECORDS && forall|i: int|
            0 <= i < G1_POINT_COUNT ==> #[trigger] g1_valid(transcript_g1_list(records@)[i]),
        res matches Some(v) ==> v@ == transcript_g1_list(records@),
        res matches Some(v) ==> v@.len() == G1_POINT_COUNT,
        res matches Some(v) ==> v@[0] == (G1Point {
                x: BaseField { limbs: [1u64, 0u64, 0u64, 0u64] },
                y: BaseField { limbs: [2u64, 0u64, 0u64, 0u64] },
                infinity: false,
            }),
        res matches Some(v) ==> (forall|k: int|
            1 <= k < G1_POINT_COUNT ==> #[trigger] v@[k] == (G1Point {
                x: fe_from_value(be_value(limb_reversal(records@.subrange(64 * (k - 1), 64 * (k - 1) + 32))) % modulus()),
                y: fe_from_value(be_value(limb_reversal(records@.subrange(64 * (k - 1) + 32, 64 * (k - 1) + 64))) % modulus()),
                infinity: false,
            })),
        res matches Some(v) ==> forall|i: int| 0 <= i < v@.len() ==> (#[trigger] v@[i]).wf(),
{
    let ghost list = transcript_g1_list(records@);
    proof {
        lemma_transcript_g1_layout(records@);
    }
    if records.len() < 64 * TRANSCRIPT_G1_RECORDS {
        return None;
    }
    let generator = g1_generator();
    assert(list[0] == generator);
    if !g1_check(&generator) {
        assert(!g1_valid(list[0]));
        return None;
    }
    let mut out: Vec<G1Point> = Vec::new();
    out.push(generator);
    let mut i: usize = 0;
    while i < TRANSCRIPT_G1_RECORDS
        invariant
            i <= TRANSCRIPT_G1_RECORDS,
            records@.len() >= 64 * TRANSCRIPT_G1_RECORDS,
            records@.len() == records.len(),
            list == transcript_g1_list(records@),
            out@ =~= list.take(i + 1),
            forall|k: int| 0 <= k < i + 1 ==> #[trigger] g1_valid(list[k]),
            forall|k: int| 0 <= k < out@.len() ==> (#[trigger] out@[k]).wf(),
        decreases TRANSCRIPT_G1_RECORDS - i,
    {
        let x = transcript_coordinate(slice_subrange(records, 64 * i, 64 * i + 32));
        let y = transcript_coordinate(slice_subrange(records, 64 * i + 32, 64 * i + 64));
        let p = G1Point { x, y, infinity: false };
        assert(list[i + 1] == p);
        if !g1_check(&p) {
            assert(!g1_valid(list[i + 1]));
            return None;
        }
        out.push(p);
        i = i + 1;
    }
    assert(out@ =~= list);
    Some(out)
}


/// The G2 generator, whose coefficients the import gives as the decimal
/// numerals below, each reduced modulo the field's modulus.
pub open spec fn g2_generator_spec() -> G2Point {
    G2Point {
        x: QuadField {
            c0: fe_from_value(decimal_value("10857046999023057135944570762232829481370756359578518086990519993285655852781"@) % modulus()),
            c1: fe_from_value(decimal_value("11559732032986387107991004021392285783925812861821192530917403151452391805634"@) % modulus()),
        },
        y: QuadField {
            c0: fe_from_value(decimal_value("8495653923123431417604973247489272438418190587263600148770280649306958101930"@) % modulus()),
            c1: fe_from_value(decimal_value("4082367875863433681332203403145435568316851327593401208105741076214120093531"@) % modulus()),
        },
        infinity: false,
    }
}

/// Parses one coefficient numeral of the G2 generator.
fn g2_generator_coefficient(s: &str) -> (res: BaseField)
    requires
        canonical_decimal(s@),
    ensures
        res == fe_from_value(decimal_value(s@) % modulus()),
        res.wf(),
{
    proof {
        lemma_fe_from_value(decimal_value(s@) % modulus());
    }
    match fq_from_decimal_str(s) {
        Some(f) => f,
        None => {
            proof {
                assert(false);
            }
            BaseField { limbs: [0u64, 0u64, 0u64, 0u64] }
        },
    }
}

/// Builds the G2 generator from its decimal numerals.
fn g2_generator() -> (res: G2Point)
    ensures
        res == g2_generator_spec(),
        res.wf(),
{
    proof {
        reveal_strlit("10857046999023057135944570762232829481370756359578518086990519993285655852781");
        reveal_strlit("11559732032986387107991004021392285783925812861821192530917403151452391805634");
        reveal_strlit("8495653923123431417604973247489272438418190587263600148770280649306958101930");
        reveal_strlit("4082367875863433681332203403145435568316851327593401208105741076214120093531");
    }
    let x0 = g2_generator_coefficient("10857046999023057135944570762232829481370756359578518086990519993285655852781");
    let x1 = g2_generator_coefficient("11559732032986387107991004021392285783925812861821192530917403151452391805634");
    let y0 = g2_generator_coefficient("8495653923123431417604973247489272438418190587263600148770280649306958101930");
    let y1 = g2_generator_coefficient("4082367875863433681332203403145435568316851327593401208105741076214120093531");
    G2Point { x: QuadField { c0: x0, c1: x1 }, y: QuadField { c0: y0, c1: y1 }, infinity: false }
}

/// The G2 point of the transcript's 128-byte record: `x.c0`, `x.c1`, `y.c0`, `y.c1`.
pub open spec fn transcript_g2_point(record: Seq<u8>) -> G2Point {
    G2Point {
        x: QuadField {
            c0: transcript_coordinate_spec(record.subrange(0, 32)),
            c1: transcript_coordinate_spec(record.subrange(32, 64)),
        },
        y: QuadField {
            c0: transcript_coordinate_spec(record.subrange(64, 96)),
            c1: transcript_coordinate_spec(record.subrange(96, 128)),
        },
        infinity: false,
    }
}

/// The G2 points of a powers-of-tau transcript: the generator, then the point
/// of the 128-byte record at the start of `record` (the transcript from its G2
/// offset on), each checked as ark-ec's checked constructor does. `None` where
/// the record is too short or a point fails the check.
pub fn transcript_g2_points(record: &[u8]) -> (res: Option<Vec<G2Point>>)
    ensures
        res is Some <==> record@.len() >= 128 && g2_valid(g2_generator_spec()) && g2_valid(
            transcript_g2_point(record@),
        ),
        res matches Some(v) ==> v@ == seq![g2_generator_spec(), transcript_g2_point(record@)],
        res matches Some(v) ==> v@.len() == 2,
        res matches Some(v) ==> v@[0].x.c0 == fe_from_value(
            decimal_value("10857046999023057135944570762232829481370756359578518086990519993285655852781"@) % modulus(),
        ),
        res matches Some(v) ==> v@[1] == (G2Point {
            x: QuadField { c0: fe_from_value(be_value(limb_reversal(record@.subrange(0, 32))) % modulus()), c1: fe_from_value(be_value(limb_reversal(record@.subrange(32, 64))) % modulus()) },
            y: QuadField { c0: fe_from_value(be_value(limb_reversal(record@.subrange(64, 96))) % modulus()), c1: fe_from_value(be_value(limb_reversal(record@.subrange(96, 128))) % modulus()) },
            infinity: false,
        }),
        res matches Some(v) ==> forall|i: int| 0 <= i < v@.len() ==> (#[trigger] v@[i]).wf(),
{
    let generator = g2_generator();
    if !g2_check(&generator) {
        return None;
    }
    if record.len() < 128 {
        return None;
    }
    let p = G2Point {
        x: QuadField {
            c0: transcript_coordinate(slice_subrange(record, 0, 32)),
            c1: transcript_coordinate(slice_subrange(record, 32, 64)),
        },
        y: QuadField {
            c0: transcript_coordinate(slice_subrange(record, 64, 96)),
            c1: transcript_coordinate(slice_subrange(record, 96, 128)),
        },
        infinity: false,
    };
    if !g2_check(&p) {
        return None;
    }
    let mut out: Vec<G2Point> = Vec::new();
    out.push(generator);
    out.push(p);
    assert(out@ =~= seq![g2_generator_spec(), transcript_g2_point(record@)]);
    Some(out)
}

/// Validated decoding accepts a decoded G1 point: the point at infinity as
/// such, any other point when it passes the check.
pub open spec fn g1_accepted(p: G1Point) -> bool {
    p.infinity || g1_valid(p)
}

/// Validated decoding accepts a decoded G2 point: the point at infinity as
/// such, any other point when it passes the check.
pub open spec fn g2_accepted(p: G2Point) -> bool {
    p.infinity || g2_valid(p)
}

/// The `n` G1 points that the first `64 * n` bytes encode, each validated.
pub open spec fn g1_list_validated(s: Seq<u8>, n: nat) -> Option<Seq<G1Point>> {
    match g1_list_decoding(s, n) {
        Some(ps) => if forall|i: int| 0 <= i < n ==> #[trigger] g1_accepted(ps[i]) {
            Some(ps)
        } else {
            None
        },
        None => None,
    }
}

/// The `n` G2 points that the first `128 * n` bytes encode, each validated.
pub open spec fn g2_list_validated(s: Seq<u8>, n: nat) -> Option<Seq<G2Point>> {
    match g2_list_decoding(s, n) {
        Some(ps) => if forall|i: int| 0 <= i < n ==> #[trigger] g2_accepted(ps[i]) {
            Some(ps)
        } else {
            None
        },
        None => None,
    }
}

/// Validated decoding accepts only what unchecked decoding reads, unchanged.
pub proof fn lemma_validated_refines_unchecked(s: Seq<u8>, n1: nat, t: Seq<u8>, n2: nat)
    ensures
        g1_list_validated(s, n1) is Some ==> g1_list_validated(s, n1) == g1_list_decoding(s, n1),
        g2_list_validated(t, n2) is Some ==> g2_list_validated(t, n2) == g2_list_decoding(t, n2),
{
}

/// Reads `count` G1 points from consecutive 64-byte chunks and validates each
/// as ark-ec's deserialization with `Validate::Yes` does: a point other than
/// the point at infinity must pass the check. `None` where the bytes are too
/// few, a chunk does not decode, or a point fails the check.
pub fn validated_g1_points(bytes: &[u8], count: usize) -> (res: Option<Vec<G1Point>>)
    ensures
        res is Some <==> g1_list_validated(bytes@, count as nat) is Some,
        res matches Some(v) ==> g1_list_validated(bytes@, count as nat) == Some(v@),
{
    let points = match decode_g1_points(bytes, count) {
        Some(v) => v,
        None => {
            return None;
        },
    };
    let ghost ps = points@;
    assert forall|k: int| 0 <= k < ps.len() implies (#[trigger] ps[k]).wf() by {
        crate::point::lemma_g1_decoding_wf(crate::srs::g1_chunk(bytes@, k));
    }
    let mut i: usize = 0;
    while i < count
        invariant
            i <= count,
            points@ == ps,
            ps.len() == count,
            forall|k: int| 0 <= k < ps.len() ==> (#[trigger] ps[k]).wf(),
            forall|k: int| 0 <= k < i ==> #[trigger] g1_accepted(ps[k]),
            g1_list_decoding(bytes@, count as nat) == Some(ps),
        decreases count - i,
    {
        let p = points[i];
        if !p.infinity && !g1_check(&p) {
            assert(!g1_accepted(ps[i as int]));
            return None;
        }
        i = i + 1;
    }
    Some(points)
}

/// Reads `count` G2 points from consecutive 128-byte chunks and validates each
/// as ark-ec's deserialization with `Validate::Yes` does: a point other than
/// the point at infinity must pass the check. `None` where the bytes are too
/// few, a chunk does not decode, or a point fails the check.
pub fn validated_g2_points(bytes: &[u8], count: usize) -> (res: Option<Vec<G2Point>>)
    ensures
        res is Some <==> g2_list_validated(bytes@, count as nat) is Some,
        res matches Some(v) ==> g2_list_validated(bytes@, count as nat) == Some(v@),
{
    let points = match decode_g2_points(bytes, count) {
        Some(v) => v,
        None => {
            return None;
        },
    };
    let ghost ps = points@;
    assert forall|k: int| 0 <= k < ps.len() implies (#[trigger] ps[k]).wf() by {
        crate::point::lemma_g2_decoding_wf(crate::srs::g2_chunk(bytes@, k));
    }
    let mut i: usize = 0;
    while i < count
        invariant
            i <= count,
            points@ == ps,
            ps.len() == count,
            forall|k: int| 0 <= k < ps.len() ==> (#[trigger] ps[k]).wf(),
            forall|k: int| 0 <= k < i ==> #[trigger] g2_accepted(ps[k]),
            g2_list_decoding(bytes@, count as nat) == Some(ps),
        decreases count - i,
    {
        let p = points[i];
        if !p.infinity && !g2_check(&p) {
            assert(!g2_accepted(ps[i as int]));
            return None;
        }
        i = i + 1;
    }
    Some(points)
}

/// The parameters from a file of uncompressed G1 points and a file of
/// uncompressed G2 points: the first `G1_POINT_COUNT` and `G2_POINT_COUNT`
/// points of each, validated. `None` where either file is too short or a point
/// does not decode or fails validation.
pub fn srs_from_point_files(g1_bytes: &[u8], g2_bytes: &[u8]) -> (res: Option<KZGCommitmentScheme>)
    ensures
        res is Some <==> g1_list_validated(g1_bytes@, G1_POINT_COUNT as nat) is Some
            && g2_list_validated(g2_bytes@, G2_POINT_COUNT as nat) is Some,
        res matches Some(s) ==> g1_list_validated(g1_bytes@, G1_POINT_COUNT as nat) == Some(
            s.public_parameter_group_1@,
        ) && g2_list_validated(g2_bytes@, G2_POINT_COUNT as nat) == Some(
            s.public_parameter_group_2@,
        ),
        res matches Some(s) ==> s.wf(),
{
    let g1 = match validated_g1_points(g1_bytes, G1_POINT_COUNT) {
        Some(v) => v,
        None => {
            return None;
        },
    };
    let g2 = match validated_g2_points(g2_bytes, G2_POINT_COUNT) {
        Some(v) => v,
        None => {
            return None;
        },
    };
    proof {
        assert forall|k: int| 0 <= k < g1@.len() implies (#[trigger] g1@[k]).wf() by {
            crate::point::lemma_g1_decoding_wf(crate::srs::g1_chunk(g1_bytes@, k));
        }
        assert forall|k: int| 0 <= k < g2@.len() implies (#[trigger] g2@[k]).wf() by {
            crate::point::lemma_g2_decoding_wf(crate::srs::g2_chunk(g2_bytes@, k));
        }
    }
    Some(KZGCommitmentScheme { public_parameter_group_1: g1, public_parameter_group_2: g2 })
}

} // verus!
