//! The structured reference string of a KZG commitment scheme, and its binary
//! "unchecked bytes" format: the number of G1 and of G2 parameters as two
//! little-endian `u32`, then each G1 parameter in 64 bytes, then each G2
//! parameter in 128 bytes, all uncompressed.

use crate::point::{
    G1Point, G2Point, g1_decoding, g1_deserialize_unchecked, g1_encoding,
    g1_serialize_uncompressed, g2_decoding, g2_deserialize_unchecked, g2_encoding,
    g2_serialize_uncompressed, lemma_g1_decoding_wf, lemma_g1_reencode, lemma_g1_roundtrip,
    lemma_g2_decoding_wf, lemma_g2_reencode, lemma_g2_roundtrip, g1_chunk_canonical,
    g2_chunk_canonical,
};
use vstd::bytes::*;
use vstd::prelude::*;
use vstd::slice::slice_subrange;

verus! {

/// The concatenated encodings of a list of G1 points.
pub open spec fn g1_list_encoding(ps: Seq<G1Point>) -> Seq<u8>
    decreases ps.len(),
{
    if ps.len() == 0 {
        Seq::empty()
    } else {
        g1_list_encoding(ps.drop_last()) + g1_encoding(ps.last())
    }
}

/// The concatenated encodings of a list of G2 points.
pub open spec fn g2_list_encoding(ps: Seq<G2Point>) -> Seq<u8>
    decreases ps.len(),
{
    if ps.len() == 0 {
        Seq::empty()
    } else {
        g2_list_encoding(ps.drop_last()) + g2_encoding(ps.last())
    }
}

/// The `i`-th 64-byte chunk of a byte sequence.
pub open spec fn g1_chunk(s: Seq<u8>, i: int) -> Seq<u8> {
    s.subrange(64 * i, 64 * i + 64)
}

/// The `i`-th 128-byte chunk of a byte sequence.
pub open spec fn g2_chunk(s: Seq<u8>, i: int) -> Seq<u8> {
    s.subrange(128 * i, 128 * i + 128)
}

/// The `n` G1 points that the first `64 * n` bytes encode, one per 64-byte
/// chunk; `None` where the bytes are too few or a chunk does not decode.
pub open spec fn g1_list_decoding(s: Seq<u8>, n: nat) -> Option<Seq<G1Point>> {
    if 64 * n <= s.len() && forall|i: int|
        0 <= i < n ==> #[trigger] g1_decoding(g1_chunk(s, i)) is Some {
        Some(Seq::new(n, |i: int| g1_decoding(g1_chunk(s, i)).unwrap()))
    } else {
        None
    }
}

/// The `n` G2 points that the first `128 * n` bytes encode, one per 128-byte
/// chunk; `None` where the bytes are too few or a chunk does not decode.
pub open spec fn g2_list_decoding(s: Seq<u8>, n: nat) -> Option<Seq<G2Point>> {
    if 128 * n <= s.len() && forall|i: int|
        0 <= i < n ==> #[trigger] g2_decoding(g2_chunk(s, i)) is Some {
        Some(Seq::new(n, |i: int| g2_decoding(g2_chunk(s, i)).unwrap()))
    } else {
        None
    }
}

/// The unchecked-bytes encoding of the two parameter lists. Each count is
/// written as a `u32`, truncated where it does not fit.
pub open spec fn srs_encoding(g1: Seq<G1Point>, g2: Seq<G2Point>) -> Seq<u8> {
    spec_u32_to_le_bytes(g1.len() as u32) + spec_u32_to_le_bytes(g2.len() as u32)
        + g1_list_encoding(g1) + g2_list_encoding(g2)
}

/// The G1 count that the header of unchecked bytes states.
pub open spec fn header_g1_count(s: Seq<u8>) -> nat {
    spec_u32_from_le_bytes(s.subrange(0, 4)) as nat
}

/// The G2 count that the header of unchecked bytes states.
pub open spec fn header_g2_count(s: Seq<u8>) -> nat {
    spec_u32_from_le_bytes(s.subrange(4, 8)) as nat
}

/// The two parameter lists that unchecked bytes hold: the header's counts of
/// G1 and G2 points read from the bytes that follow it. Bytes past the last
/// point are ignored. `None` where the bytes are too few for the header or
/// the points, or a point does not decode.
pub open spec fn srs_decoding(s: Seq<u8>) -> Option<(Seq<G1Point>, Seq<G2Point>)> {
    if s.len() < 8 {
        None
    } else {
        let n1 = header_g1_count(s);
        let n2 = header_g2_count(s);
        let body = s.subrange(8, s.len() as int);
        if 64 * n1 > body.len() {
            None
        } else {
            match (
                g1_list_decoding(body, n1),
                g2_list_decoding(body.subrange((64 * n1) as int, body.len() as int), n2),
            ) {
                (Some(a), Some(b)) => Some((a, b)),
                _ => None,
            }
        }
    }
}

/// The chunks of a list encoding are the encodings of the points, whatever follows it.
pub proof fn lemma_g1_list_encoding_chunks(ps: Seq<G1Point>, rest: Seq<u8>)
    requires
        forall|i: int| 0 <= i < ps.len() ==> (#[trigger] ps[i]).wf(),
    ensures
        g1_list_encoding(ps).len() == 64 * ps.len(),
        forall|i: int|
            0 <= i < ps.len() ==> #[trigger] g1_chunk(g1_list_encoding(ps) + rest, i)
                == g1_encoding(ps[i]),
    decreases ps.len(),
{
    if ps.len() > 0 {
        let init = ps.drop_last();
        let last = g1_encoding(ps.last());
        lemma_g1_roundtrip(ps.last());
        lemma_g1_list_encoding_chunks(init, last + rest);
        let e = g1_list_encoding(init);
        assert(g1_list_encoding(ps) + rest =~= e + (last + rest));
        assert forall|i: int| 0 <= i < ps.len() implies #[trigger] g1_chunk(
            g1_list_encoding(ps) + rest,
            i,
        ) == g1_encoding(ps[i]) by {
            if i < ps.len() - 1 {
                assert(init[i] == ps[i]);
            } else {
                assert(g1_chunk(g1_list_encoding(ps) + rest, i) =~= last);
            }
        }
    }
}

/// The chunks of a list encoding are the encodings of the points, whatever follows it.
pub proof fn lemma_g2_list_encoding_chunks(ps: Seq<G2Point>, rest: Seq<u8>)
    requires
        forall|i: int| 0 <= i < ps.len() ==> (#[trigger] ps[i]).wf(),
    ensures
        g2_list_encoding(ps).len() == 128 * ps.len(),
        forall|i: int|
            0 <= i < ps.len() ==> #[trigger] g2_chunk(g2_list_encoding(ps) + rest, i)
                == g2_encoding(ps[i]),
    decreases ps.len(),
{
    if ps.len() > 0 {
        let init = ps.drop_last();
        let last = g2_encoding(ps.last());
        lemma_g2_roundtrip(ps.last());
        lemma_g2_list_encoding_chunks(init, last + rest);
        let e = g2_list_encoding(init);
        assert(g2_list_encoding(ps) + rest =~= e + (last + rest));
        assert forall|i: int| 0 <= i < ps.len() implies #[trigger] g2_chunk(
            g2_list_encoding(ps) + rest,
            i,
        ) == g2_encoding(ps[i]) by {
            if i < ps.len() - 1 {
                assert(init[i] == ps[i]);
            } else {
                assert(g2_chunk(g2_list_encoding(ps) + rest, i) =~= last);
            }
        }
    }
}

/// Decoding a list encoding, followed by anything, gives the list back.
pub proof fn lemma_g1_list_roundtrip(ps: Seq<G1Point>, rest: Seq<u8>)
    requires
        forall|i: int| 0 <= i < ps.len() ==> (#[trigger] ps[i]).wf(),
    ensures
        g1_list_decoding(g1_list_encoding(ps) + rest, ps.len()) == Some(ps),
{
    lemma_g1_list_encoding_chunks(ps, rest);
    let s = g1_list_encoding(ps) + rest;
    assert forall|i: int| 0 <= i < ps.len() implies #[trigger] g1_decoding(g1_chunk(s, i))
        == Some(ps[i]) by {
        lemma_g1_roundtrip(ps[i]);
    }
    assert(Seq::new(ps.len(), |i: int| g1_decoding(g1_chunk(s, i)).unwrap()) =~= ps);
}

/// Decoding a list encoding, followed by anything, gives the list back.
pub proof fn lemma_g2_list_roundtrip(ps: Seq<G2Point>, rest: Seq<u8>)
    requires
        forall|i: int| 0 <= i < ps.len() ==> (#[trigger] ps[i]).wf(),
    ensures
        g2_list_decoding(g2_list_encoding(ps) + rest, ps.len()) == Some(ps),
{
    lemma_g2_list_encoding_chunks(ps, rest);
    let s = g2_list_encoding(ps) + rest;
    assert forall|i: int| 0 <= i < ps.len() implies #[trigger] g2_decoding(g2_chunk(s, i))
        == Some(ps[i]) by {
        lemma_g2_roundtrip(ps[i]);
    }
    assert(Seq::new(ps.len(), |i: int| g2_decoding(g2_chunk(s, i)).unwrap()) =~= ps);
}

/// Reading back the unchecked bytes of well-formed parameter lists, whose
/// counts fit in a `u32`, gives the lists back.
pub proof fn lemma_srs_roundtrip(g1: Seq<G1Point>, g2: Seq<G2Point>)
    requires
        forall|i: int| 0 <= i < g1.len() ==> (#[trigger] g1[i]).wf(),
        forall|i: int| 0 <= i < g2.len() ==> (#[trigger] g2[i]).wf(),
        g1.len() <= u32::MAX,
        g2.len() <= u32::MAX,
    ensures
        srs_decoding(srs_encoding(g1, g2)) == Some((g1, g2)),
{
    lemma_auto_spec_u32_to_from_le_bytes();
    let h1 = spec_u32_to_le_bytes(g1.len() as u32);
    let h2 = spec_u32_to_le_bytes(g2.len() as u32);
    let e1 = g1_list_encoding(g1);
    let e2 = g2_list_encoding(g2);
    let s = srs_encoding(g1, g2);
    lemma_g1_list_encoding_chunks(g1, e2);
    lemma_g2_list_encoding_chunks(g2, Seq::empty());
    lemma_g1_list_roundtrip(g1, e2);
    lemma_g2_list_roundtrip(g2, Seq::empty());
    assert(s.subrange(0, 4) =~= h1);
    assert(s.subrange(4, 8) =~= h2);
    let body = s.subrange(8, s.len() as int);
    assert(body =~= e1 + e2);
    assert(body.subrange((64 * g1.len()) as int, body.len() as int) =~= e2 + Seq::empty());
}

/// The unchecked bytes of well-formed parameter lists have eight header bytes,
/// 64 bytes per G1 point and 128 bytes per G2 point.
pub proof fn lemma_srs_encoding_len(g1: Seq<G1Point>, g2: Seq<G2Point>)
    requires
        forall|i: int| 0 <= i < g1.len() ==> (#[trigger] g1[i]).wf(),
        forall|i: int| 0 <= i < g2.len() ==> (#[trigger] g2[i]).wf(),
    ensures
        srs_encoding(g1, g2).len() == 8 + 64 * g1.len() + 128 * g2.len(),
{
    lemma_auto_spec_u32_to_from_le_bytes();
    lemma_g1_list_encoding_chunks(g1, Seq::empty());
    lemma_g2_list_encoding_chunks(g2, Seq::empty());
}

/// Where each part lands in the unchecked bytes of well-formed parameter lists:
/// the G1 count in bytes `0..4`, the G2 count in bytes `4..8`, G1 point `i` in
/// the 64 bytes at `8 + 64 i`, and G2 point `i` in the 128 bytes at
/// `8 + 64 |g1| + 128 i`, each list in its order.
pub proof fn lemma_srs_encoding_layout(g1: Seq<G1Point>, g2: Seq<G2Point>)
    requires
        forall|i: int| 0 <= i < g1.len() ==> (#[trigger] g1[i]).wf(),
        forall|i: int| 0 <= i < g2.len() ==> (#[trigger] g2[i]).wf(),
    ensures
        srs_encoding(g1, g2).len() == 8 + 64 * g1.len() + 128 * g2.len(),
        srs_encoding(g1, g2).subrange(0, 4) == spec_u32_to_le_bytes(g1.len() as u32),
        srs_encoding(g1, g2).subrange(4, 8) == spec_u32_to_le_bytes(g2.len() as u32),
        forall|i: int|
            0 <= i < g1.len() ==> #[trigger] srs_encoding(g1, g2).subrange(8 + 64 * i, 8 + 64 * i + 64)
                == g1_encoding(g1[i]),
        forall|i: int|
            0 <= i < g2.len() ==> #[trigger] srs_encoding(g1, g2).subrange(
                8 + 64 * g1.len() + 128 * i,
                8 + 64 * g1.len() + 128 * i + 128,
            ) == g2_encoding(g2[i]),
{
    lemma_auto_spec_u32_to_from_le_bytes();
    let h1 = spec_u32_to_le_bytes(g1.len() as u32);
    let h2 = spec_u32_to_le_bytes(g2.len() as u32);
    let e1 = g1_list_encoding(g1);
    let e2 = g2_list_encoding(g2);
    let s = srs_encoding(g1, g2);
    lemma_g1_list_encoding_chunks(g1, e2);
    lemma_g2_list_encoding_chunks(g2, Seq::empty());
    assert(s =~= h1 + h2 + (e1 + e2));
    assert(s.subrange(0, 4) =~= h1);
    assert(s.subrange(4, 8) =~= h2);
    assert forall|i: int| 0 <= i < g1.len() implies #[trigger] s.subrange(8 + 64 * i, 8 + 64 * i + 64)
        == g1_encoding(g1[i]) by {
        assert(s.subrange(8 + 64 * i, 8 + 64 * i + 64) =~= g1_chunk(e1 + e2, i));
    }
    assert forall|i: int| 0 <= i < g2.len() implies #[trigger] s.subrange(
        8 + 64 * g1.len() + 128 * i,
        8 + 64 * g1.len() + 128 * i + 128,
    ) == g2_encoding(g2[i]) by {
        assert(s.subrange(8 + 64 * g1.len() + 128 * i, 8 + 64 * g1.len() + 128 * i + 128)
            =~= g2_chunk(e2 + Seq::empty(), i));
    }
}

/// What unchecked bytes hold, read off the bytes: as many G1 points as the
/// `u32` in bytes `0..4` says, G1 point `i` decoded from the 64 bytes at
/// `8 + 64 i`; as many G2 points as the `u32` in bytes `4..8` says, G2 point
/// `i` decoded from the 128 bytes at `8 + 64 n1 + 128 i`.
pub proof fn lemma_srs_decoding_layout(s: Seq<u8>)
    ensures
        srs_decoding(s) matches Some((a, b)) ==> {
            let n1 = spec_u32_from_le_bytes(s.subrange(0, 4)) as int;
            let n2 = spec_u32_from_le_bytes(s.subrange(4, 8)) as int;
            &&& a.len() == n1
            &&& b.len() == n2
            &&& 8 + 64 * n1 + 128 * n2 <= s.len()
            &&& forall|i: int|
                0 <= i < n1 ==> #[trigger] a[i] == g1_decoding(
                    s.subrange(8 + 64 * i, 8 + 64 * i + 64),
                ).unwrap()
            &&& forall|i: int|
                0 <= i < n2 ==> #[trigger] b[i] == g2_decoding(
                    s.subrange(8 + 64 * n1 + 128 * i, 8 + 64 * n1 + 128 * i + 128),
                ).unwrap()
        },
{
    if let Some((a, b)) = srs_decoding(s) {
        let n1 = header_g1_count(s);
        let n2 = header_g2_count(s);
        let body = s.subrange(8, s.len() as int);
        let rest = body.subrange((64 * n1) as int, body.len() as int);
        assert forall|i: int| 0 <= i < n1 implies #[trigger] a[i] == g1_decoding(
            s.subrange(8 + 64 * i, 8 + 64 * i + 64),
        ).unwrap() by {
            assert(g1_chunk(body, i) =~= s.subrange(8 + 64 * i, 8 + 64 * i + 64));
        }
        assert forall|i: int| 0 <= i < n2 implies #[trigger] b[i] == g2_decoding(
            s.subrange(8 + 64 * n1 + 128 * i, 8 + 64 * n1 + 128 * i + 128),
        ).unwrap() by {
            assert(g2_chunk(rest, i) =~= s.subrange(
                8 + 64 * n1 + 128 * i,
                8 + 64 * n1 + 128 * i + 128,
            ));
        }
    }
}

/// Bytes after the last counted point do not change what unchecked bytes hold.
pub proof fn lemma_srs_decoding_ignores_trailing_bytes(s: Seq<u8>, extra: Seq<u8>)
    requires
        srs_decoding(s) is Some,
    ensures
        srs_decoding(s + extra) == srs_decoding(s),
{
    let t = s + extra;
    assert(t.subrange(0, 4) =~= s.subrange(0, 4));
    assert(t.subrange(4, 8) =~= s.subrange(4, 8));
    let n1 = header_g1_count(s);
    let n2 = header_g2_count(s);
    let body = s.subrange(8, s.len() as int);
    let tbody = t.subrange(8, t.len() as int);
    assert(tbody =~= body + extra);
    assert forall|i: int| 0 <= i < n1 implies #[trigger] g1_chunk(tbody, i) == g1_chunk(body, i) by {
        assert(g1_chunk(tbody, i) =~= g1_chunk(body, i));
    }
    let rest = body.subrange((64 * n1) as int, body.len() as int);
    let trest = tbody.subrange((64 * n1) as int, tbody.len() as int);
    assert(trest =~= rest + extra);
    assert forall|i: int| 0 <= i < n2 implies #[trigger] g2_chunk(trest, i) == g2_chunk(rest, i) by {
        assert(g2_chunk(trest, i) =~= g2_chunk(rest, i));
    }
    assert(g1_list_decoding(tbody, n1) == g1_list_decoding(body, n1));
    assert(g2_list_decoding(trest, n2) == g2_list_decoding(rest, n2));
}

/// Encoding the points that `n` canonical 64-byte chunks decode to gives the chunks back.
pub proof fn lemma_g1_list_reencode(s: Seq<u8>, n: nat)
    requires
        64 * n <= s.len(),
        forall|i: int| 0 <= i < n ==> g1_chunk_canonical(#[trigger] g1_chunk(s, i)),
    ensures
        g1_list_encoding(Seq::new(n, |i: int| g1_decoding(g1_chunk(s, i)).unwrap())) == s.subrange(
            0,
            (64 * n) as int,
        ),
    decreases n,
{
    let ps = Seq::new(n, |i: int| g1_decoding(g1_chunk(s, i)).unwrap());
    if n == 0 {
        assert(s.subrange(0, 0) =~= Seq::<u8>::empty());
    } else {
        let m = (n - 1) as nat;
        lemma_g1_list_reencode(s, m);
        assert(ps.drop_last() =~= Seq::new(m, |i: int| g1_decoding(g1_chunk(s, i)).unwrap()));
        lemma_g1_reencode(g1_chunk(s, m as int));
        assert(s.subrange(0, (64 * n) as int) =~= s.subrange(0, (64 * m) as int) + g1_chunk(s, m as int));
    }
}

/// Encoding the points that `n` canonical 128-byte chunks decode to gives the chunks back.
pub proof fn lemma_g2_list_reencode(s: Seq<u8>, n: nat)
    requires
        128 * n <= s.len(),
        forall|i: int| 0 <= i < n ==> g2_chunk_canonical(#[trigger] g2_chunk(s, i)),
    ensures
        g2_list_encoding(Seq::new(n, |i: int| g2_decoding(g2_chunk(s, i)).unwrap())) == s.subrange(
            0,
            (128 * n) as int,
        ),
    decreases n,
{
    let ps = Seq::new(n, |i: int| g2_decoding(g2_chunk(s, i)).unwrap());
    if n == 0 {
        assert(s.subrange(0, 0) =~= Seq::<u8>::empty());
    } else {
        let m = (n - 1) as nat;
        lemma_g2_list_reencode(s, m);
        assert(ps.drop_last() =~= Seq::new(m, |i: int| g2_decoding(g2_chunk(s, i)).unwrap()));
        lemma_g2_reencode(g2_chunk(s, m as int));
        assert(s.subrange(0, (128 * n) as int) =~= s.subrange(0, (128 * m) as int) + g2_chunk(s, m as int));
    }
}

/// How many bytes of unchecked bytes the header and the points it counts take.
pub open spec fn srs_used_len(s: Seq<u8>) -> int {
    (8 + 64 * header_g1_count(s) + 128 * header_g2_count(s)) as int
}

/// Every point chunk that the header of unchecked bytes counts is a canonical
/// encoding (see `g1_chunk_canonical` and `g2_chunk_canonical`).
pub open spec fn srs_chunks_canonical(s: Seq<u8>) -> bool {
    let n1 = header_g1_count(s);
    let body = s.subrange(8, s.len() as int);
    let rest = body.subrange((64 * n1) as int, body.len() as int);
    &&& forall|i: int| 0 <= i < n1 ==> g1_chunk_canonical(#[trigger] g1_chunk(body, i))
    &&& forall|i: int| 0 <= i < header_g2_count(s) ==> g2_chunk_canonical(#[trigger] g2_chunk(rest, i))
}

/// Writing back the parameters read from unchecked bytes whose point chunks are
/// canonical gives the bytes that the header and the points take: all the
/// bytes when nothing follows the last point.
pub proof fn lemma_srs_reencode(s: Seq<u8>)
    requires
        srs_decoding(s) is Some,
        srs_chunks_canonical(s),
    ensures
        srs_used_len(s) <= s.len(),
        srs_encoding(srs_decoding(s).unwrap().0, srs_decoding(s).unwrap().1) == s.subrange(
            0,
            srs_used_len(s),
        ),
{
    lemma_auto_spec_u32_to_from_le_bytes();
    let n1 = header_g1_count(s);
    let n2 = header_g2_count(s);
    let body = s.subrange(8, s.len() as int);
    let rest = body.subrange((64 * n1) as int, body.len() as int);
    lemma_g1_list_reencode(body, n1);
    lemma_g2_list_reencode(rest, n2);
    let (g1, g2) = srs_decoding(s).unwrap();
    assert(s.subrange(0, 4).len() == 4);
    assert(s.subrange(4, 8).len() == 4);
    assert(spec_u32_to_le_bytes(g1.len() as u32) == s.subrange(0, 4));
    assert(spec_u32_to_le_bytes(g2.len() as u32) == s.subrange(4, 8));
    assert(s.subrange(0, srs_used_len(s)) =~= s.subrange(0, 4) + s.subrange(4, 8) + body.subrange(
        0,
        (64 * n1) as int,
    ) + rest.subrange(0, (128 * n2) as int));
}

/// Writes each point's 64-byte uncompressed encoding, in order.
pub fn encode_g1_points(points: &[G1Point]) -> (res: Vec<u8>)
    requires
        forall|i: int| 0 <= i < points@.len() ==> (#[trigger] points@[i]).wf(),
    ensures
        res@ == g1_list_encoding(points@),
{
    let mut out: Vec<u8> = Vec::new();
    let mut i: usize = 0;
    while i < points.len()
        invariant
            i <= points@.len(),
            forall|k: int| 0 <= k < points@.len() ==> (#[trigger] points@[k]).wf(),
            out@ == g1_list_encoding(points@.take(i as int)),
        decreases points@.len() - i,
    {
        let mut e = g1_serialize_uncompressed(&points[i]);
        out.append(&mut e);
        proof {
            assert(points@.take(i + 1).drop_last() =~= points@.take(i as int));
        }
        i = i + 1;
    }
    proof {
        assert(points@.take(i as int) =~= points@);
    }
    out
}

/// Writes each point's 128-byte uncompressed encoding, in order.
pub fn encode_g2_points(points: &[G2Point]) -> (res: Vec<u8>)
    requires
        forall|i: int| 0 <= i < points@.len() ==> (#[trigger] points@[i]).wf(),
    ensures
        res@ == g2_list_encoding(points@),
{
    let mut out: Vec<u8> = Vec::new();
    let mut i: usize = 0;
    while i < points.len()
        invariant
            i <= points@.len(),
            forall|k: int| 0 <= k < points@.len() ==> (#[trigger] points@[k]).wf(),
            out@ == g2_list_encoding(points@.take(i as int)),
        decreases points@.len() - i,
    {
        let mut e = g2_serialize_uncompressed(&points[i]);
        out.append(&mut e);
        proof {
            assert(points@.take(i + 1).drop_last() =~= points@.take(i as int));
        }
        i = i + 1;
    }
    proof {
        assert(points@.take(i as int) =~= points@);
    }
    out
}

/// Reads `count` G1 points from consecutive 64-byte chunks at the start of
/// `bytes`, without validation; `None` where the bytes are too few or a chunk
/// does not decode.
pub fn decode_g1_points(bytes: &[u8], count: usize) -> (res: Option<Vec<G1Point>>)
    ensures
        res is Some <==> g1_list_decoding(bytes@, count as nat) is Some,
        res matches Some(v) ==> g1_list_decoding(bytes@, count as nat) == Some(v@),
        res matches Some(v) ==> v@.len() == count,
        res matches Some(v) ==> (forall|i: int|
            0 <= i < count ==> #[trigger] v@[i] == g1_decoding(
                bytes@.subrange(64 * i, 64 * i + 64),
            ).unwrap()),
{
    if count > bytes.len() / 64 {
        proof {
            assert(64 * count > bytes@.len()) by (nonlinear_arith)
                requires
                    count > bytes@.len() / 64,
            ;
        }
        return None;
    }
    proof {
        assert(64 * count <= bytes@.len()) by (nonlinear_arith)
            requires
                count <= bytes@.len() / 64,
        ;
    }
    let mut out: Vec<G1Point> = Vec::new();
    let mut i: usize = 0;
    while i < count
        invariant
            i <= count,
            64 * count <= bytes@.len(),
            bytes@.len() == bytes.len(),
            out@ =~= Seq::new(i as nat, |k: int| g1_decoding(g1_chunk(bytes@, k)).unwrap()),
            forall|k: int| 0 <= k < i ==> #[trigger] g1_decoding(g1_chunk(bytes@, k)) is Some,
        decreases count - i,
    {
        assert(64 * i + 64 <= 64 * count);
        let chunk = slice_subrange(bytes, 64 * i, 64 * i + 64);
        assert(chunk@ == g1_chunk(bytes@, i as int));
        match g1_deserialize_unchecked(chunk) {
            Some(p) => {
                out.push(p);
            },
            None => {
                return None;
            },
        }
        i = i + 1;
    }
    Some(out)
}

/// Reads `count` G2 points from consecutive 128-byte chunks at the start of
/// `bytes`, without validation; `None` where the bytes are too few or a chunk
/// does not decode.
pub fn decode_g2_points(bytes: &[u8], count: usize) -> (res: Option<Vec<G2Point>>)
    ensures
        res is Some <==> g2_list_decoding(bytes@, count as nat) is Some,
        res matches Some(v) ==> g2_list_decoding(bytes@, count as nat) == Some(v@),
        res matches Some(v) ==> v@.len() == count,
        res matches Some(v) ==> (forall|i: int|
            0 <= i < count ==> #[trigger] v@[i] == g2_decoding(
                bytes@.subrange(128 * i, 128 * i + 128),
            ).unwrap()),
{
    if count > bytes.len() / 128 {
        proof {
            assert(128 * count > bytes@.len()) by (nonlinear_arith)
                requires
                    count > bytes@.len() / 128,
            ;
        }
        return None;
    }
    proof {
        assert(128 * count <= bytes@.len()) by (nonlinear_arith)
            requires
                count <= bytes@.len() / 128,
        ;
    }
    let mut out: Vec<G2Point> = Vec::new();
    let mut i: usize = 0;
    while i < count
        invariant
            i <= count,
            128 * count <= bytes@.len(),
            bytes@.len() == bytes.len(),
            out@ =~= Seq::new(i as nat, |k: int| g2_decoding(g2_chunk(bytes@, k)).unwrap()),
            forall|k: int| 0 <= k < i ==> #[trigger] g2_decoding(g2_chunk(bytes@, k)) is Some,
        decreases count - i,
    {
        assert(128 * i + 128 <= 128 * count);
        let chunk = slice_subrange(bytes, 128 * i, 128 * i + 128);
        assert(chunk@ == g2_chunk(bytes@, i as int));
        match g2_deserialize_unchecked(chunk) {
            Some(p) => {
                out.push(p);
            },
            None => {
                return None;
            },
        }
        i = i + 1;
    }
    Some(out)
}

/// KZG commitment scheme style: the powers of the secret in G1 and in G2.
pub struct KZGCommitmentScheme {
    pub public_parameter_group_1: Vec<G1Point>,
    pub public_parameter_group_2: Vec<G2Point>,
}

impl KZGCommitmentScheme {
    /// Every parameter is a well-formed point.
    pub open spec fn wf(&self) -> bool {
        &&& forall|i: int|
            0 <= i < self.public_parameter_group_1@.len()
                ==> (#[trigger] self.public_parameter_group_1@[i]).wf()
        &&& forall|i: int|
            0 <= i < self.public_parameter_group_2@.len()
                ==> (#[trigger] self.public_parameter_group_2@[i]).wf()
    }

    /// serialize the parameters to unchecked bytes.
    pub fn to_unchecked_bytes(&self) -> (res: Vec<u8>)
        requires
            self.wf(),
        ensures
            res@ == srs_encoding(self.public_parameter_group_1@, self.public_parameter_group_2@),
            res@.len() == 8 + 64 * self.public_parameter_group_1@.len() + 128
                * self.public_parameter_group_2@.len(),
            res@.subrange(0, 4) == spec_u32_to_le_bytes(self.public_parameter_group_1@.len() as u32),
            res@.subrange(4, 8) == spec_u32_to_le_bytes(self.public_parameter_group_2@.len() as u32),
            forall|i: int|
                0 <= i < self.public_parameter_group_1@.len() ==> #[trigger] res@.subrange(
                    8 + 64 * i,
                    8 + 64 * i + 64,
                ) == g1_encoding(self.public_parameter_group_1@[i]),
            forall|i: int|
                0 <= i < self.public_parameter_group_2@.len() ==> #[trigger] res@.subrange(
                    8 + 64 * self.public_parameter_group_1@.len() + 128 * i,
                    8 + 64 * self.public_parameter_group_1@.len() + 128 * i + 128,
                ) == g2_encoding(self.public_parameter_group_2@[i]),
    {
        proof {
            lemma_srs_encoding_len(self.public_parameter_group_1@, self.public_parameter_group_2@);
            lemma_srs_encoding_layout(self.public_parameter_group_1@, self.public_parameter_group_2@);
        }
        let mut bytes: Vec<u8> = Vec::new();
        let len_1 = self.public_parameter_group_1.len() as u32;
        let len_2 = self.public_parameter_group_2.len() as u32;
        let mut h1 = u32_to_le_bytes(len_1);
        let mut h2 = u32_to_le_bytes(len_2);
        bytes.append(&mut h1);
        bytes.append(&mut h2);
        let mut p1 = encode_g1_points(self.public_parameter_group_1.as_slice());
        let mut p2 = encode_g2_points(self.public_parameter_group_2.as_slice());
        bytes.append(&mut p1);
        bytes.append(&mut p2);
        bytes
    }

    /// Reads parameters from unchecked bytes, without validating the points;
    /// `None` where the bytes are too few or a point does not decode.
    pub fn try_from_unchecked_bytes(bytes: &[u8]) -> (res: Option<Self>)
        ensures
            res is Some <==> srs_decoding(bytes@) is Some,
            res matches Some(s) ==> srs_decoding(bytes@) == Some(
                (s.public_parameter_group_1@, s.public_parameter_group_2@),
            ),
            res matches Some(s) ==> s.wf(),
            res matches Some(s) ==> s.public_parameter_group_1@.len() == spec_u32_from_le_bytes(bytes@.subrange(0, 4)),
            res matches Some(s) ==> s.public_parameter_group_2@.len() == spec_u32_from_le_bytes(bytes@.subrange(4, 8)),
            res matches Some(s) ==> (forall|i: int|
                0 <= i < spec_u32_from_le_bytes(bytes@.subrange(0, 4)) ==> #[trigger] s.public_parameter_group_1@[i] == g1_decoding(
                    bytes@.subrange(8 + 64 * i, 8 + 64 * i + 64),
                ).unwrap()),
            res matches Some(s) ==> (forall|i: int|
                0 <= i < spec_u32_from_le_bytes(bytes@.subrange(4, 8)) ==> #[trigger] s.public_parameter_group_2@[i] == g2_decoding(
                    bytes@.subrange(8 + 64 * spec_u32_from_le_bytes(bytes@.subrange(0, 4)) + 128 * i, 8 + 64 * spec_u32_from_le_bytes(bytes@.subrange(0, 4)) + 128 * i + 128),
                ).unwrap()),
    {
        proof {
            lemma_srs_decoding_layout(bytes@);
        }
        if bytes.len() < 8 {
            return None;
        }
        let len_1 = u32_from_le_bytes(slice_subrange(bytes, 0, 4)) as usize;
        let len_2 = u32_from_le_bytes(slice_subrange(bytes, 4, 8)) as usize;
        let ghost s = bytes@;
        let body = slice_subrange(bytes, 8, bytes.len());
        assert(body@ == s.subrange(8, s.len() as int));
        if len_1 > body.len() / 64 {
            proof {
                assert(64 * len_1 > body@.len()) by (nonlinear_arith)
                    requires
                        len_1 > body@.len() / 64,
                ;
            }
            return None;
        }
        proof {
            assert(64 * len_1 <= body@.len()) by (nonlinear_arith)
                requires
                    len_1 <= body@.len() / 64,
            ;
        }
        let rest = slice_subrange(body, 64 * len_1, body.len());
        let p1 = match decode_g1_points(body, len_1) {
            Some(v) => v,
            None => {
                return None;
            },
        };
        let p2 = match decode_g2_points(rest, len_2) {
            Some(v) => v,
            None => {
                return None;
            },
        };
        proof {
            assert forall|i: int| 0 <= i < p1@.len() implies (#[trigger] p1@[i]).wf() by {
                lemma_g1_decoding_wf(g1_chunk(body@, i));
            }
            assert forall|i: int| 0 <= i < p2@.len() implies (#[trigger] p2@[i]).wf() by {
                lemma_g2_decoding_wf(g2_chunk(rest@, i));
            }
        }
        Some(KZGCommitmentScheme { public_parameter_group_1: p1, public_parameter_group_2: p2 })
    }

    /// Reads parameters from unchecked bytes, without validating the points.
    /// The bytes must hold the header and every point it counts.
    pub fn from_unchecked_bytes(bytes: &[u8]) -> (res: Self)
        requires
            srs_decoding(bytes@) is Some,
        ensures
            srs_decoding(bytes@) == Some(
                (res.public_parameter_group_1@, res.public_parameter_group_2@),
            ),
            res.wf(),
            res.public_parameter_group_1@.len() == spec_u32_from_le_bytes(bytes@.subrange(0, 4)),
            res.public_parameter_group_2@.len() == spec_u32_from_le_bytes(bytes@.subrange(4, 8)),
            (forall|i: int|
                0 <= i < spec_u32_from_le_bytes(bytes@.subrange(0, 4)) ==> #[trigger] res.public_parameter_group_1@[i] == g1_decoding(
                    bytes@.subrange(8 + 64 * i, 8 + 64 * i + 64),
                ).unwrap()),
            (forall|i: int|
                0 <= i < spec_u32_from_le_bytes(bytes@.subrange(4, 8)) ==> #[trigger] res.public_parameter_group_2@[i] == g2_decoding(
                    bytes@.subrange(8 + 64 * spec_u32_from_le_bytes(bytes@.subrange(0, 4)) + 128 * i, 8 + 64 * spec_u32_from_le_bytes(bytes@.subrange(0, 4)) + 128 * i + 128),
                ).unwrap()),
    {
        proof {
            lemma_srs_decoding_layout(bytes@);
        }
        match Self::try_from_unchecked_bytes(bytes) {
            Some(s) => s,
            None => {
                proof {
                    assert(false);
                }
                KZGCommitmentScheme {
                    public_parameter_group_1: Vec::new(),
                    public_parameter_group_2: Vec::new(),
                }
            },
        }
    }
}

} // verus!
