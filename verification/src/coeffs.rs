//! The text files of curve-point coefficients that the BLS12-381 parameter
//! export reads: one point per line, its coordinates as `0x`-prefixed
//! hexadecimal numerals separated by single spaces, up to the first blank line.

use crate::bls::{
    BlsG1Point, BlsG2Point, BlsQuad, BlsField, bls_fe_from_value, bls_fq_from_biguint, bls_g1_compressed,
    bls_g1_serialize_compressed, bls_g2_compressed, bls_g2_is_on_curve, bls_g2_on_curve,
    bls_g2_serialize_compressed, bls_modulus, lemma_bls_fe_from_value,
    bls_g1_compressed_accepted, bls_g1_compressed_is_valid, bls_g2_compressed_accepted,
    bls_g2_compressed_is_valid,
};
use num_bigint::BigUint;
use vstd::arithmetic::power2::{
    lemma2_to64, lemma_pow2_strictly_increases, lemma_pow2_unfold, pow2,
};
use vstd::prelude::*;
use vstd::slice::{slice_subrange, slice_to_vec};

verus! {

/// The one-byte whitespace characters: tab, line feed, vertical tab, form
/// feed, carriage return and space.
pub open spec fn is_ascii_space(b: u8) -> bool {
    (9 <= b <= 13) || b == 32
}

/// The three-byte UTF-8 encodings of whitespace characters: U+1680,
/// U+2000 to U+200A, U+2028, U+2029, U+202F, U+205F and U+3000.
pub open spec fn is_space3(a: u8, b: u8, c: u8) -> bool {
    ||| a == 0xe1 && b == 0x9a && c == 0x80
    ||| a == 0xe2 && b == 0x80 && ((0x80 <= c <= 0x8a) || c == 0xa8 || c == 0xa9 || c == 0xaf)
    ||| a == 0xe2 && b == 0x81 && c == 0x9f
    ||| a == 0xe3 && b == 0x80 && c == 0x80
}

/// How many bytes the UTF-8 encoding of a whitespace character (Unicode's
/// `White_Space`, which `char::is_whitespace` and `str::trim` use) takes at
/// the end of `s`; 0 where none ends it. The two-byte ones are U+0085 and U+00A0.
pub open spec fn trailing_space_len(s: Seq<u8>) -> nat {
    let n = s.len();
    if n >= 1 && is_ascii_space(s[n - 1]) {
        1
    } else if n >= 2 && s[n - 2] == 0xc2 && (s[n - 1] == 0x85 || s[n - 1] == 0xa0) {
        2
    } else if n >= 3 && is_space3(s[n - 3], s[n - 2], s[n - 1]) {
        3
    } else {
        0
    }
}

/// The bytes without their trailing whitespace characters.
pub open spec fn trim_end(s: Seq<u8>) -> Seq<u8>
    decreases s.len(),
{
    let k = trailing_space_len(s);
    if k > 0 && k <= s.len() {
        trim_end(s.subrange(0, s.len() - k))
    } else {
        s
    }
}

/// A line is blank when it holds only whitespace characters.
pub open spec fn is_blank(s: Seq<u8>) -> bool {
    trim_end(s).len() == 0
}

/// The pieces of `s` between the occurrences of `sep`, in order; there is one
/// piece more than there are separators.
pub open spec fn split_on(s: Seq<u8>, sep: u8) -> Seq<Seq<u8>>
    decreases s.len(),
{
    if s.len() == 0 {
        seq![Seq::<u8>::empty()]
    } else {
        let init = split_on(s.drop_last(), sep);
        if s.last() == sep {
            init.push(Seq::empty())
        } else {
            init.update(init.len() - 1, init.last().push(s.last()))
        }
    }
}

/// The lines before the first blank one.
pub open spec fn leading_nonblank(ls: Seq<Seq<u8>>) -> Seq<Seq<u8>>
    decreases ls.len(),
{
    if ls.len() == 0 || is_blank(ls[0]) {
        Seq::empty()
    } else {
        seq![ls[0]] + leading_nonblank(ls.drop_first())
    }
}

/// The digits of a `0x`-prefixed field.
pub open spec fn hex_field(tok: Seq<u8>) -> Option<Seq<u8>> {
    if tok.len() >= 2 && tok[0] == 48u8 && tok[1] == 120u8 {
        Some(tok.subrange(2, tok.len() as int))
    } else {
        None
    }
}

/// The digits of the `count` `0x`-prefixed fields of a line, which are
/// separated by single spaces and may be followed by ASCII whitespace.
pub open spec fn line_fields(line: Seq<u8>, count: nat) -> Option<Seq<Seq<u8>>> {
    let toks = split_on(trim_end(line), 32u8);
    if toks.len() == count && forall|i: int| 0 <= i < count ==> #[trigger] hex_field(toks[i]) is Some {
        Some(Seq::new(count, |i: int| hex_field(toks[i]).unwrap()))
    } else {
        None
    }
}

/// The lengths agree, and the pieces hold equal bytes.
pub open spec fn pieces_equal(v: Seq<Vec<u8>>, s: Seq<Seq<u8>>) -> bool {
    v.len() == s.len() && forall|i: int| 0 <= i < s.len() ==> (#[trigger] v[i])@ == s[i]
}

/// How many bytes the encoding of a whitespace character takes at the end of
/// the first `n` bytes of `s`; 0 where none ends them.
fn trailing_space_len_at(s: &[u8], n: usize) -> (res: usize)
    requires
        n <= s@.len(),
    ensures
        res == trailing_space_len(s@.subrange(0, n as int)),
{
    let ghost t = s@.subrange(0, n as int);
    if n >= 1 && ((9 <= s[n - 1] && s[n - 1] <= 13) || s[n - 1] == 32) {
        assert(t[n - 1] == s@[n - 1]);
        return 1;
    }
    if n >= 2 && s[n - 2] == 0xc2 && (s[n - 1] == 0x85 || s[n - 1] == 0xa0) {
        assert(t[n - 2] == s@[n - 2] && t[n - 1] == s@[n - 1]);
        return 2;
    }
    if n >= 3 {
        let (a, b, c) = (s[n - 3], s[n - 2], s[n - 1]);
        assert(t[n - 3] == a && t[n - 2] == b && t[n - 1] == c);
        if (a == 0xe1 && b == 0x9a && c == 0x80) || (a == 0xe2 && b == 0x80 && ((0x80 <= c && c
            <= 0x8a) || c == 0xa8 || c == 0xa9 || c == 0xaf)) || (a == 0xe2 && b == 0x81 && c
            == 0x9f) || (a == 0xe3 && b == 0x80 && c == 0x80) {
            return 3;
        }
    }
    if n >= 1 {
        assert(t[n - 1] == s@[n - 1]);
    }
    if n >= 2 {
        assert(t[n - 2] == s@[n - 2]);
    }
    0
}

/// The index where trailing whitespace characters start.
pub fn trim_end_len(s: &[u8]) -> (res: usize)
    ensures
        res <= s@.len(),
        trim_end(s@) == s@.subrange(0, res as int),
{
    let mut n = s.len();
    assert(s@.subrange(0, n as int) =~= s@);
    loop
        invariant
            n <= s@.len(),
            trim_end(s@) == trim_end(s@.subrange(0, n as int)),
        decreases n,
    {
        let k = trailing_space_len_at(s, n);
        if k == 0 {
            return n;
        }
        proof {
            assert(s@.subrange(0, n as int).subrange(0, n - k) =~= s@.subrange(0, n - k));
        }
        n = n - k;
    }
}

/// Splits bytes at every occurrence of a separator.
pub fn split_on_byte(s: &[u8], sep: u8) -> (res: Vec<Vec<u8>>)
    ensures
        pieces_equal(res@, split_on(s@, sep)),
{
    let mut done: Vec<Vec<u8>> = Vec::new();
    let mut current: Vec<u8> = Vec::new();
    let mut i: usize = 0;
    while i < s.len()
        invariant
            i <= s@.len(),
            pieces_equal(done@.push(current), split_on(s@.take(i as int), sep)),
        decreases s@.len() - i,
    {
        let ghost before = done@.push(current);
        let ghost old_current = current@;
        let ghost sp = split_on(s@.take(i as int), sep);
        let ghost t = s@.take(i + 1);
        proof {
            assert(t.drop_last() =~= s@.take(i as int));
            assert(t.last() == s@[i as int]);
        }
        if s[i] == sep {
            done.push(current);
            current = Vec::new();
            proof {
                let after = done@.push(current);
                assert(split_on(t, sep) == sp.push(Seq::empty()));
                assert forall|k: int| 0 <= k < after.len() implies (#[trigger] after[k])@ == split_on(
                    t,
                    sep,
                )[k] by {
                    if k < after.len() - 1 {
                        assert(after[k] == before[k]);
                    }
                }
            }
        } else {
            current.push(s[i]);
            proof {
                let after = done@.push(current);
                assert(split_on(t, sep) == sp.update(sp.len() - 1, sp.last().push(s@[i as int])));
                assert(current@ == old_current.push(s@[i as int]));
                assert forall|k: int| 0 <= k < after.len() implies (#[trigger] after[k])@ == split_on(
                    t,
                    sep,
                )[k] by {
                    if k < after.len() - 1 {
                        assert(after[k] == before[k]);
                    } else {
                        assert(before[before.len() - 1]@ == sp[sp.len() - 1]);
                    }
                }
            }
        }
        i = i + 1;
    }
    done.push(current);
    proof {
        assert(s@.take(i as int) =~= s@);
    }
    done
}

/// Splits a line into the digits of its `count` `0x`-prefixed fields; `None`
/// where the line has another number of fields or a field lacks the prefix.
pub fn line_hex_fields(line: &[u8], count: usize) -> (res: Option<Vec<Vec<u8>>>)
    ensures
        res is Some <==> line_fields(line@, count as nat) is Some,
        res matches Some(v) ==> pieces_equal(v@, line_fields(line@, count as nat).unwrap()),
{
    let end = trim_end_len(line);
    let toks = split_on_byte(slice_subrange(line, 0, end), 32);
    let ghost sp = split_on(trim_end(line@), 32u8);
    if toks.len() != count {
        return None;
    }
    let mut out: Vec<Vec<u8>> = Vec::new();
    let mut i: usize = 0;
    while i < count
        invariant
            i <= count,
            toks@.len() == count,
            pieces_equal(toks@, sp),
            sp == split_on(trim_end(line@), 32u8),
            forall|k: int| 0 <= k < i ==> #[trigger] hex_field(sp[k]) is Some,
            out@.len() == i,
            forall|k: int| 0 <= k < i ==> (#[trigger] out@[k])@ == hex_field(sp[k]).unwrap(),
        decreases count - i,
    {
        let tok = &toks[i];
        assert(tok@ == sp[i as int]);
        if tok.len() >= 2 && tok[0] == 48 && tok[1] == 120 {
            let digits = slice_to_vec(slice_subrange(tok.as_slice(), 2, tok.len()));
            out.push(digits);
        } else {
            assert(hex_field(sp[i as int]) is None);
            return None;
        }
        i = i + 1;
    }
    proof {
        assert(line_fields(line@, count as nat) is Some);
        assert(pieces_equal(out@, line_fields(line@, count as nat).unwrap()));
    }
    Some(out)
}

/// The value of a hexadecimal digit byte, either case.
pub open spec fn hex_digit(b: u8) -> Option<nat> {
    if 48 <= b <= 57 {
        Some((b - 48) as nat)
    } else if 97 <= b <= 102 {
        Some((b - 87) as nat)
    } else if 65 <= b <= 70 {
        Some((b - 55) as nat)
    } else {
        None
    }
}

/// The numeral without one leading `+`, unless it leads two.
pub open spec fn strip_plus(s: Seq<u8>) -> Seq<u8> {
    if s.len() >= 1 && s[0] == 43u8 && !(s.len() >= 2 && s[1] == 43u8) {
        s.drop_first()
    } else {
        s
    }
}

/// A hexadecimal numeral as num-bigint's parser takes it: an optional `+`,
/// then at least one character, hexadecimal digits and `_` separators, not
/// starting with `_`.
pub open spec fn hex_numeral_ok(s: Seq<u8>) -> bool {
    let t = strip_plus(s);
    &&& t.len() > 0
    &&& t[0] != 95u8
    &&& forall|i: int| 0 <= i < t.len() ==> #[trigger] t[i] == 95u8 || hex_digit(t[i]) is Some
}

/// The value of hexadecimal digits, `_` separators skipped.
pub open spec fn hex_digits_value(t: Seq<u8>) -> nat
    decreases t.len(),
{
    if t.len() == 0 {
        0
    } else if t.last() == 95u8 {
        hex_digits_value(t.drop_last())
    } else {
        hex_digits_value(t.drop_last()) * 16 + hex_digit(t.last()).unwrap()
    }
}

/// The value of bytes read least significant first.
pub open spec fn le_value(s: Seq<u8>) -> nat
    decreases s.len(),
{
    if s.len() == 0 {
        0
    } else {
        s[0] as nat + 256 * le_value(s.drop_first())
    }
}

/// Little-endian bytes in shortest form: at least one byte, and no trailing zero byte but a lone one.
pub open spec fn minimal_le(s: Seq<u8>) -> bool {
    s.len() >= 1 && (s.len() == 1 || s.last() != 0)
}

/// Parses a hexadecimal numeral with num-bigint's `BigUint::parse_bytes`
/// (radix 16) and hands back `to_bytes_le` of the result. As the crate's source
/// shows, it accepts exactly the numerals of `hex_numeral_ok`, and the bytes
/// are the value's shortest little-endian form.
#[verifier::external_body]
pub(crate) fn biguint_parse_hex(digits: &[u8]) -> (res: Option<Vec<u8>>)
    ensures
        res is Some <==> hex_numeral_ok(digits@),
        res matches Some(v) ==> minimal_le(v@) && le_value(v@) == hex_digits_value(
            strip_plus(digits@),
        ),
{
    match BigUint::parse_bytes(digits, 16) {
        Some(v) => Some(v.to_bytes_le()),
        None => None,
    }
}

/// The lines before the first blank one are the text's first lines, and each is not blank.
pub proof fn lemma_leading_nonblank(ls: Seq<Seq<u8>>, i: int)
    requires
        0 <= i <= ls.len(),
        forall|k: int| 0 <= k < i ==> !is_blank(#[trigger] ls[k]),
        i == ls.len() || is_blank(ls[i]),
    ensures
        leading_nonblank(ls) == ls.take(i),
    decreases i,
{
    if i > 0 {
        lemma_leading_nonblank(ls.drop_first(), i - 1);
        assert(ls.take(i) =~= seq![ls[0]] + ls.drop_first().take(i - 1));
    } else {
        assert(ls.take(0) =~= Seq::<Seq<u8>>::empty());
    }
}

/// The lines of a text, split at `\n`, before the first blank one.
pub fn text_lines(text: &[u8]) -> (res: Vec<Vec<u8>>)
    ensures
        pieces_equal(res@, leading_nonblank(split_on(text@, 10u8))),
{
    let all = split_on_byte(text, 10);
    let ghost ls = split_on(text@, 10u8);
    let mut out: Vec<Vec<u8>> = Vec::new();
    let mut i: usize = 0;
    while i < all.len()
        invariant
            i <= all@.len(),
            ls == split_on(text@, 10u8),
            pieces_equal(all@, ls),
            forall|k: int| 0 <= k < i ==> !is_blank(#[trigger] ls[k]),
            pieces_equal(out@, ls.take(i as int)),
        decreases all@.len() - i,
    {
        let line = &all[i];
        assert(line@ == ls[i as int]);
        let end = trim_end_len(line.as_slice());
        if end == 0 {
            proof {
                assert(trim_end(line@).len() == 0);
                assert(is_blank(ls[i as int]));
                lemma_leading_nonblank(ls, i as int);
            }
            return out;
        }
        assert(!is_blank(ls[i as int]));
        out.push(slice_to_vec(line.as_slice()));
        proof {
            assert forall|k: int| 0 <= k < out@.len() implies (#[trigger] out@[k])@ == ls.take(
                i + 1,
            )[k] by {
                if k < i {
                    assert(ls.take(i + 1)[k] == ls.take(i as int)[k]);
                }
            }
        }
        i = i + 1;
    }
    proof {
        lemma_leading_nonblank(ls, i as int);
    }
    out
}

/// The lines that are read: those before the first blank one, at most `max_lines`.
pub open spec fn coordinate_lines(text: Seq<u8>, max_lines: nat) -> Seq<Seq<u8>> {
    let ls = leading_nonblank(split_on(text, 10u8));
    if ls.len() <= max_lines {
        ls
    } else {
        ls.take(max_lines as int)
    }
}

/// A line has `fields` `0x`-prefixed fields, each a hexadecimal numeral.
pub open spec fn line_ok(line: Seq<u8>, fields: nat) -> bool {
    &&& line_fields(line, fields) is Some
    &&& forall|j: int|
        0 <= j < fields ==> #[trigger] hex_numeral_ok(line_fields(line, fields).unwrap()[j])
}

/// The bytes are the shortest little-endian form of the numeral's value.
pub open spec fn value_bytes(v: Seq<u8>, digits: Seq<u8>) -> bool {
    minimal_le(v) && le_value(v) == hex_digits_value(strip_plus(digits))
}

/// The values read from a line: one byte string per field.
pub open spec fn line_values_match(v: Seq<Vec<u8>>, line: Seq<u8>, fields: nat) -> bool {
    &&& v.len() == fields
    &&& forall|j: int|
        0 <= j < fields ==> value_bytes(#[trigger] v[j]@, line_fields(line, fields).unwrap()[j])
}

/// Reads the coordinate values of the lines of a text: the lines before the
/// first blank one, at most `max_lines` of them, each with `fields`
/// `0x`-prefixed hexadecimal fields. Each value is handed back in its shortest
/// little-endian form. `None` where a read line is malformed.
pub fn coordinate_values(text: &[u8], fields: usize, max_lines: usize) -> (res: Option<
    Vec<Vec<Vec<u8>>>,
>)
    ensures
        res is Some <==> forall|i: int|
            0 <= i < coordinate_lines(text@, max_lines as nat).len() ==> #[trigger] line_ok(
                coordinate_lines(text@, max_lines as nat)[i],
                fields as nat,
            ),
        res matches Some(v) ==> v@.len() == coordinate_lines(text@, max_lines as nat).len(),
        res matches Some(v) ==> forall|i: int|
            0 <= i < v@.len() ==> line_values_match(
                #[trigger] v@[i]@,
                coordinate_lines(text@, max_lines as nat)[i],
                fields as nat,
            ),
{
    let lines = text_lines(text);
    let ghost ls = coordinate_lines(text@, max_lines as nat);
    let count = if lines.len() <= max_lines {
        lines.len()
    } else {
        max_lines
    };
    assert(count == ls.len());
    let mut out: Vec<Vec<Vec<u8>>> = Vec::new();
    let mut i: usize = 0;
    while i < count
        invariant
            i <= count,
            count == ls.len(),
            count <= lines@.len(),
            ls == coordinate_lines(text@, max_lines as nat),
            pieces_equal(lines@, leading_nonblank(split_on(text@, 10u8))),
            forall|k: int| 0 <= k < count ==> (#[trigger] lines@[k])@ == ls[k],
            forall|k: int| 0 <= k < i ==> #[trigger] line_ok(ls[k], fields as nat),
            out@.len() == i,
            forall|k: int|
                0 <= k < i ==> line_values_match(#[trigger] out@[k]@, ls[k], fields as nat),
        decreases count - i,
    {
        let line = &lines[i];
        assert(line@ == ls[i as int]);
        let digits = match line_hex_fields(line.as_slice(), fields) {
            Some(d) => d,
            None => {
                assert(!line_ok(ls[i as int], fields as nat));
                return None;
            },
        };
        let ghost ds = line_fields(ls[i as int], fields as nat).unwrap();
        let mut values: Vec<Vec<u8>> = Vec::new();
        let mut j: usize = 0;
        while j < fields
            invariant
                j <= fields,
                i < count,
                count == ls.len(),
                ls == coordinate_lines(text@, max_lines as nat),
                pieces_equal(digits@, ds),
                ds.len() == fields,
                ds == line_fields(ls[i as int], fields as nat).unwrap(),
                forall|k: int| 0 <= k < j ==> #[trigger] hex_numeral_ok(ds[k]),
                values@.len() == j,
                forall|k: int| 0 <= k < j ==> value_bytes(#[trigger] values@[k]@, ds[k]),
            decreases fields - j,
        {
            assert(digits@[j as int]@ == ds[j as int]);
            match biguint_parse_hex(digits[j].as_slice()) {
                Some(v) => {
                    values.push(v);
                },
                None => {
                    assert(!hex_numeral_ok(ds[j as int]));
                    assert(!line_ok(ls[i as int], fields as nat));
                    return None;
                },
            }
            j = j + 1;
        }
        assert(line_ok(ls[i as int], fields as nat));
        assert(line_values_match(values@, ls[i as int], fields as nat));
        out.push(values);
        i = i + 1;
    }
    Some(out)
}

/// The coordinate values that the BLS12-381 parameter export reads: from the
/// G1 text, every line's two values, and of those the first `2^n + 3` points;
/// from the G2 text, the first two lines' four values. `None` where a read
/// line is malformed.
pub fn zei_coordinates(g1_text: &[u8], g2_text: &[u8], n: u32) -> (res: Option<
    (Vec<Vec<Vec<u8>>>, Vec<Vec<Vec<u8>>>),
>)
    requires
        n < 64,
    ensures
        res is Some <==> (forall|i: int|
            0 <= i < coordinate_lines(g1_text@, usize::MAX as nat).len() ==> #[trigger] line_ok(
                coordinate_lines(g1_text@, usize::MAX as nat)[i],
                2,
            )) && (forall|i: int|
            0 <= i < coordinate_lines(g2_text@, 2).len() ==> #[trigger] line_ok(
                coordinate_lines(g2_text@, 2)[i],
                4,
            )),
        res matches Some(r) ==> {
            let g1_lines = coordinate_lines(g1_text@, usize::MAX as nat);
            let keep: int = if pow2(n as nat) + 3 < g1_lines.len() {
                pow2(n as nat) + 3int
            } else {
                g1_lines.len() as int
            };
            &&& r.0@.len() == keep
            &&& forall|i: int|
                0 <= i < keep ==> line_values_match(#[trigger] r.0@[i]@, g1_lines[i], 2)
            &&& r.1@.len() == coordinate_lines(g2_text@, 2).len()
            &&& forall|i: int|
                0 <= i < r.1@.len() ==> line_values_match(
                    #[trigger] r.1@[i]@,
                    coordinate_lines(g2_text@, 2)[i],
                    4,
                )
        },
{
    let mut g1 = match coordinate_values(g1_text, 2, usize::MAX) {
        Some(v) => v,
        None => {
            return None;
        },
    };
    let g2 = match coordinate_values(g2_text, 4, 2) {
        Some(v) => v,
        None => {
            return None;
        },
    };
    let mut size: u128 = 1;
    let mut i: u32 = 0;
    proof {
        lemma2_to64();
    }
    while i < n
        invariant
            i <= n < 64,
            size == pow2(i as nat),
            pow2(64) == 0x1_0000_0000_0000_0000,
        decreases n - i,
    {
        proof {
            lemma_pow2_unfold((i + 1) as nat);
            lemma_pow2_strictly_increases((i + 1) as nat, 64);
        }
        size = size * 2;
        i = i + 1;
    }
    proof {
        lemma_pow2_strictly_increases(n as nat, 64);
    }
    let want = size + 3;
    if want < g1.len() as u128 {
        g1.truncate(want as usize);
    }
    Some((g1, g2))
}

/// The value of field `j` of a well-formed line.
pub open spec fn field_value(line: Seq<u8>, fields: nat, j: int) -> nat {
    hex_digits_value(strip_plus(line_fields(line, fields).unwrap()[j]))
}

/// The BLS12-381 base-field element of field `j` of a line: its value reduced.
pub open spec fn bls_coordinate(line: Seq<u8>, fields: nat, j: int) -> BlsField {
    bls_fe_from_value(field_value(line, fields, j) % bls_modulus())
}

/// The G1 point of a line `x y`.
pub open spec fn zei_g1_point(line: Seq<u8>) -> BlsG1Point {
    BlsG1Point { x: bls_coordinate(line, 2, 0), y: bls_coordinate(line, 2, 1), infinity: false }
}

/// The G2 point of a line `x.c0 x.c1 y.c0 y.c1`.
pub open spec fn zei_g2_point(line: Seq<u8>) -> BlsG2Point {
    BlsG2Point {
        x: BlsQuad { c0: bls_coordinate(line, 4, 0), c1: bls_coordinate(line, 4, 1) },
        y: BlsQuad { c0: bls_coordinate(line, 4, 2), c1: bls_coordinate(line, 4, 3) },
        infinity: false,
    }
}

/// The number of G1 points that the export keeps: `2^n + 3`, or all there are.
pub open spec fn zei_g1_keep(g1_text: Seq<u8>, n: nat) -> int {
    let len = coordinate_lines(g1_text, usize::MAX as nat).len();
    if pow2(n) + 3 < len {
        pow2(n) + 3int
    } else {
        len as int
    }
}

/// The export keeps `2^n + 3` G1 points, or all the lines there are when fewer.
pub proof fn lemma_zei_g1_keep(g1_text: Seq<u8>, n: nat)
    ensures
        pow2(n) + 3 < coordinate_lines(g1_text, usize::MAX as nat).len() ==> zei_g1_keep(g1_text, n)
            == pow2(n) + 3,
        pow2(n) + 3 >= coordinate_lines(g1_text, usize::MAX as nat).len() ==> zei_g1_keep(
            g1_text,
            n,
        ) == coordinate_lines(g1_text, usize::MAX as nat).len(),
{
}

/// Reduces a value, given as little-endian bytes, into the BLS12-381 base field.
fn bls_field_of(v: &Vec<u8>, digits: Ghost<Seq<u8>>) -> (res: BlsField)
    requires
        value_bytes(v@, digits@),
    ensures
        res == bls_fe_from_value(hex_digits_value(strip_plus(digits@)) % bls_modulus()),
        res.wf(),
{
    proof {
        lemma_bls_fe_from_value(hex_digits_value(strip_plus(digits@)) % bls_modulus());
    }
    bls_fq_from_biguint(v.as_slice())
}

/// The BLS12-381 parameters that the export writes, each point compressed: the
/// first `2^n + 3` G1 points of the G1 text and the G2 points of the first two
/// lines of the G2 text. Each compressed encoding must be accepted by validated
/// compressed deserialization, and each G2 point must lie on the curve. `None`
/// where a read line is malformed or a point fails a check.
pub fn zei_crs(g1_text: &[u8], g2_text: &[u8], n: u32) -> (res: Option<(Vec<Vec<u8>>, Vec<Vec<u8>>)>)
    requires
        n < 64,
    ensures
        res is Some <==> {
            &&& forall|i: int|
                0 <= i < coordinate_lines(g1_text@, usize::MAX as nat).len() ==> #[trigger] line_ok(
                    coordinate_lines(g1_text@, usize::MAX as nat)[i],
                    2,
                )
            &&& forall|i: int|
                0 <= i < coordinate_lines(g2_text@, 2).len() ==> #[trigger] line_ok(
                    coordinate_lines(g2_text@, 2)[i],
                    4,
                )
            &&& forall|i: int|
                0 <= i < coordinate_lines(g2_text@, 2).len() ==> #[trigger] bls_g2_on_curve(
                    zei_g2_point(coordinate_lines(g2_text@, 2)[i]),
                )
            &&& forall|i: int|
                0 <= i < zei_g1_keep(g1_text@, n as nat) ==> #[trigger] bls_g1_compressed_accepted(
                    bls_g1_compressed(zei_g1_point(coordinate_lines(g1_text@, usize::MAX as nat)[i])),
                )
            &&& forall|i: int|
                0 <= i < coordinate_lines(g2_text@, 2).len() ==> #[trigger] bls_g2_compressed_accepted(
                    bls_g2_compressed(zei_g2_point(coordinate_lines(g2_text@, 2)[i])),
                )
        },
        res matches Some(r) ==> (pow2(n as nat) + 3 < coordinate_lines(g1_text@, usize::MAX as nat).len() ==> r.0@.len() == pow2(n as nat) + 3),
        res matches Some(r) ==> (pow2(n as nat) + 3 >= coordinate_lines(g1_text@, usize::MAX as nat).len() ==> r.0@.len() == coordinate_lines(g1_text@, usize::MAX as nat).len()),
        res matches Some(r) ==> {
            &&& r.0@.len() == zei_g1_keep(g1_text@, n as nat)
            &&& forall|i: int|
                0 <= i < r.0@.len() ==> (#[trigger] r.0@[i])@ == bls_g1_compressed(
                    zei_g1_point(coordinate_lines(g1_text@, usize::MAX as nat)[i]),
                )
            &&& r.1@.len() == coordinate_lines(g2_text@, 2).len()
            &&& forall|i: int|
                0 <= i < r.1@.len() ==> (#[trigger] r.1@[i])@ == bls_g2_compressed(
                    zei_g2_point(coordinate_lines(g2_text@, 2)[i]),
                )
        },
{
    let (g1, g2) = match zei_coordinates(g1_text, g2_text, n) {
        Some(c) => c,
        None => {
            return None;
        },
    };
    let ghost g1_lines = coordinate_lines(g1_text@, usize::MAX as nat);
    let ghost g2_lines = coordinate_lines(g2_text@, 2);
    let mut out1: Vec<Vec<u8>> = Vec::new();
    let mut i: usize = 0;
    while i < g1.len()
        invariant
            i <= g1@.len(),
            g1@.len() == zei_g1_keep(g1_text@, n as nat),
            g1@.len() <= g1_lines.len(),
            g1_lines == coordinate_lines(g1_text@, usize::MAX as nat),
            forall|k: int|
                0 <= k < g1@.len() ==> line_values_match(#[trigger] g1@[k]@, g1_lines[k], 2),
            out1@.len() == i,
            forall|k: int|
                0 <= k < i ==> (#[trigger] out1@[k])@ == bls_g1_compressed(
                    zei_g1_point(g1_lines[k]),
                ),
            forall|k: int|
                0 <= k < i ==> #[trigger] bls_g1_compressed_accepted(
                    bls_g1_compressed(zei_g1_point(g1_lines[k])),
                ),
        decreases g1@.len() - i,
    {
        let v = &g1[i];
        assert(line_values_match(v@, g1_lines[i as int], 2));
        let ghost ds = line_fields(g1_lines[i as int], 2).unwrap();
        let x = bls_field_of(&v[0], Ghost(ds[0]));
        let y = bls_field_of(&v[1], Ghost(ds[1]));
        let p = BlsG1Point { x, y, infinity: false };
        assert(p == zei_g1_point(g1_lines[i as int]));
        let bytes = bls_g1_serialize_compressed(&p);
        if !bls_g1_compressed_is_valid(bytes.as_slice()) {
            return None;
        }
        out1.push(bytes);
        i = i + 1;
    }
    let mut out2: Vec<Vec<u8>> = Vec::new();
    let mut j: usize = 0;
    while j < g2.len()
        invariant
            j <= g2@.len(),
            g2@.len() == g2_lines.len(),
            g2_lines == coordinate_lines(g2_text@, 2),
            forall|k: int| 0 <= k < g2@.len() ==> line_values_match(#[trigger] g2@[k]@, g2_lines[k], 4),
            forall|k: int| 0 <= k < j ==> #[trigger] bls_g2_on_curve(zei_g2_point(g2_lines[k])),
            out2@.len() == j,
            forall|k: int|
                0 <= k < j ==> (#[trigger] out2@[k])@ == bls_g2_compressed(
                    zei_g2_point(g2_lines[k]),
                ),
            forall|k: int|
                0 <= k < j ==> #[trigger] bls_g2_compressed_accepted(
                    bls_g2_compressed(zei_g2_point(g2_lines[k])),
                ),
            forall|k: int|
                0 <= k < out1@.len() ==> #[trigger] bls_g1_compressed_accepted(
                    bls_g1_compressed(zei_g1_point(g1_lines[k])),
                ),
        decreases g2@.len() - j,
    {
        let v = &g2[j];
        assert(line_values_match(v@, g2_lines[j as int], 4));
        let ghost ds = line_fields(g2_lines[j as int], 4).unwrap();
        let x0 = bls_field_of(&v[0], Ghost(ds[0]));
        let x1 = bls_field_of(&v[1], Ghost(ds[1]));
        let y0 = bls_field_of(&v[2], Ghost(ds[2]));
        let y1 = bls_field_of(&v[3], Ghost(ds[3]));
        let p = BlsG2Point {
            x: BlsQuad { c0: x0, c1: x1 },
            y: BlsQuad { c0: y0, c1: y1 },
            infinity: false,
        };
        assert(p == zei_g2_point(g2_lines[j as int]));
        if !bls_g2_is_on_curve(&p) {
            return None;
        }
        let bytes = bls_g2_serialize_compressed(&p);
        if !bls_g2_compressed_is_valid(bytes.as_slice()) {
            return None;
        }
        out2.push(bytes);
        j = j + 1;
    }
    Some((out1, out2))
}

} // verus!
