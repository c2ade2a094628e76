//! The binary snapshot format (`bmap`) and the text format (`tmap`).
//!
//! A binary snapshot is, little-endian throughout: the four magic bytes
//! `BMAP`, a `u32` version (always 1), a `u32` record count, then for each
//! record a `u16` key length, the key's UTF-8 bytes, a `u32` value length,
//! and the value bytes. Decoding checks magic and version and bounds-checks
//! every read; empty input decodes to an empty record list.

use crate::text::{lossy_string, spec_lossy};
use vstd::arithmetic::div_mod::lemma_fundamental_div_mod;
use vstd::prelude::*;
use vstd::slice::{slice_index_get, slice_subrange, slice_to_vec};
use vstd::string::StrSliceExecFns;
use vstd::string::StringExecFns;

verus! {

/// Why a snapshot failed to decode.
#[derive(Clone, Copy, Debug, PartialEq, Eq, Structural)]
pub enum CodecError {
    /// Nonempty input shorter than the fixed header.
    TooShort,
    /// The input does not begin with the magic bytes.
    InvalidMagic,
    /// The header carries a version other than 1.
    InvalidVersion(u32),
    /// A record's declared lengths run past the end of the input.
    Truncated,
}

/// The magic bytes `BMAP`.
pub open spec fn spec_magic() -> Seq<u8> {
    seq![66u8, 77u8, 65u8, 80u8]
}

pub open spec fn le16(n: nat) -> Seq<u8> {
    seq![(n % 256) as u8, ((n / 256) % 256) as u8]
}

pub open spec fn le32(n: nat) -> Seq<u8> {
    seq![
        (n % 256) as u8,
        ((n / 256) % 256) as u8,
        ((n / 256 / 256) % 256) as u8,
        ((n / 256 / 256 / 256) % 256) as u8,
    ]
}

pub open spec fn le16_val(s: Seq<u8>) -> nat
    recommends
        s.len() == 2,
{
    (s[0] + 256 * s[1]) as nat
}

pub open spec fn le32_val(s: Seq<u8>) -> nat
    recommends
        s.len() == 4,
{
    (s[0] + 256 * (s[1] + 256 * (s[2] + 256 * s[3]))) as nat
}

pub proof fn lemma_le16_round(n: nat)
    requires
        n < 0x10000,
    ensures
        le16_val(le16(n)) == n,
{
    lemma_fundamental_div_mod(n as int, 256);
    assert(n / 256 < 256);
}

pub proof fn lemma_le32_round(n: nat)
    requires
        n < 0x1_0000_0000,
    ensures
        le32_val(le32(n)) == n,
{
    lemma_fundamental_div_mod(n as int, 256);
    lemma_fundamental_div_mod(n as int / 256, 256);
    lemma_fundamental_div_mod(n as int / 256 / 256, 256);
    assert(n / 256 / 256 / 256 < 256);
}

/// One record on disk: key length, key bytes, value length, value bytes.
pub open spec fn spec_encode_entry(e: (Seq<u8>, Seq<u8>)) -> Seq<u8> {
    le16(e.0.len()) + e.0 + le32(e.1.len()) + e.1
}

pub open spec fn spec_encode_entries(es: Seq<(Seq<u8>, Seq<u8>)>) -> Seq<u8>
    decreases es.len(),
{
    if es.len() == 0 {
        Seq::empty()
    } else {
        spec_encode_entry(es[0]) + spec_encode_entries(es.skip(1))
    }
}

/// The format's limits: key lengths fit a `u16`, value lengths a `u32`.
pub open spec fn raw_entries_wf(es: Seq<(Seq<u8>, Seq<u8>)>) -> bool {
    forall|i: int|
        0 <= i < es.len() ==> (#[trigger] es[i]).0.len() < 0x10000 && es[i].1.len()
            < 0x1_0000_0000
}

pub open spec fn spec_encode(es: Seq<(Seq<u8>, Seq<u8>)>) -> Seq<u8> {
    spec_magic() + le32(1) + le32(es.len()) + spec_encode_entries(es)
}

/// Reading the records of a well-formed image back, `count` records starting
/// at `off`; trailing bytes beyond the counted records are ignored.
pub open spec fn spec_parse_entries(b: Seq<u8>, off: int, count: nat) -> Result<
    Seq<(Seq<u8>, Seq<u8>)>,
    CodecError,
>
    decreases count,
{
    if count == 0 {
        Ok(Seq::empty())
    } else if off + 2 > b.len() {
        Err(CodecError::Truncated)
    } else {
        let klen = le16_val(b.subrange(off, off + 2)) as int;
        if off + 2 + klen > b.len() {
            Err(CodecError::Truncated)
        } else {
            let key = b.subrange(off + 2, off + 2 + klen);
            let voff = off + 2 + klen;
            if voff + 4 > b.len() {
                Err(CodecError::Truncated)
            } else {
                let vlen = le32_val(b.subrange(voff, voff + 4)) as int;
                if voff + 4 + vlen > b.len() {
                    Err(CodecError::Truncated)
                } else {
                    let value = b.subrange(voff + 4, voff + 4 + vlen);
                    match spec_parse_entries(b, voff + 4 + vlen, (count - 1) as nat) {
                        Ok(rest) => Ok(seq![(key, value)] + rest),
                        Err(e) => Err(e),
                    }
                }
            }
        }
    }
}

/// What decoding a byte image yields: the record list, or the first error.
pub open spec fn spec_decode(b: Seq<u8>) -> Result<Seq<(Seq<u8>, Seq<u8>)>, CodecError> {
    if b.len() == 0 {
        Ok(Seq::empty())
    } else if b.len() < 12 {
        Err(CodecError::TooShort)
    } else if b.subrange(0, 4) != spec_magic() {
        Err(CodecError::InvalidMagic)
    } else if le32_val(b.subrange(4, 8)) != 1 {
        Err(CodecError::InvalidVersion(le32_val(b.subrange(4, 8)) as u32))
    } else {
        spec_parse_entries(b, 12, le32_val(b.subrange(8, 12)))
    }
}

/// The byte-level contents of a list of decoded records.
pub open spec fn raw_pairs_view(v: Seq<(Vec<u8>, Vec<u8>)>) -> Seq<(Seq<u8>, Seq<u8>)> {
    Seq::new(v.len(), |i: int| (v[i].0@, v[i].1@))
}

fn read_le16(data: &[u8], off: usize) -> (r: u16)
    requires
        data@.len() <= usize::MAX,
        off + 2 <= data@.len(),
    ensures
        r == le16_val(data@.subrange(off as int, off as int + 2)),
{
    let b0 = *slice_index_get(data, off);
    let b1 = *slice_index_get(data, off + 1);
    proof {
        let s = data@.subrange(off as int, off as int + 2);
        assert(s[0] == data@[off as int]);
        assert(s[1] == data@[off as int + 1]);
    }
    b0 as u16 + (b1 as u16) * 256
}

fn read_le32(data: &[u8], off: usize) -> (r: u32)
    requires
        data@.len() <= usize::MAX,
        off + 4 <= data@.len(),
    ensures
        r == le32_val(data@.subrange(off as int, off as int + 4)),
{
    let b0 = *slice_index_get(data, off);
    let b1 = *slice_index_get(data, off + 1);
    let b2 = *slice_index_get(data, off + 2);
    let b3 = *slice_index_get(data, off + 3);
    proof {
        let s = data@.subrange(off as int, off as int + 4);
        assert(s[0] == data@[off as int]);
        assert(s[1] == data@[off as int + 1]);
        assert(s[2] == data@[off as int + 2]);
        assert(s[3] == data@[off as int + 3]);
    }
    b0 as u32 + 256 * (b1 as u32 + 256 * (b2 as u32 + 256 * (b3 as u32)))
}

fn push_le16(out: &mut Vec<u8>, n: u16)
    ensures
        final(out)@ == old(out)@ + le16(n as nat),
{
    out.push((n % 256) as u8);
    out.push((n / 256) as u8);
    proof {
        assert(n / 256 < 256);
        assert((n / 256) as nat % 256 == (n / 256) as nat);
        assert(final(out)@ =~= old(out)@ + le16(n as nat));
    }
}

fn push_le32(out: &mut Vec<u8>, n: u32)
    ensures
        final(out)@ == old(out)@ + le32(n as nat),
{
    out.push((n % 256) as u8);
    out.push((n / 256 % 256) as u8);
    out.push((n / 256 / 256 % 256) as u8);
    out.push((n / 256 / 256 / 256) as u8);
    proof {
        assert(n / 256 / 256 / 256 < 256);
        assert(final(out)@ =~= old(out)@ + le32(n as nat));
    }
}

proof fn lemma_encode_entries_push(es: Seq<(Seq<u8>, Seq<u8>)>, e: (Seq<u8>, Seq<u8>))
    ensures
        spec_encode_entries(es.push(e)) == spec_encode_entries(es) + spec_encode_entry(e),
    decreases es.len(),
{
    if es.len() == 0 {
        assert(es.push(e)[0] == e);
        assert(es.push(e).skip(1) =~= Seq::<(Seq<u8>, Seq<u8>)>::empty());
        assert(spec_encode_entries(es.push(e)) == spec_encode_entry(e) + spec_encode_entries(
            Seq::<(Seq<u8>, Seq<u8>)>::empty(),
        ));
        assert(spec_encode_entries(Seq::<(Seq<u8>, Seq<u8>)>::empty())
            == Seq::<u8>::empty());
        assert(spec_encode_entry(e) + Seq::<u8>::empty() =~= Seq::<u8>::empty()
            + spec_encode_entry(e));
    } else {
        assert(es.push(e).skip(1) =~= es.skip(1).push(e));
        lemma_encode_entries_push(es.skip(1), e);
        assert(es.push(e)[0] == es[0]);
        assert(spec_encode_entry(es[0]) + (spec_encode_entries(es.skip(1)) + spec_encode_entry(e))
            =~= (spec_encode_entry(es[0]) + spec_encode_entries(es.skip(1))) + spec_encode_entry(
            e,
        ));
    }
}

fn push_bytes(out: &mut Vec<u8>, src: &[u8])
    ensures
        final(out)@ == old(out)@ + src@,
{
    let n = src.len();
    let mut j: usize = 0;
    while j < n
        invariant
            j <= n,
            n == src@.len(),
            out@ == old(out)@ + src@.take(j as int),
        decreases n - j,
    {
        out.push(*slice_index_get(src, j));
        proof {
            assert(old(out)@ + src@.take(j + 1 as int) =~= (old(out)@ + src@.take(j as int)).push(
                src@[j as int],
            ));
        }
        j = j + 1;
    }
    proof {
        assert(src@.take(n as int) =~= src@);
    }
}

/// The textual contents of a list of records whose values are raw bytes.
pub open spec fn rec_pairs_view(v: Seq<(String, Vec<u8>)>) -> Seq<(Seq<char>, Seq<u8>)> {
    Seq::new(v.len(), |i: int| (v[i].0@, v[i].1@))
}

/// The byte-level entries a record list encodes to: keys as UTF-8 bytes.
pub open spec fn spec_utf8_pairs(rs: Seq<(Seq<char>, Seq<u8>)>) -> Seq<(Seq<u8>, Seq<u8>)> {
    Seq::new(rs.len(), |i: int| (vstd::utf8::encode_utf8(rs[i].0), rs[i].1))
}

/// The format's limits stated over records: each key's UTF-8 encoding fits
/// a `u16` length, each value a `u32` length.
pub open spec fn records_wf(rs: Seq<(Seq<char>, Seq<u8>)>) -> bool {
    forall|i: int|
        0 <= i < rs.len() ==> vstd::utf8::encode_utf8((#[trigger] rs[i]).0).len() < 0x10000
            && rs[i].1.len() < 0x1_0000_0000
}

pub open spec fn spec_encode_records(rs: Seq<(Seq<char>, Seq<u8>)>) -> Seq<u8> {
    spec_encode(spec_utf8_pairs(rs))
}

/// Encodes a record list into the binary snapshot format.
pub fn encode_records(records: &Vec<(String, Vec<u8>)>) -> (out: Vec<u8>)
    requires
        records_wf(rec_pairs_view(records@)),
        records@.len() < 0x1_0000_0000,
    ensures
        out@ == spec_encode_records(rec_pairs_view(records@)),
{
    let ghost rv = rec_pairs_view(records@);
    let ghost up = spec_utf8_pairs(rv);
    let count = records.len();
    let mut out: Vec<u8> = Vec::new();
    out.push(66);
    out.push(77);
    out.push(65);
    out.push(80);
    proof {
        assert(out@ =~= spec_magic());
    }
    let ghost header = spec_magic() + le32(1) + le32(up.len());
    push_le32(&mut out, 1);
    push_le32(&mut out, count as u32);
    let mut i: usize = 0;
    while i < count
        invariant
            i <= count,
            count == records@.len(),
            count < 0x1_0000_0000,
            records_wf(rec_pairs_view(records@)),
            rv == rec_pairs_view(records@),
            up == spec_utf8_pairs(rv),
            header == spec_magic() + le32(1) + le32(up.len()),
            out@ == header + spec_encode_entries(up.take(i as int)),
        decreases count - i,
    {
        let kb = records[i].0.as_str().as_bytes_vec();
        proof {
            assert(rv[i as int].0 == records@[i as int].0@);
            assert(kb@ == vstd::utf8::encode_utf8(rv[i as int].0));
            assert(up[i as int] == (kb@, records@[i as int].1@));
        }
        let klen = kb.len();
        push_le16(&mut out, klen as u16);
        push_bytes(&mut out, kb.as_slice());
        let vlen = records[i].1.len();
        push_le32(&mut out, vlen as u32);
        push_bytes(&mut out, records[i].1.as_slice());
        proof {
            lemma_encode_entries_push(up.take(i as int), up[i as int]);
            assert(up.take(i + 1) =~= up.take(i as int).push(up[i as int]));
            assert(spec_encode_entry(up[i as int]) =~= le16(kb@.len()) + kb@ + le32(
                records@[i as int].1@.len(),
            ) + records@[i as int].1@);
            assert(out@ =~= header + spec_encode_entries(up.take(i + 1)));
        }
        i = i + 1;
    }
    proof {
        assert(up.take(count as int) =~= up);
        assert(out@ =~= spec_encode_records(rv));
    }
    out
}

/// Decodes a binary snapshot into its raw byte entries.
pub fn decode_entries(data: &[u8]) -> (r: Result<Vec<(Vec<u8>, Vec<u8>)>, CodecError>)
    ensures
        match r {
            Ok(v) => spec_decode(data@) == Ok::<Seq<(Seq<u8>, Seq<u8>)>, CodecError>(
                raw_pairs_view(v@),
            ),
            Err(e) => spec_decode(data@) == Err::<Seq<(Seq<u8>, Seq<u8>)>, CodecError>(e),
        },
{
    let n = data.len();
    if n == 0 {
        let empty: Vec<(Vec<u8>, Vec<u8>)> = Vec::new();
        proof {
            assert(raw_pairs_view(empty@) =~= Seq::<(Seq<u8>, Seq<u8>)>::empty());
        }
        return Ok(empty);
    }
    if n < 12 {
        return Err(CodecError::TooShort);
    }
    let m0 = *slice_index_get(data, 0);
    let m1 = *slice_index_get(data, 1);
    let m2 = *slice_index_get(data, 2);
    let m3 = *slice_index_get(data, 3);
    proof {
        let s = data@.subrange(0, 4);
        assert(s[0] == data@[0] && s[1] == data@[1] && s[2] == data@[2] && s[3] == data@[3]);
    }
    if m0 != 66 || m1 != 77 || m2 != 65 || m3 != 80 {
        return Err(CodecError::InvalidMagic);
    }
    proof {
        assert(data@.subrange(0, 4) =~= spec_magic());
    }
    let version = read_le32(data, 4);
    if version != 1 {
        return Err(CodecError::InvalidVersion(version));
    }
    let count = read_le32(data, 8);
    let ghost total = count as nat;
    let mut result: Vec<(Vec<u8>, Vec<u8>)> = Vec::new();
    let mut off: usize = 12;
    let mut i: u32 = 0;
    while i < count
        invariant
            i <= count,
            12 <= off <= n,
            n == data@.len(),
            total == count as nat,
            spec_decode(data@) == spec_parse_entries(data@, 12, total),
            spec_parse_entries(data@, 12, total) == (match spec_parse_entries(
                data@,
                off as int,
                (count - i) as nat,
            ) {
                Ok(rest) => Ok::<Seq<(Seq<u8>, Seq<u8>)>, CodecError>(raw_pairs_view(result@)
                    + rest),
                Err(e) => Err::<Seq<(Seq<u8>, Seq<u8>)>, CodecError>(e),
            }),
        decreases count - i,
    {
        let ghost rem = (count - i) as nat;
        if n - off < 2 {
            return Err(CodecError::Truncated);
        }
        let klen = read_le16(data, off) as usize;
        if n - (off + 2) < klen {
            return Err(CodecError::Truncated);
        }
        let key = slice_to_vec(slice_subrange(data, off + 2, off + 2 + klen));
        let voff = off + 2 + klen;
        if n - voff < 4 {
            return Err(CodecError::Truncated);
        }
        let vlen = read_le32(data, voff) as usize;
        if n - (voff + 4) < vlen {
            return Err(CodecError::Truncated);
        }
        let value = slice_to_vec(slice_subrange(data, voff + 4, voff + 4 + vlen));
        let ghost prev = result@;
        result.push((key, value));
        proof {
            let next = spec_parse_entries(data@, (voff + 4 + vlen) as int, (rem - 1) as nat);
            assert(spec_parse_entries(data@, off as int, rem) == (match next {
                Ok(rest) => Ok::<Seq<(Seq<u8>, Seq<u8>)>, CodecError>(
                    seq![(key@, value@)] + rest,
                ),
                Err(e) => Err::<Seq<(Seq<u8>, Seq<u8>)>, CodecError>(e),
            }));
            if next is Ok {
                let rest = next->Ok_0;
                assert(raw_pairs_view(prev) + (seq![(key@, value@)] + rest) =~= raw_pairs_view(
                    result@,
                ) + rest);
            }
        }
        off = voff + 4 + vlen;
        i = i + 1;
    }
    proof {
        assert(raw_pairs_view(result@) + Seq::<(Seq<u8>, Seq<u8>)>::empty() =~= raw_pairs_view(
            result@,
        ));
    }
    Ok(result)
}

/// One line of the text format: `key: value`, the value decoded lossily.
pub open spec fn spec_text_line(key: Seq<char>, value: Seq<u8>) -> Seq<char> {
    key + seq![':', ' '] + spec_lossy(value) + seq!['\n']
}

/// The text format: one line per record, in record order. Human-readable;
/// not round-trip-safe for arbitrary byte values.
pub open spec fn spec_encode_text(rs: Seq<(Seq<char>, Seq<u8>)>) -> Seq<char>
    decreases rs.len(),
{
    if rs.len() == 0 {
        Seq::empty()
    } else {
        spec_encode_text(rs.drop_last()) + spec_text_line(rs.last().0, rs.last().1)
    }
}

/// Encodes a record list into the text snapshot format.
pub fn encode_text(records: &Vec<(String, Vec<u8>)>) -> (out: String)
    ensures
        out@ == spec_encode_text(rec_pairs_view(records@)),
{
    let ghost rv = rec_pairs_view(records@);
    let mut out = String::new();
    let count = records.len();
    let mut i: usize = 0;
    while i < count
        invariant
            i <= count,
            count == records@.len(),
            rv == rec_pairs_view(records@),
            out@ == spec_encode_text(rv.take(i as int)),
        decreases count - i,
    {
        proof {
            reveal_strlit(": ");
            reveal_strlit("\n");
        }
        out.append(records[i].0.as_str());
        out.append(": ");
        let value_text = lossy_string(records[i].1.as_slice());
        out.append(value_text.as_str());
        out.append("\n");
        proof {
            assert(rv.take(i + 1).drop_last() =~= rv.take(i as int));
            assert(rv.take(i + 1).last() == rv[i as int]);
            assert(out@ =~= spec_encode_text(rv.take(i as int)) + spec_text_line(
                rv[i as int].0,
                rv[i as int].1,
            ));
        }
        i = i + 1;
    }
    proof {
        assert(rv.take(count as int) =~= rv);
    }
    out
}

/// The first position at or after `from` holding `target`, or the length.
pub open spec fn spec_find_byte(b: Seq<u8>, from: int, target: u8) -> int
    recommends
        0 <= from <= b.len(),
    decreases b.len() - from,
{
    if from < 0 || from >= b.len() {
        b.len() as int
    } else if b[from] == target {
        from
    } else {
        spec_find_byte(b, from + 1, target)
    }
}

proof fn lemma_find_byte_range(b: Seq<u8>, from: int, target: u8)
    requires
        0 <= from <= b.len(),
    ensures
        from <= spec_find_byte(b, from, target) <= b.len(),
    decreases b.len() - from,
{
    if from < b.len() && b[from] != target {
        lemma_find_byte_range(b, from + 1, target);
    }
}

proof fn lemma_find_byte_is(b: Seq<u8>, from: int, j: int, target: u8)
    requires
        0 <= from <= j <= b.len(),
        forall|x: int| from <= x < j ==> b[x] != target,
        j < b.len() ==> b[j] == target,
    ensures
        spec_find_byte(b, from, target) == j,
    decreases j - from,
{
    if from < j {
        assert(b[from] != target);
        lemma_find_byte_is(b, from + 1, j, target);
    }
}

/// The first position in `line` where the separator `": "` begins, or -1.
pub open spec fn spec_find_sep(line: Seq<u8>, from: int) -> int
    recommends
        0 <= from,
    decreases line.len() - from,
{
    if from < 0 || from + 2 > line.len() {
        -1
    } else if line[from] == 58 && line[from + 1] == 32 {
        from
    } else {
        spec_find_sep(line, from + 1)
    }
}

proof fn lemma_find_sep_is(line: Seq<u8>, from: int, j: int)
    requires
        0 <= from <= j <= line.len(),
        forall|x: int|
            from <= x < j ==> !((#[trigger] line[x]) == 58 && x + 1 < line.len() && line[x + 1]
                == 32),
        j + 2 <= line.len() ==> line[j] == 58 && line[j + 1] == 32,
        j + 2 > line.len() ==> j == line.len(),
    ensures
        j + 2 <= line.len() ==> spec_find_sep(line, from) == j,
        j + 2 > line.len() ==> spec_find_sep(line, from) == -1,
    decreases j - from,
{
    if from < j {
        lemma_find_sep_is(line, from + 1, j);
    } else {
        if j + 2 > line.len() && from + 2 <= line.len() {
            assert(!(line[from] == 58 && from + 1 < line.len() && line[from + 1] == 32));
        }
    }
}

/// What one text line yields: the text before the first `": "` as the key
/// and the raw bytes after it as the value; a line without the separator
/// yields nothing.
pub open spec fn spec_decode_text_line(line: Seq<u8>) -> Option<(Seq<char>, Seq<u8>)> {
    let i = spec_find_sep(line, 0);
    if i >= 0 {
        Some((spec_lossy(line.subrange(0, i)), line.subrange(i + 2, line.len() as int)))
    } else {
        None
    }
}

/// What decoding a text image yields: one record per newline-separated
/// line that holds the separator, in line order.
pub open spec fn spec_decode_text(b: Seq<u8>) -> Seq<(Seq<char>, Seq<u8>)>
    decreases b.len() via spec_decode_text_decreases
{
    if b.len() == 0 {
        Seq::empty()
    } else {
        let e = spec_find_byte(b, 0, 10);
        let line = b.subrange(0, e);
        let rest = if e < b.len() {
            b.subrange(e + 1, b.len() as int)
        } else {
            Seq::empty()
        };
        let tail = spec_decode_text(rest);
        match spec_decode_text_line(line) {
            Some(kv) => seq![kv] + tail,
            None => tail,
        }
    }
}

#[via_fn]
proof fn spec_decode_text_decreases(b: Seq<u8>) {
    if b.len() > 0 {
        lemma_find_byte_range(b, 0, 10);
    }
}

/// Decodes a text snapshot image: keys are shown as text, values are kept
/// as the raw bytes after the separator. Not the inverse of `encode_text`
/// for values that themselves hold newlines.
pub fn decode_text(data: &[u8]) -> (out: Vec<(String, Vec<u8>)>)
    ensures
        rec_pairs_view(out@) == spec_decode_text(data@),
{
    let n = data.len();
    let mut out: Vec<(String, Vec<u8>)> = Vec::new();
    proof {
        assert(data@.skip(0) =~= data@);
        assert(rec_pairs_view(out@) + spec_decode_text(data@) =~= spec_decode_text(data@));
    }
    let mut start: usize = 0;
    while start < n
        invariant
            0 <= start <= n,
            n == data@.len(),
            spec_decode_text(data@) == rec_pairs_view(out@) + spec_decode_text(
                data@.skip(start as int),
            ),
        decreases n - start,
    {
        let ghost suffix = data@.skip(start as int);
        // Find the end of the current line.
        let mut line_end: usize = start;
        while line_end < n && *slice_index_get(data, line_end) != 10
            invariant
                start <= line_end <= n,
                n == data@.len(),
                forall|x: int| start <= x < line_end ==> data@[x] != 10,
            decreases n - line_end,
        {
            line_end = line_end + 1;
        }
        proof {
            assert(forall|x: int| 0 <= x < suffix.len() ==> suffix[x] == data@[
                start + x]);
            lemma_find_byte_is(suffix, 0, line_end - start as int, 10);
        }
        let ghost line = suffix.subrange(0, line_end - start as int);
        proof {
            assert(line =~= data@.subrange(start as int, line_end as int));
        }
        // Find the first separator within the line.
        let mut sep: usize = start;
        while sep < line_end && !(line_end - sep >= 2 && *slice_index_get(data, sep) == 58
            && *slice_index_get(data, sep + 1) == 32)
            invariant
                start <= sep <= line_end,
                line_end <= n,
                n == data@.len(),
                forall|x: int|
                    start <= x < sep ==> !((#[trigger] data@[x]) == 58 && x + 1 < line_end
                        && data@[x + 1] == 32),
            decreases line_end - sep,
        {
            sep = sep + 1;
        }
        let found = sep < line_end;
        proof {
            let jr = if found {
                sep - start as int
            } else {
                line.len() as int
            };
            assert(line.len() == line_end - start as int);
            assert forall|x: int| 0 <= x < jr implies !((#[trigger] line[x]) == 58 && x + 1
                < line.len() && line[x + 1] == 32) by {
                assert(line[x] == suffix[x]);
                assert(suffix[x] == data@[start + x]);
                if x + 1 < line.len() {
                    assert(line[x + 1] == suffix[x + 1]);
                    assert(suffix[x + 1] == data@[start + x + 1]);
                }
            }
            if found {
                assert(line[jr] == suffix[jr] && suffix[jr] == data@[sep as int]);
                assert(line[jr + 1] == suffix[jr + 1] && suffix[jr + 1] == data@[sep + 1]);
                assert(line[jr] == 58 && line[jr + 1] == 32);
            }
            lemma_find_sep_is(line, 0, jr);
        }
        if found {
            let key = lossy_string(slice_subrange(data, start, sep));
            let value = slice_to_vec(slice_subrange(data, sep + 2, line_end));
            proof {
                assert(data@.subrange(start as int, sep as int) =~= line.subrange(
                    0,
                    sep - start as int,
                ));
                assert(data@.subrange(sep + 2, line_end as int) =~= line.subrange(
                    sep + 2 - start as int,
                    line.len() as int,
                ));
            }
            let ghost prev = out@;
            out.push((key, value));
            proof {
                assert(rec_pairs_view(out@) =~= rec_pairs_view(prev).push(
                    (key@, value@),
                ));
            }
        }
        if line_end < n {
            start = line_end + 1;
        } else {
            start = n;
        }
        proof {
            let rest = if spec_find_byte(suffix, 0, 10) < suffix.len() {
                suffix.subrange(spec_find_byte(suffix, 0, 10) + 1, suffix.len() as int)
            } else {
                Seq::<u8>::empty()
            };
            assert(rest =~= data@.skip(start as int));
            assert(rec_pairs_view(out@) + spec_decode_text(data@.skip(start as int))
                =~= spec_decode_text(data@));
        }
    }
    proof {
        assert(data@.skip(n as int).len() == 0);
        assert(rec_pairs_view(out@) + spec_decode_text(data@.skip(n as int)) =~= rec_pairs_view(
            out@,
        ));
    }
    out
}

/// Parsing an encoded entry list back yields exactly those entries.
proof fn lemma_parse_of_encoded(b: Seq<u8>, off: int, es: Seq<(Seq<u8>, Seq<u8>)>)
    requires
        raw_entries_wf(es),
        0 <= off <= b.len(),
        b.skip(off) == spec_encode_entries(es),
    ensures
        spec_parse_entries(b, off, es.len()) == Ok::<Seq<(Seq<u8>, Seq<u8>)>, CodecError>(es),
    decreases es.len(),
{
    if es.len() == 0 {
        assert(es =~= Seq::<(Seq<u8>, Seq<u8>)>::empty());
    } else {
        let e = es[0];
        let enc = spec_encode_entry(e);
        let rest_enc = spec_encode_entries(es.skip(1));
        let klen = e.0.len() as int;
        let vlen = e.1.len() as int;
        let ab = le16(e.0.len()) + e.0;
        let abc = ab + le32(e.1.len());
        assert(enc == abc + e.1);
        assert(b.skip(off) == enc + rest_enc);
        assert(enc.len() == 2 + klen + 4 + vlen);
        assert(b.skip(off).len() == b.len() - off);
        assert((enc + rest_enc).len() == enc.len() + rest_enc.len());
        assert(b.len() - off == enc.len() + rest_enc.len());
        assert forall|j: int| 0 <= j < enc.len() implies b[off + j] == enc[j] by {
            assert(b.skip(off)[j] == b[off + j]);
            assert((enc + rest_enc)[j] == enc[j]);
        }
        assert(b.subrange(off, off + 2) =~= le16(e.0.len())) by {
            assert(enc[0] == le16(e.0.len())[0]);
            assert(enc[1] == le16(e.0.len())[1]);
        }
        lemma_le16_round(e.0.len());
        assert(le16_val(b.subrange(off, off + 2)) == klen);
        assert(b.subrange(off + 2, off + 2 + klen) =~= e.0) by {
            assert forall|j: int| 0 <= j < klen implies enc[2 + j] == e.0[j] by {
                assert(abc[2 + j] == ab[2 + j]);
                assert(ab[2 + j] == e.0[j]);
            }
        }
        let voff = off + 2 + klen;
        assert(b.subrange(voff, voff + 4) =~= le32(e.1.len())) by {
            assert forall|j: int| 0 <= j < 4 implies enc[2 + klen + j] == le32(e.1.len())[j] by {
                assert(abc[2 + klen + j] == le32(e.1.len())[j]);
            }
        }
        lemma_le32_round(e.1.len());
        assert(le32_val(b.subrange(voff, voff + 4)) == vlen);
        assert(b.subrange(voff + 4, voff + 4 + vlen) =~= e.1) by {
            assert forall|j: int| 0 <= j < vlen implies enc[2 + klen + 4 + j] == e.1[j] by {
                assert(enc[2 + klen + 4 + j] == e.1[j]);
            }
        }
        assert(b.skip(voff + 4 + vlen) =~= rest_enc) by {
            assert forall|j: int| 0 <= j < rest_enc.len() implies b[off + enc.len() + j]
                == rest_enc[j] by {
                assert(b.skip(off)[enc.len() + j] == b[off + enc.len() + j]);
                assert((enc + rest_enc)[enc.len() + j] == rest_enc[j]);
            }
        }
        assert(raw_entries_wf(es.skip(1)));
        lemma_parse_of_encoded(b, voff + 4 + vlen, es.skip(1));
        assert(seq![(e.0, e.1)] + es.skip(1) =~= es);
    }
}

/// Decoding an encoded record list gives the records back, byte for byte.
pub proof fn lemma_decode_encode(es: Seq<(Seq<u8>, Seq<u8>)>)
    requires
        raw_entries_wf(es),
        es.len() < 0x1_0000_0000,
    ensures
        spec_decode(spec_encode(es)) == Ok::<Seq<(Seq<u8>, Seq<u8>)>, CodecError>(es),
{
    let b = spec_encode(es);
    let head = (spec_magic() + le32(1)) + le32(es.len());
    assert(b == head + spec_encode_entries(es));
    assert(head.len() == 12);
    assert(b.len() >= 12);
    assert forall|j: int| 0 <= j < 12 implies b[j] == head[j] by {
        assert((head + spec_encode_entries(es))[j] == head[j]);
    }
    assert(b.subrange(0, 4) =~= spec_magic()) by {
        assert forall|j: int| 0 <= j < 4 implies head[j] == spec_magic()[j] by {
            assert((spec_magic() + le32(1))[j] == spec_magic()[j]);
        }
    }
    assert(b.subrange(4, 8) =~= le32(1)) by {
        assert forall|j: int| 0 <= j < 4 implies head[4 + j] == le32(1)[j] by {
            assert((spec_magic() + le32(1))[4 + j] == le32(1)[j]);
        }
    }
    lemma_le32_round(1);
    assert(b.subrange(8, 12) =~= le32(es.len()));
    lemma_le32_round(es.len());
    assert(b.skip(12) =~= spec_encode_entries(es)) by {
        assert forall|j: int| 0 <= j < spec_encode_entries(es).len() implies b[12 + j]
            == spec_encode_entries(es)[j] by {
            assert((head + spec_encode_entries(es))[12 + j] == spec_encode_entries(es)[j]);
        }
    }
    lemma_parse_of_encoded(b, 12, es);
    assert(le32_val(b.subrange(4, 8)) == 1);
    assert(le32_val(b.subrange(8, 12)) == es.len());
}

} // verus!
