//! Canonical byte encoding: big-endian integers and length-prefixed fields.
//!
//! Every encoder has a spec function that says which bytes it writes, and
//! every reader has one that says what it accepts, so that the two can be
//! proved inverse to each other.

use vstd::prelude::*;
use vstd::utf8::{
    decode_utf8, encode_utf8, encode_utf8_decode_utf8, encode_utf8_valid_utf8, valid_utf8,
};

verus! {

/// The eight bytes of `x`, most significant first.
pub open spec fn be_u64(x: u64) -> Seq<u8> {
    seq![
        (x >> 56) as u8,
        (x >> 48) as u8,
        (x >> 40) as u8,
        (x >> 32) as u8,
        (x >> 24) as u8,
        (x >> 16) as u8,
        (x >> 8) as u8,
        x as u8,
    ]
}

/// The four bytes of `x`, most significant first.
pub open spec fn be_u32(x: u32) -> Seq<u8> {
    seq![(x >> 24) as u8, (x >> 16) as u8, (x >> 8) as u8, x as u8]
}

/// The integer whose big-endian bytes are `b[0..8]`.
pub open spec fn u64_from_be(b: Seq<u8>) -> u64 {
    (b[0] as u64) << 56 | (b[1] as u64) << 48 | (b[2] as u64) << 40 | (b[3] as u64) << 32 | (
    b[4] as u64) << 24 | (b[5] as u64) << 16 | (b[6] as u64) << 8 | (b[7] as u64)
}

/// The integer whose big-endian bytes are `b[0..4]`.
pub open spec fn u32_from_be(b: Seq<u8>) -> u32 {
    (b[0] as u32) << 24 | (b[1] as u32) << 16 | (b[2] as u32) << 8 | (b[3] as u32)
}

/// Reading back the big-endian bytes of a `u64` gives the integer again.
pub proof fn lemma_u64_round_trip(x: u64)
    ensures
        be_u64(x).len() == 8,
        u64_from_be(be_u64(x)) == x,
{
    assert(((x >> 56) as u8 as u64) << 56 | ((x >> 48) as u8 as u64) << 48 | ((x >> 40) as u8 as u64)
        << 40 | ((x >> 32) as u8 as u64) << 32 | ((x >> 24) as u8 as u64) << 24 | ((x >> 16) as u8 as u64)
        << 16 | ((x >> 8) as u8 as u64) << 8 | (x as u8 as u64) == x) by (bit_vector);
}

/// Reading back the big-endian bytes of a `u32` gives the integer again.
pub proof fn lemma_u32_round_trip(x: u32)
    ensures
        be_u32(x).len() == 4,
        u32_from_be(be_u32(x)) == x,
{
    assert(((x >> 24) as u8 as u32) << 24 | ((x >> 16) as u8 as u32) << 16 | ((x >> 8) as u8 as u32)
        << 8 | (x as u8 as u32) == x) by (bit_vector);
}

/// Appends the big-endian bytes of `x` to `out`.
pub fn put_u64(out: &mut Vec<u8>, x: u64)
    ensures
        final(out)@ == old(out)@ + be_u64(x),
{
    out.push((x >> 56) as u8);
    out.push((x >> 48) as u8);
    out.push((x >> 40) as u8);
    out.push((x >> 32) as u8);
    out.push((x >> 24) as u8);
    out.push((x >> 16) as u8);
    out.push((x >> 8) as u8);
    out.push(x as u8);
    assert(out@ =~= old(out)@ + be_u64(x));
}

/// Appends the big-endian bytes of `x` to `out`.
pub fn put_u32(out: &mut Vec<u8>, x: u32)
    ensures
        final(out)@ == old(out)@ + be_u32(x),
{
    out.push((x >> 24) as u8);
    out.push((x >> 16) as u8);
    out.push((x >> 8) as u8);
    out.push(x as u8);
    assert(out@ =~= old(out)@ + be_u32(x));
}

/// `b` preceded by its length as a big-endian `u64`.
pub open spec fn framed(b: Seq<u8>) -> Seq<u8> {
    be_u64(b.len() as u64) + b
}

/// A text field: the UTF-8 bytes of `s`, framed.
pub open spec fn framed_text(s: Seq<char>) -> Seq<u8> {
    framed(encode_utf8(s))
}

/// Whether a text can be written as a text field.
pub open spec fn text_fits(t: Seq<char>) -> bool {
    encode_utf8(t).len() <= u64::MAX
}

/// Appends `data` to `out`.
pub fn put_raw(out: &mut Vec<u8>, data: &[u8])
    ensures
        final(out)@ == old(out)@ + data@,
{
    let mut i: usize = 0;
    while i < data.len()
        invariant
            i <= data.len(),
            out@ == old(out)@ + data@.subrange(0, i as int),
        decreases data.len() - i,
    {
        out.push(data[i]);
        i += 1;
        assert(out@ =~= old(out)@ + data@.subrange(0, i as int));
    }
    assert(data@.subrange(0, i as int) =~= data@);
}

/// Appends `data` to `out` as a framed field.
pub fn put_framed(out: &mut Vec<u8>, data: &[u8])
    ensures
        final(out)@ == old(out)@ + framed(data@),
        data@.len() <= u64::MAX,
{
    put_u64(out, data.len() as u64);
    put_raw(out, data);
    assert(out@ =~= old(out)@ + framed(data@));
}

/// Appends `s` to `out` as a framed text field.
pub fn put_text(out: &mut Vec<u8>, s: &str)
    ensures
        final(out)@ == old(out)@ + framed_text(s@),
        text_fits(s@),
{
    put_framed(out, s.as_bytes());
}

/// What a reader finds at `pos`: eight bytes, read as a big-endian `u64`,
/// and the position after them.
pub open spec fn read_u64(s: Seq<u8>, pos: int) -> Option<(u64, int)> {
    if 0 <= pos && pos + 8 <= s.len() {
        Some((u64_from_be(s.subrange(pos, pos + 8)), pos + 8))
    } else {
        None
    }
}

/// What a reader finds at `pos`: four bytes, read as a big-endian `u32`,
/// and the position after them.
pub open spec fn read_u32(s: Seq<u8>, pos: int) -> Option<(u32, int)> {
    if 0 <= pos && pos + 4 <= s.len() {
        Some((u32_from_be(s.subrange(pos, pos + 4)), pos + 4))
    } else {
        None
    }
}

/// What a reader finds at `pos`: a length, then that many bytes.
pub open spec fn read_framed(s: Seq<u8>, pos: int) -> Option<(Seq<u8>, int)> {
    match read_u64(s, pos) {
        Some((n, p)) => if p + n <= s.len() {
            Some((s.subrange(p, p + n), p + n))
        } else {
            None
        },
        None => None,
    }
}

/// What a reader finds at `pos`: a framed field that holds valid UTF-8.
pub open spec fn read_text(s: Seq<u8>, pos: int) -> Option<(Seq<char>, int)> {
    match read_framed(s, pos) {
        Some((b, p)) => if valid_utf8(b) {
            Some((decode_utf8(b), p))
        } else {
            None
        },
        None => None,
    }
}

/// Reads a big-endian `u64` at `pos`.
pub fn get_u64(data: &[u8], pos: usize) -> (r: Option<(u64, usize)>)
    ensures
        match r {
            Some((x, p)) => read_u64(data@, pos as int) == Some((x, p as int)),
            None => read_u64(data@, pos as int) is None,
        },
{
    if data.len() < 8 || pos > data.len() - 8 {
        return None;
    }
    let x: u64 = (data[pos] as u64) << 56 | (data[pos + 1] as u64) << 48 | (data[pos + 2] as u64)
        << 40 | (data[pos + 3] as u64) << 32 | (data[pos + 4] as u64) << 24 | (data[pos + 5] as u64)
        << 16 | (data[pos + 6] as u64) << 8 | (data[pos + 7] as u64);
    Some((x, pos + 8))
}

/// Reads a big-endian `u32` at `pos`.
pub fn get_u32(data: &[u8], pos: usize) -> (r: Option<(u32, usize)>)
    ensures
        match r {
            Some((x, p)) => read_u32(data@, pos as int) == Some((x, p as int)),
            None => read_u32(data@, pos as int) is None,
        },
{
    if data.len() < 4 || pos > data.len() - 4 {
        return None;
    }
    let x: u32 = (data[pos] as u32) << 24 | (data[pos + 1] as u32) << 16 | (data[pos + 2] as u32)
        << 8 | (data[pos + 3] as u32);
    Some((x, pos + 4))
}

/// Reads a framed field at `pos`.
pub fn get_framed(data: &[u8], pos: usize) -> (r: Option<(Vec<u8>, usize)>)
    ensures
        match r {
            Some((b, p)) => read_framed(data@, pos as int) == Some((b@, p as int)),
            None => read_framed(data@, pos as int) is None,
        },
{
    let (n, start) = match get_u64(data, pos) {
        Some(v) => v,
        None => { return None; },
    };
    if n > (data.len() - start) as u64 {
        return None;
    }
    let end: usize = start + n as usize;
    let mut out: Vec<u8> = Vec::new();
    let mut i: usize = start;
    while i < end
        invariant
            start <= i <= end <= data.len(),
            out@ == data@.subrange(start as int, i as int),
        decreases end - i,
    {
        out.push(data[i]);
        i += 1;
        assert(out@ =~= data@.subrange(start as int, i as int));
    }
    Some((out, end))
}

/// `String::from_utf8`: the bytes become a `String` exactly when they are
/// valid UTF-8, and the string then holds the characters that they encode.
#[verifier::external_body]
pub(crate) fn string_from_utf8(bytes: Vec<u8>) -> (r: Option<String>)
    ensures
        r is Some <==> valid_utf8(bytes@),
        r matches Some(s) ==> s@ == decode_utf8(bytes@),
{
    String::from_utf8(bytes).ok()
}

/// Reads a framed text field at `pos`.
pub fn get_text(data: &[u8], pos: usize) -> (r: Option<(String, usize)>)
    ensures
        match r {
            Some((s, p)) => read_text(data@, pos as int) == Some((s@, p as int)),
            None => read_text(data@, pos as int) is None,
        },
{
    match get_framed(data, pos) {
        Some((bytes, next)) => match string_from_utf8(bytes) {
            Some(s) => Some((s, next)),
            None => None,
        },
        None => None,
    }
}

/// A `u64` written at the end of `a` is read back at `a.len()`.
pub proof fn lemma_read_u64(a: Seq<u8>, x: u64, rest: Seq<u8>)
    ensures
        read_u64(a + be_u64(x) + rest, a.len() as int) == Some((x, a.len() as int + 8)),
{
    lemma_u64_round_trip(x);
    let s = a + be_u64(x) + rest;
    assert(s.subrange(a.len() as int, a.len() as int + 8) =~= be_u64(x));
}

/// A `u32` written at the end of `a` is read back at `a.len()`.
pub proof fn lemma_read_u32(a: Seq<u8>, x: u32, rest: Seq<u8>)
    ensures
        read_u32(a + be_u32(x) + rest, a.len() as int) == Some((x, a.len() as int + 4)),
{
    lemma_u32_round_trip(x);
    let s = a + be_u32(x) + rest;
    assert(s.subrange(a.len() as int, a.len() as int + 4) =~= be_u32(x));
}

/// A framed field written at the end of `a` is read back at `a.len()`.
pub proof fn lemma_read_framed(a: Seq<u8>, b: Seq<u8>, rest: Seq<u8>)
    requires
        b.len() <= u64::MAX,
    ensures
        read_framed(a + framed(b) + rest, a.len() as int) == Some((b, a.len() as int + 8 + b.len())),
{
    let n = b.len() as u64;
    let s = a + framed(b) + rest;
    lemma_read_u64(a, n, b + rest);
    assert(s =~= a + be_u64(n) + (b + rest));
    assert(s.subrange(a.len() as int + 8, a.len() as int + 8 + b.len()) =~= b);
}

/// A text field written at the end of `a` is read back at `a.len()`.
pub proof fn lemma_read_text(a: Seq<u8>, t: Seq<char>, rest: Seq<u8>)
    requires
        text_fits(t),
    ensures
        read_text(a + framed_text(t) + rest, a.len() as int) == Some(
            (t, a.len() as int + 8 + encode_utf8(t).len()),
        ),
{
    lemma_read_framed(a, encode_utf8(t), rest);
    encode_utf8_valid_utf8(t);
    encode_utf8_decode_utf8(t);
}

/// Whether `a` and `b` hold the same bytes.
pub fn same_bytes(a: &[u8], b: &[u8]) -> (r: bool)
    ensures
        r == (a@ == b@),
{
    if a.len() != b.len() {
        return false;
    }
    let mut i: usize = 0;
    while i < a.len()
        invariant
            i <= a.len(),
            a.len() == b.len(),
            forall|j: int| 0 <= j < i ==> a@[j] == b@[j],
        decreases a.len() - i,
    {
        if a[i] != b[i] {
            return false;
        }
        i += 1;
    }
    assert(a@ =~= b@);
    true
}

/// Whether `a` and `b` hold the same text.
pub fn same_text(a: &str, b: &str) -> (r: bool)
    ensures
        r == (a@ == b@),
{
    proof {
        encode_utf8_decode_utf8(a@);
        encode_utf8_decode_utf8(b@);
    }
    same_bytes(a.as_bytes(), b.as_bytes())
}

} // verus!
