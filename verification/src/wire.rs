//! Mathematical description of the wire format: little-endian integers and
//! NUL-terminated ASCII strings.

use vstd::prelude::*;
use vstd::utf8::{decode_utf8, encode_utf8, is_ascii_chars, valid_utf8};

verus! {

/// The two bytes of `v` in little-endian order.
pub open spec fn le16_bytes(v: u16) -> Seq<u8> {
    seq![(v % 256) as u8, (v / 256) as u8]
}

/// The four bytes of `v` in little-endian order.
pub open spec fn le32_bytes(v: u32) -> Seq<u8> {
    seq![(v % 256) as u8, ((v / 256) % 256) as u8, ((v / 65536) % 256) as u8, (v / 16777216) as u8]
}

/// The integer that the first two bytes of `b` encode in little-endian order.
pub open spec fn le16_value(b: Seq<u8>) -> u16 {
    (b[0] + 256 * b[1]) as u16
}

/// The integer that the first four bytes of `b` encode in little-endian order.
pub open spec fn le32_value(b: Seq<u8>) -> u32 {
    (b[0] + 256 * b[1] + 65536 * b[2] + 16777216 * b[3]) as u32
}

/// Decoding the little-endian bytes of a 16-bit value gives the value back.
pub proof fn lemma_le16_roundtrip(v: u16)
    ensures
        le16_bytes(v).len() == 2,
        le16_value(le16_bytes(v)) == v,
{
    assert(v == (v % 256) + 256 * (v / 256)) by (bit_vector);
    assert(v / 256 < 256) by (bit_vector);
}

/// Decoding the little-endian bytes of a 32-bit value gives the value back.
pub proof fn lemma_le32_roundtrip(v: u32)
    ensures
        le32_bytes(v).len() == 4,
        le32_value(le32_bytes(v)) == v,
{
    assert(v == (v % 256) + 256 * ((v / 256) % 256) + 65536 * ((v / 65536) % 256) + 16777216 * (
    v / 16777216)) by (bit_vector);
    assert(v / 16777216 < 256) by (bit_vector);
}

/// `e` is the position of the first NUL byte of `r`.
pub open spec fn nul_at(r: Seq<u8>, e: int) -> bool {
    &&& 0 <= e < r.len()
    &&& r[e] == 0
    &&& forall|j: int| 0 <= j < e ==> r[j] != 0
}

/// `r` holds a NUL byte.
pub open spec fn has_nul(r: Seq<u8>) -> bool {
    exists|e: int| nul_at(r, e)
}

/// The position of the first NUL byte of `r` (meaningful when `has_nul(r)`).
pub open spec fn first_nul(r: Seq<u8>) -> int {
    choose|e: int| nul_at(r, e)
}

/// Every byte of `b` is an ASCII code (below 128).
pub open spec fn all_ascii(b: Seq<u8>) -> bool {
    forall|i: int| 0 <= i < b.len() ==> b[i] < 128
}

/// The characters that the ASCII bytes `b` stand for.
pub open spec fn ascii_chars(b: Seq<u8>) -> Seq<char> {
    b.map_values(|x: u8| x as char)
}

/// A NUL-terminated ASCII string at the start of `r`: its characters and the
/// number of bytes it takes, terminator included.
pub open spec fn ascii_field(r: Seq<u8>) -> Option<(Seq<char>, int)> {
    if has_nul(r) && all_ascii(r.take(first_nul(r))) {
        Some((ascii_chars(r.take(first_nul(r))), first_nul(r) + 1))
    } else {
        None
    }
}

/// A string that can be written as a NUL-terminated ASCII field: ASCII and
/// free of NUL characters.
pub open spec fn is_wire_string(s: Seq<char>) -> bool {
    forall|i: int| 0 <= i < s.len() ==> '\0' < #[trigger] s[i] <= '\u{7f}'
}

/// The first NUL position is unique.
pub proof fn lemma_nul_at_unique(r: Seq<u8>, e1: int, e2: int)
    requires
        nul_at(r, e1),
        nul_at(r, e2),
    ensures
        e1 == e2,
{
}

/// The UTF-8 encoding of a wire string, followed by a NUL and anything else,
/// reads back as that string.
pub proof fn lemma_ascii_field_roundtrip(s: Seq<char>, rest: Seq<u8>)
    requires
        is_wire_string(s),
    ensures
        ascii_field(encode_utf8(s) + seq![0u8] + rest) == Some((s, s.len() + 1int)),
{
    broadcast use vstd::utf8::is_ascii_chars_encode_utf8;

    assert(is_ascii_chars(s));
    let b = encode_utf8(s);
    let r = b + seq![0u8] + rest;
    assert(b.len() == s.len());
    assert forall|j: int| 0 <= j < s.len() implies r[j] != 0 && b[j] < 128 by {
        assert(s[j] as u8 == b[j]);
        assert('\0' < s[j] <= '\u{7f}');
    }
    assert(nul_at(r, s.len() as int));
    let e = first_nul(r);
    lemma_nul_at_unique(r, e, s.len() as int);
    assert(r.take(e) =~= b);
    assert(all_ascii(b));
    assert forall|j: int| 0 <= j < s.len() implies ascii_chars(b)[j] == s[j] by {
        assert(s[j] as u8 == b[j]);
    }
    assert(ascii_chars(b) =~= s);
}

/// ASCII bytes are valid UTF-8, and they encode the characters they stand for.
pub proof fn lemma_ascii_bytes_utf8(b: Seq<u8>)
    requires
        all_ascii(b),
    ensures
        encode_utf8(ascii_chars(b)) == b,
        valid_utf8(b),
        decode_utf8(b) == ascii_chars(b),
{
    broadcast use vstd::utf8::is_ascii_chars_encode_utf8;
    broadcast use vstd::utf8::encode_utf8_valid_utf8;
    broadcast use vstd::utf8::encode_utf8_decode_utf8;

    let c = ascii_chars(b);
    assert(is_ascii_chars(c));
    let e = encode_utf8(c);
    assert(e.len() == c.len());
    assert forall|i: int| 0 <= i < b.len() implies e[i] == b[i] by {
        assert(c[i] as u8 == e[i]);
    }
    assert(e =~= b);
}

} // verus!

verus! {

/// The body shared by the ephemeral and proof messages: a 32-bit session id,
/// a 16-bit length (the payload's length modulo 2^16) and the payload.
pub open spec fn payload_body_bytes(id: u32, data: Seq<u8>) -> Seq<u8> {
    le32_bytes(id) + le16_bytes((data.len() % 65536) as u16) + data
}

/// Reading a payload body from `r`: the id and payload when complete, and the
/// number of bytes consumed in any case.
pub open spec fn parse_payload_body(r: Seq<u8>) -> (Option<(u32, Seq<u8>)>, int) {
    if r.len() < 4 {
        (None, 0)
    } else if r.len() < 6 {
        (None, 4)
    } else if r.len() - 6 < le16_value(r.skip(4)) {
        (None, 6)
    } else {
        (
            Some((le32_value(r), r.subrange(6, 6 + le16_value(r.skip(4))))),
            6 + le16_value(r.skip(4)),
        )
    }
}

/// A payload body of at most 65535 bytes reads back as the same id and payload
/// and takes exactly its own length, whatever follows it.
pub proof fn lemma_payload_body_roundtrip(id: u32, data: Seq<u8>, rest: Seq<u8>)
    requires
        data.len() <= 65535,
    ensures
        payload_body_bytes(id, data).len() == 6 + data.len(),
        parse_payload_body(payload_body_bytes(id, data) + rest) == (Some((id, data)), 6 + data.len() as int),
{
    lemma_le32_roundtrip(id);
    let l = (data.len() % 65536) as u16;
    lemma_le16_roundtrip(l);
    let b = payload_body_bytes(id, data) + rest;
    assert(b.skip(4).take(2) =~= le16_bytes(l));
    assert(b.take(4) =~= le32_bytes(id));
    assert(le16_value(b.skip(4)) == le16_value(le16_bytes(l)));
    assert(le32_value(b) == le32_value(le32_bytes(id)));
    assert(b.subrange(6, 6 + data.len() as int) =~= data);
}

} // verus!
