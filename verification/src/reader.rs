//! A cursor over a received datagram.

use vstd::prelude::*;
use vstd::slice::slice_subrange;
use vstd::string::*;
use vstd::utf8::valid_utf8;
use crate::wire::{ascii_chars, ascii_field, le16_value, le32_value, lemma_ascii_bytes_utf8, lemma_nul_at_unique, first_nul, nul_at, all_ascii};

verus! {

/// Reads little-endian integers, byte strings and NUL-terminated ASCII strings
/// from a byte slice, front to back.
pub struct Reader<'a> {
    pos: usize,
    content: &'a [u8],
}

/// Calls `std::str::from_utf8` and keeps the string on success.
/// Claimed: it succeeds exactly on valid UTF-8, and the string it gives has the
/// input's bytes.
#[verifier::external_body]
fn str_from_utf8(bytes: &[u8]) -> (res: Option<&str>)
    ensures
        res is Some <==> valid_utf8(bytes@),
        res matches Some(s) ==> s.spec_bytes() == bytes@,
{
    std::str::from_utf8(bytes).ok()
}

impl<'a> Reader<'a> {
    #[verifier::type_invariant]
    closed spec fn inv(&self) -> bool {
        self.pos <= self.content@.len()
    }

    /// All the bytes the reader was made with.
    pub closed spec fn bytes(&self) -> Seq<u8> {
        self.content@
    }

    /// How many bytes have been read so far.
    pub closed spec fn pos(&self) -> int {
        self.pos as int
    }

    /// The bytes not read yet.
    pub open spec fn rest(&self) -> Seq<u8> {
        self.bytes().skip(self.pos())
    }

    /// `self` is `old` moved on by `n` bytes.
    pub open spec fn advanced(&self, old: Reader<'a>, n: int) -> bool {
        &&& self.bytes() == old.bytes()
        &&& self.pos() == old.pos() + n
        &&& 0 <= n <= old.rest().len()
        &&& self.rest() == old.rest().skip(n)
    }

    /// Moving on by `m` then by `n` bytes is moving on by `m + n` bytes.
    pub proof fn lemma_advanced_trans(a: Reader<'a>, b: Reader<'a>, c: Reader<'a>, m: int, n: int)
        requires
            b.advanced(a, m),
            c.advanced(b, n),
        ensures
            c.advanced(a, m + n),
    {
        assert(a.rest().skip(m).skip(n) =~= a.rest().skip(m + n));
    }

    pub fn new(content: &[u8]) -> (r: Reader)
        ensures
            r.bytes() == content@,
            r.pos() == 0,
            r.rest() == content@,
    {
        let r = Reader { pos: 0, content };
        assert(r.rest() =~= content@);
        r
    }

    pub fn read_u8(&mut self) -> (r: Result<u8, ()>)
        ensures
            match r {
                Ok(v) => old(self).rest().len() >= 1 && v == old(self).rest()[0]
                    && final(self).advanced(*old(self), 1),
                Err(_) => old(self).rest().len() < 1 && final(self).advanced(*old(self), 0),
            },
    {
        proof {
            use_type_invariant(&*self);
        }
        if self.pos < self.content.len() {
            let value = self.content[self.pos];
            self.pos = self.pos + 1;
            assert(self.rest() =~= old(self).rest().skip(1));
            Ok(value)
        } else {
            assert(self.rest() =~= old(self).rest().skip(0));
            Err(())
        }
    }

    pub fn read_u16le(&mut self) -> (r: Result<u16, ()>)
        ensures
            match r {
                Ok(v) => old(self).rest().len() >= 2 && v == le16_value(old(self).rest())
                    && final(self).advanced(*old(self), 2),
                Err(_) => old(self).rest().len() < 2 && final(self).advanced(*old(self), 0),
            },
    {
        proof {
            use_type_invariant(&*self);
        }
        if self.content.len() - self.pos >= 2 {
            let b0 = self.content[self.pos];
            let b1 = self.content[self.pos + 1];
            let value: u16 = b0 as u16 + (b1 as u16) * 256;
            self.pos = self.pos + 2;
            assert(self.rest() =~= old(self).rest().skip(2));
            Ok(value)
        } else {
            assert(self.rest() =~= old(self).rest().skip(0));
            Err(())
        }
    }

    pub fn read_u32le(&mut self) -> (r: Result<u32, ()>)
        ensures
            match r {
                Ok(v) => old(self).rest().len() >= 4 && v == le32_value(old(self).rest())
                    && final(self).advanced(*old(self), 4),
                Err(_) => old(self).rest().len() < 4 && final(self).advanced(*old(self), 0),
            },
    {
        proof {
            use_type_invariant(&*self);
        }
        if self.content.len() - self.pos >= 4 {
            let b0 = self.content[self.pos];
            let b1 = self.content[self.pos + 1];
            let b2 = self.content[self.pos + 2];
            let b3 = self.content[self.pos + 3];
            let value: u32 = b0 as u32 + (b1 as u32) * 256 + (b2 as u32) * 65536 + (b3 as u32)
                * 16777216;
            self.pos = self.pos + 4;
            assert(self.rest() =~= old(self).rest().skip(4));
            Ok(value)
        } else {
            assert(self.rest() =~= old(self).rest().skip(0));
            Err(())
        }
    }

    /// Reads a NUL-terminated ASCII string; the terminator is consumed but not
    /// returned. Without a terminator, or with a non-ASCII byte before it,
    /// nothing is consumed.
    pub fn read_ascii_str(&mut self) -> (r: (&mut Self, Result<&str, ()>))
        ensures
            match r.1 {
                Ok(s) => ascii_field(old(self).rest()) == Some((s@, r.0.pos() - old(self).pos()))
                    && r.0.advanced(*old(self), r.0.pos() - old(self).pos()),
                Err(_) => ascii_field(old(self).rest()) is None && r.0.advanced(*old(self), 0),
            },
            *final(self) == *final(r.0),
    {
        proof {
            use_type_invariant(&*self);
        }
        let len = self.content.len();
        let start = self.pos;
        let ghost rest = self.content@.skip(start as int);
        let mut end = start;
        while end < len && self.content[end] != 0
            invariant
                start <= end <= len,
                len == self.content@.len(),
                start == self.pos,
                rest == self.content@.skip(start as int),
                *self == *old(self),
                forall|j: int| 0 <= j < end - start ==> rest[j] != 0,
            decreases len - end,
        {
            end = end + 1;
        }
        if end == len {
            proof {
                assert forall|e: int| !nul_at(rest, e) by {
                    if nul_at(rest, e) {
                        assert(rest[e] != 0);
                    }
                }
            }
            assert(self.rest() =~= old(self).rest().skip(0));
            return (self, Err(()));
        }
        let ghost e = end - start;
        assert(nul_at(rest, e));
        proof {
            lemma_nul_at_unique(rest, e, first_nul(rest));
        }
        let value = slice_subrange(self.content, start, end);
        assert(value@ =~= rest.take(e));
        let mut i: usize = 0;
        while i < value.len()
            invariant
                i <= value@.len(),
                forall|j: int| 0 <= j < i ==> value@[j] < 128,
                *self == *old(self),
                start == self.pos,
                end < len,
                len == self.content@.len(),
                rest == self.content@.skip(start as int),
                value@ == rest.take(e),
                nul_at(rest, e),
                e == first_nul(rest),
                e == end - start,
            decreases value@.len() - i,
        {
            if value[i] >= 128 {
                assert(!all_ascii(rest.take(first_nul(rest))));
                assert(self.rest() =~= old(self).rest().skip(0));
                return (self, Err(()));
            }
            i = i + 1;
        }
        proof {
            lemma_ascii_bytes_utf8(value@);
        }
        match str_from_utf8(value) {
            Some(s) => {
                proof {
                    broadcast use vstd::utf8::encode_utf8_decode_utf8;

                    assert(s@ == ascii_chars(value@));
                }
                self.pos = end + 1;
                assert(self.rest() =~= old(self).rest().skip(e + 1));
                (self, Ok(s))
            },
            None => {
                assert(self.rest() =~= old(self).rest().skip(0));
                (self, Err(()))
            },
        }
    }

    /// Reads `length` bytes; when fewer remain, nothing is consumed.
    pub fn read_bytes(&mut self, length: usize) -> (r: (&mut Self, Result<&[u8], ()>))
        ensures
            match r.1 {
                Ok(b) => old(self).rest().len() >= length && b@ == old(self).rest().take(
                    length as int,
                ) && r.0.advanced(*old(self), length as int),
                Err(_) => old(self).rest().len() < length && r.0.advanced(*old(self), 0),
            },
            *final(self) == *final(r.0),
    {
        proof {
            use_type_invariant(&*self);
        }
        if self.content.len() - self.pos >= length {
            let value = slice_subrange(self.content, self.pos, self.pos + length);
            assert(value@ =~= self.content@.skip(self.pos as int).take(length as int));
            self.pos = self.pos + length;
            assert(self.rest() =~= old(self).rest().skip(length as int));
            (self, Ok(value))
        } else {
            assert(self.rest() =~= old(self).rest().skip(0));
            (self, Err(()))
        }
    }
}

} // verus!
