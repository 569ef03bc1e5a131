//! Requests a client sends: negotiate, ephemeral key, and proof.

use vstd::prelude::*;
use vstd::string::*;
use vstd::utf8::encode_utf8;
use crate::reader::Reader;
use crate::writer::Writer;
use crate::wire::{
    ascii_field, is_wire_string, le32_bytes, le32_value, lemma_ascii_field_roundtrip,
    lemma_le32_roundtrip, lemma_payload_body_roundtrip, parse_payload_body, payload_body_bytes,
};

verus! {

// Messages we receive from a client.
pub const REQUEST_NEGOTIATE: u32 = 0xD003CA01;
pub const REQUEST_EPHEMERAL: u32 = 0xD003CA02;
pub const REQUEST_PROOF: u32 = 0xD003CA03;

/// The three request headers a server accepts.
pub open spec fn is_request_header(h: u32) -> bool {
    h == REQUEST_NEGOTIATE || h == REQUEST_EPHEMERAL || h == REQUEST_PROOF
}

/// A request whose header has been read; its body is read through it.
pub struct Request<'reader, 'content: 'reader> {
    reader: &'reader mut Reader<'content>,
    pub header: u32,
}

impl<'reader, 'content: 'reader> Request<'reader, 'content> {
    /// The reader the body is read from, as it stands now.
    pub closed spec fn reader_state(&self) -> Reader<'content> {
        *self.reader
    }

    /// The header that was read.
    pub closed spec fn header_value(&self) -> u32 {
        self.header
    }

    /// The header that was read.
    pub fn header(&self) -> (r: u32)
        ensures
            r == self.header_value(),
    {
        self.header
    }

    /// Reads the header. A short input leaves the reader as it was; an unknown
    /// header is consumed and refused.
    pub fn from_reader(reader: &'reader mut Reader<'content>) -> (r: Result<Self, ()>)
        ensures
            old(reader).rest().len() < 4 ==> r is Err && final(reader).advanced(*old(reader), 0),
            old(reader).rest().len() >= 4 && !is_request_header(le32_value(old(reader).rest()))
                ==> r is Err && final(reader).advanced(*old(reader), 4),
            old(reader).rest().len() >= 4 && is_request_header(le32_value(old(reader).rest()))
                ==> r is Ok,
            r matches Ok(req) ==> {
                &&& req.header_value() == le32_value(old(reader).rest())
                &&& old(reader).rest().len() >= 4
                &&& req.reader_state().advanced(*old(reader), 4)
            },
    {
        let value = reader.read_u32le()?;
        if value == REQUEST_NEGOTIATE || value == REQUEST_EPHEMERAL || value == REQUEST_PROOF {
            let req = Request { reader, header: value };
            assert(req.reader_state().advanced(*old(reader), 4));
            Ok(req)
        } else {
            Err(())
        }
    }
}

/// Reads a payload body: session id, 16-bit length, payload.
pub(crate) fn read_payload_body<'a>(reader: &'a mut Reader) -> (r: Result<(u32, &'a [u8]), ()>)
    ensures
        ({
            let (p, n) = parse_payload_body(old(reader).rest());
            &&& final(reader).advanced(*old(reader), n)
            &&& match r {
                Ok((id, data)) => p == Some((id, data@)),
                Err(_) => p is None,
            }
        }),
{
    let session_id = reader.read_u32le()?;
    let ghost r1 = *reader;
    let length = match reader.read_u16le() {
        Ok(length) => length,
        Err(()) => {
            return Err(());
        },
    };
    let ghost r2 = *reader;
    proof {
        Reader::lemma_advanced_trans(*old(reader), r1, r2, 4, 2);
        assert(old(reader).rest().skip(4) =~= r1.rest());
    }
    let (rd, payload) = reader.read_bytes(length as usize);
    match payload {
        Ok(payload) => {
            proof {
                Reader::lemma_advanced_trans(*old(reader), r2, *rd, 6, length as int);
                assert(payload@ =~= old(reader).rest().subrange(6, 6 + length as int));
            }
            Ok((session_id, payload))
        },
        Err(()) => {
            proof {
                Reader::lemma_advanced_trans(*old(reader), r2, *rd, 6, 0);
            }
            Err(())
        },
    }
}

/// The bytes of a negotiate request.
pub open spec fn negotiate_request_bytes(protocol: u8, client_session_id: u32, username: Seq<char>) -> Seq<u8> {
    le32_bytes(REQUEST_NEGOTIATE) + seq![protocol] + le32_bytes(client_session_id) + encode_utf8(username)
        + seq![0u8]
}

/// Reading a negotiate request body (after its header) from `r`: protocol,
/// client session id and user name when complete, and the bytes consumed.
pub open spec fn parse_negotiate_request(r: Seq<u8>) -> (Option<(u8, u32, Seq<char>)>, int) {
    if r.len() < 1 {
        (None, 0)
    } else if r.len() < 5 {
        (None, 1)
    } else {
        match ascii_field(r.skip(5)) {
            None => (None, 5),
            Some((name, n)) => (Some((r[0], le32_value(r.skip(1)), name)), 5 + n),
        }
    }
}

#[derive(Debug)]
pub struct NegotiateRequest<'a> {
    pub protocol: u8,
    pub client_session_id: u32,
    pub username: &'a str,
}

impl<'a> NegotiateRequest<'a> {
    pub fn marshall(&self, writer: &mut Writer)
        ensures
            final(writer)@ == old(writer)@ + negotiate_request_bytes(
                self.protocol,
                self.client_session_id,
                self.username@,
            ),
    {
        writer.append_u32le(REQUEST_NEGOTIATE);
        writer.append_u8(self.protocol);
        writer.append_u32le(self.client_session_id);
        writer.append_bytes(self.username.as_bytes());
        writer.append_u8(0);
        assert(writer@ =~= old(writer)@ + negotiate_request_bytes(
            self.protocol,
            self.client_session_id,
            self.username@,
        ));
    }

    pub fn unmarshall(request: &'a mut Request) -> (r: Result<Self, ()>)
        ensures
            ({
                let (p, n) = parse_negotiate_request(old(request).reader_state().rest());
                &&& final(request).reader_state().advanced(old(request).reader_state(), n)
                &&& final(request).header_value() == old(request).header_value()
                &&& match r {
                    Ok(m) => p == Some((m.protocol, m.client_session_id, m.username@)),
                    Err(_) => p is None,
                }
            }),
    {
        let reader = &mut *request.reader;
        let ghost r0 = *reader;
        let protocol = reader.read_u8()?;
        let ghost r1 = *reader;
        let client_session_id = match reader.read_u32le() {
            Ok(v) => v,
            Err(()) => {
                return Err(());
            },
        };
        let ghost r2 = *reader;
        proof {
            Reader::lemma_advanced_trans(r0, r1, r2, 1, 4);
            assert(r0.rest().skip(1) =~= r1.rest());
        }
        let (rd, username) = reader.read_ascii_str();
        match username {
            Ok(username) => {
                proof {
                    Reader::lemma_advanced_trans(r0, r2, *rd, 5, rd.pos() - r2.pos());
                }
                Ok(Self { protocol, client_session_id, username })
            },
            Err(()) => {
                proof {
                    Reader::lemma_advanced_trans(r0, r2, *rd, 5, 0);
                }
                Err(())
            },
        }
    }
}

/// The bytes of an ephemeral request.
pub open spec fn ephemeral_request_bytes(session_id: u32, ephemeral: Seq<u8>) -> Seq<u8> {
    le32_bytes(REQUEST_EPHEMERAL) + payload_body_bytes(session_id, ephemeral)
}

#[derive(Debug)]
pub struct EphemeralRequest<'a> {
    pub session_id: u32,
    pub ephemeral: &'a [u8],
}

impl<'a> EphemeralRequest<'a> {
    pub fn marshall(&self, writer: &mut Writer)
        ensures
            final(writer)@ == old(writer)@ + ephemeral_request_bytes(self.session_id, self.ephemeral@),
    {
        writer.append_u32le(REQUEST_EPHEMERAL);
        writer.append_u32le(self.session_id);
        writer.append_u16le((self.ephemeral.len() % 65536) as u16);
        writer.append_bytes(self.ephemeral);
        assert(writer@ =~= old(writer)@ + ephemeral_request_bytes(self.session_id, self.ephemeral@));
    }

    pub fn unmarshall(request: &'a mut Request) -> (r: Result<Self, ()>)
        ensures
            ({
                let (p, n) = parse_payload_body(old(request).reader_state().rest());
                &&& final(request).reader_state().advanced(old(request).reader_state(), n)
                &&& final(request).header_value() == old(request).header_value()
                &&& match r {
                    Ok(m) => p == Some((m.session_id, m.ephemeral@)),
                    Err(_) => p is None,
                }
            }),
    {
        let (session_id, ephemeral) = read_payload_body(&mut *request.reader)?;
        Ok(Self { session_id, ephemeral })
    }
}

/// The bytes of a proof request.
pub open spec fn proof_request_bytes(session_id: u32, proof: Seq<u8>) -> Seq<u8> {
    le32_bytes(REQUEST_PROOF) + payload_body_bytes(session_id, proof)
}

#[derive(Debug)]
pub struct ProofRequest<'a> {
    pub session_id: u32,
    pub proof: &'a [u8],
}

impl<'a> ProofRequest<'a> {
    pub fn marshall(&self, writer: &mut Writer)
        ensures
            final(writer)@ == old(writer)@ + proof_request_bytes(self.session_id, self.proof@),
    {
        writer.append_u32le(REQUEST_PROOF);
        writer.append_u32le(self.session_id);
        writer.append_u16le((self.proof.len() % 65536) as u16);
        writer.append_bytes(self.proof);
        assert(writer@ =~= old(writer)@ + proof_request_bytes(self.session_id, self.proof@));
    }

    pub fn unmarshall(request: &'a mut Request) -> (r: Result<Self, ()>)
        ensures
            ({
                let (p, n) = parse_payload_body(old(request).reader_state().rest());
                &&& final(request).reader_state().advanced(old(request).reader_state(), n)
                &&& final(request).header_value() == old(request).header_value()
                &&& match r {
                    Ok(m) => p == Some((m.session_id, m.proof@)),
                    Err(_) => p is None,
                }
            }),
    {
        let (session_id, proof) = read_payload_body(&mut *request.reader)?;
        Ok(Self { session_id, proof })
    }
}

/// A written negotiate request carries the negotiate header, and its body reads
/// back as the same protocol, client session id and user name, whatever
/// follows it, when the user name is ASCII without NUL characters.
pub proof fn lemma_negotiate_request_roundtrip(
    protocol: u8,
    client_session_id: u32,
    username: Seq<char>,
    rest: Seq<u8>,
)
    requires
        is_wire_string(username),
    ensures
        ({
            let b = negotiate_request_bytes(protocol, client_session_id, username) + rest;
            &&& le32_value(b) == REQUEST_NEGOTIATE
            &&& parse_negotiate_request(b.skip(4)) == (
                Some((protocol, client_session_id, username)),
                negotiate_request_bytes(protocol, client_session_id, username).len() - 4,
            )
        }),
{
    broadcast use vstd::utf8::is_ascii_chars_encode_utf8;

    lemma_le32_roundtrip(REQUEST_NEGOTIATE);
    lemma_le32_roundtrip(client_session_id);
    lemma_ascii_field_roundtrip(username, rest);
    let u = encode_utf8(username);
    let b = negotiate_request_bytes(protocol, client_session_id, username) + rest;
    let body = b.skip(4);
    assert(b.take(4) =~= le32_bytes(REQUEST_NEGOTIATE));
    assert(le32_value(b) == le32_value(le32_bytes(REQUEST_NEGOTIATE)));
    assert(body.skip(1).take(4) =~= le32_bytes(client_session_id));
    assert(le32_value(body.skip(1)) == le32_value(le32_bytes(client_session_id)));
    assert(body.skip(5) =~= u + seq![0u8] + rest);
    assert(vstd::utf8::is_ascii_chars(username));
}

/// A written ephemeral request carries the ephemeral header, and its body
/// reads back as the same session id and key, when the key is at most 65535
/// bytes long.
pub proof fn lemma_ephemeral_request_roundtrip(session_id: u32, ephemeral: Seq<u8>, rest: Seq<u8>)
    requires
        ephemeral.len() <= 65535,
    ensures
        ({
            let b = ephemeral_request_bytes(session_id, ephemeral) + rest;
            &&& le32_value(b) == REQUEST_EPHEMERAL
            &&& parse_payload_body(b.skip(4)) == (Some((session_id, ephemeral)), 6 + ephemeral.len() as int)
        }),
{
    lemma_le32_roundtrip(REQUEST_EPHEMERAL);
    lemma_payload_body_roundtrip(session_id, ephemeral, rest);
    let b = ephemeral_request_bytes(session_id, ephemeral) + rest;
    assert(b.take(4) =~= le32_bytes(REQUEST_EPHEMERAL));
    assert(le32_value(b) == le32_value(le32_bytes(REQUEST_EPHEMERAL)));
    assert(b.skip(4) =~= payload_body_bytes(session_id, ephemeral) + rest);
}

/// A written proof request carries the proof header, and its body reads back
/// as the same session id and proof, when the proof is at most 65535 bytes.
pub proof fn lemma_proof_request_roundtrip(session_id: u32, proof: Seq<u8>, rest: Seq<u8>)
    requires
        proof.len() <= 65535,
    ensures
        ({
            let b = proof_request_bytes(session_id, proof) + rest;
            &&& le32_value(b) == REQUEST_PROOF
            &&& parse_payload_body(b.skip(4)) == (Some((session_id, proof)), 6 + proof.len() as int)
        }),
{
    lemma_le32_roundtrip(REQUEST_PROOF);
    lemma_payload_body_roundtrip(session_id, proof, rest);
    let b = proof_request_bytes(session_id, proof) + rest;
    assert(b.take(4) =~= le32_bytes(REQUEST_PROOF));
    assert(le32_value(b) == le32_value(le32_bytes(REQUEST_PROOF)));
    assert(b.skip(4) =~= payload_body_bytes(session_id, proof) + rest);
}

} // verus!
