//! Responses the server sends back to a client.

use vstd::prelude::*;
use vstd::slice::slice_to_vec;
use vstd::string::*;
use vstd::utf8::encode_utf8;
use crate::reader::Reader;
use crate::writer::Writer;
use crate::requests::read_payload_body;
use crate::wire::{
    ascii_field, is_wire_string, le32_bytes, le32_value, lemma_ascii_field_roundtrip,
    lemma_le32_roundtrip, lemma_payload_body_roundtrip, parse_payload_body, payload_body_bytes,
};

verus! {

// Messages we send back to the client.
pub const RESPONSE_NEGOTIATE: u32 = 0xD003CA10;
pub const RESPONSE_EPHEMERAL: u32 = 0xD003CA20;
pub const RESPONSE_PROOF: u32 = 0xD003CA30;

/// A response with no content.
pub struct Response {}

#[derive(Debug)]
pub struct NegotiateResponse {
    pub client_session_id: u32,
    pub session_id: u32,
    pub salt: Vec<u8>,
    pub username: String,
}

/// The bytes of a negotiate response. The protocol byte is always 1, and the
/// salt length is written modulo 256.
pub open spec fn negotiate_response_bytes(
    client_session_id: u32,
    session_id: u32,
    salt: Seq<u8>,
    username: Seq<char>,
) -> Seq<u8> {
    le32_bytes(RESPONSE_NEGOTIATE) + seq![1u8] + le32_bytes(client_session_id) + le32_bytes(
        session_id,
    ) + seq![(salt.len() % 256) as u8] + salt + encode_utf8(username) + seq![0u8]
}

/// Reading a negotiate response body (after its header) from `r`: client
/// session id, session id, salt and user name when complete, and the bytes
/// consumed. The protocol byte is read and ignored.
pub open spec fn parse_negotiate_response(r: Seq<u8>) -> (Option<(u32, u32, Seq<u8>, Seq<char>)>, int) {
    if r.len() < 1 {
        (None, 0)
    } else if r.len() < 5 {
        (None, 1)
    } else if r.len() < 9 {
        (None, 5)
    } else if r.len() < 10 {
        (None, 9)
    } else if r.len() - 10 < r[9] {
        (None, 10)
    } else {
        match ascii_field(r.skip(10 + r[9])) {
            None => (None, 10 + r[9]),
            Some((name, n)) => (
                Some(
                    (
                        le32_value(r.skip(1)),
                        le32_value(r.skip(5)),
                        r.subrange(10, 10 + r[9]),
                        name,
                    ),
                ),
                10 + r[9] + n,
            ),
        }
    }
}

impl NegotiateResponse {
    pub fn marshall(&self, writer: &mut Writer)
        ensures
            final(writer)@ == old(writer)@ + negotiate_response_bytes(
                self.client_session_id,
                self.session_id,
                self.salt@,
                self.username@,
            ),
    {
        writer.append_u32le(RESPONSE_NEGOTIATE);
        // The protocol field is always 1 and is ignored when read.
        writer.append_u8(1);
        writer.append_u32le(self.client_session_id);
        writer.append_u32le(self.session_id);
        writer.append_u8((self.salt.len() % 256) as u8);
        writer.append_bytes(self.salt.as_slice());
        writer.append_bytes(self.username.as_str().as_bytes());
        writer.append_u8(0);
        assert(writer@ =~= old(writer)@ + negotiate_response_bytes(
            self.client_session_id,
            self.session_id,
            self.salt@,
            self.username@,
        ));
    }

    /// Reads the body of a negotiate response (after its header).
    pub fn unmarshall(reader: &mut Reader) -> (r: Result<Self, ()>)
        ensures
            ({
                let (p, n) = parse_negotiate_response(old(reader).rest());
                &&& final(reader).advanced(*old(reader), n)
                &&& match r {
                    Ok(m) => p == Some((m.client_session_id, m.session_id, m.salt@, m.username@)),
                    Err(_) => p is None,
                }
            }),
    {
        let ghost r0 = *reader;
        let _protocol = reader.read_u8()?;
        let ghost r1 = *reader;
        let client_session_id = match reader.read_u32le() {
            Ok(v) => v,
            Err(()) => {
                return Err(());
            },
        };
        let ghost r2 = *reader;
        proof {
            Reader::lemma_advanced_trans(r0, r1, r2, 1, 4);
            assert(r0.rest().skip(1) =~= r1.rest());
        }
        let session_id = match reader.read_u32le() {
            Ok(v) => v,
            Err(()) => {
                return Err(());
            },
        };
        let ghost r3 = *reader;
        proof {
            Reader::lemma_advanced_trans(r0, r2, r3, 5, 4);
            assert(r0.rest().skip(5) =~= r2.rest());
        }
        let salt_length = match reader.read_u8() {
            Ok(v) => v,
            Err(()) => {
                return Err(());
            },
        };
        let ghost r4 = *reader;
        proof {
            Reader::lemma_advanced_trans(r0, r3, r4, 9, 1);
            assert(r0.rest()[9] == r3.rest()[0]);
        }
        let (rd, salt) = reader.read_bytes(salt_length as usize);
        let salt = match salt {
            Ok(salt) => salt,
            Err(()) => {
                proof {
                    Reader::lemma_advanced_trans(r0, r4, *rd, 10, 0);
                }
                return Err(());
            },
        };
        let ghost r5 = *rd;
        proof {
            Reader::lemma_advanced_trans(r0, r4, r5, 10, salt_length as int);
            assert(salt@ =~= r0.rest().subrange(10, 10 + salt_length as int));
        }
        let salt = slice_to_vec(salt);
        let (rd2, username) = rd.read_ascii_str();
        let username = match username {
            Ok(username) => username,
            Err(()) => {
                proof {
                    Reader::lemma_advanced_trans(r0, r5, *rd2, 10 + salt_length as int, 0);
                }
                return Err(());
            },
        };
        proof {
            Reader::lemma_advanced_trans(
                r0,
                r5,
                *rd2,
                10 + salt_length as int,
                rd2.pos() - r5.pos(),
            );
        }
        Ok(Self { client_session_id, session_id, salt, username: username.to_owned() })
    }
}

/// The bytes of an ephemeral response.
pub open spec fn ephemeral_response_bytes(session_id: u32, ephemeral: Seq<u8>) -> Seq<u8> {
    le32_bytes(RESPONSE_EPHEMERAL) + payload_body_bytes(session_id, ephemeral)
}

#[derive(Debug)]
pub struct EphemeralResponse {
    pub session_id: u32,
    pub ephemeral: Vec<u8>,
}

impl EphemeralResponse {
    pub fn marshall(&self, writer: &mut Writer)
        ensures
            final(writer)@ == old(writer)@ + ephemeral_response_bytes(self.session_id, self.ephemeral@),
    {
        writer.append_u32le(RESPONSE_EPHEMERAL);
        writer.append_u32le(self.session_id);
        writer.append_u16le((self.ephemeral.len() % 65536) as u16);
        writer.append_bytes(self.ephemeral.as_slice());
        assert(writer@ =~= old(writer)@ + ephemeral_response_bytes(self.session_id, self.ephemeral@));
    }

    /// Reads the body of an ephemeral response (after its header).
    pub fn unmarshall(reader: &mut Reader) -> (r: Result<Self, ()>)
        ensures
            ({
                let (p, n) = parse_payload_body(old(reader).rest());
                &&& final(reader).advanced(*old(reader), n)
                &&& match r {
                    Ok(m) => p == Some((m.session_id, m.ephemeral@)),
                    Err(_) => p is None,
                }
            }),
    {
        let (session_id, ephemeral) = read_payload_body(reader)?;
        let ephemeral = slice_to_vec(ephemeral);
        Ok(Self { session_id, ephemeral })
    }
}

/// The bytes of a proof response.
pub open spec fn proof_response_bytes(session_id: u32, proof: Seq<u8>) -> Seq<u8> {
    le32_bytes(RESPONSE_PROOF) + payload_body_bytes(session_id, proof)
}

#[derive(Debug)]
pub struct ProofResponse {
    pub session_id: u32,
    pub proof: Vec<u8>,
}

impl ProofResponse {
    pub fn marshall(&self, writer: &mut Writer)
        ensures
            final(writer)@ == old(writer)@ + proof_response_bytes(self.session_id, self.proof@),
    {
        writer.append_u32le(RESPONSE_PROOF);
        writer.append_u32le(self.session_id);
        writer.append_u16le((self.proof.len() % 65536) as u16);
        writer.append_bytes(self.proof.as_slice());
        assert(writer@ =~= old(writer)@ + proof_response_bytes(self.session_id, self.proof@));
    }

    /// Reads the body of a proof response (after its header).
    pub fn unmarshall(reader: &mut Reader) -> (r: Result<Self, ()>)
        ensures
            ({
                let (p, n) = parse_payload_body(old(reader).rest());
                &&& final(reader).advanced(*old(reader), n)
                &&& match r {
                    Ok(m) => p == Some((m.session_id, m.proof@)),
                    Err(_) => p is None,
                }
            }),
    {
        let (session_id, proof) = read_payload_body(reader)?;
        let proof = slice_to_vec(proof);
        Ok(Self { session_id, proof })
    }
}

/// Where the fields of a negotiate response lie: the header in the first four
/// bytes, protocol byte 1 at offset 4, the client's session id little-endian at
/// offsets 5..9, the server's session id little-endian at offsets 9..13, the
/// salt's length at offset 13, the salt from offset 14, then the user name's
/// bytes and a closing NUL.
pub proof fn lemma_negotiate_response_layout(
    client_session_id: u32,
    session_id: u32,
    salt: Seq<u8>,
    username: Seq<char>,
)
    requires
        salt.len() < 256,
    ensures
        ({
            let b = negotiate_response_bytes(client_session_id, session_id, salt, username);
            let n = encode_utf8(username).len() as int;
            let k = salt.len() as int;
            &&& b.len() == 15 + k + n
            &&& le32_value(b) == RESPONSE_NEGOTIATE
            &&& b[4] == 1
            &&& b.subrange(5, 9) == le32_bytes(client_session_id)
            &&& le32_value(b.skip(5)) == client_session_id
            &&& b.subrange(9, 13) == le32_bytes(session_id)
            &&& le32_value(b.skip(9)) == session_id
            &&& b[13] == k
            &&& b.subrange(14, 14 + k) == salt
            &&& b.subrange(14 + k, 14 + k + n) == encode_utf8(username)
            &&& b[14 + k + n] == 0
        }),
{
    let b = negotiate_response_bytes(client_session_id, session_id, salt, username);
    let n = encode_utf8(username).len() as int;
    let k = salt.len() as int;
    lemma_le32_roundtrip(RESPONSE_NEGOTIATE);
    lemma_le32_roundtrip(client_session_id);
    lemma_le32_roundtrip(session_id);
    assert(b.subrange(0, 4) =~= le32_bytes(RESPONSE_NEGOTIATE));
    assert(b.subrange(5, 9) =~= le32_bytes(client_session_id));
    assert(b.subrange(9, 13) =~= le32_bytes(session_id));
    assert(b.skip(5).subrange(0, 4) =~= le32_bytes(client_session_id));
    assert(b.skip(9).subrange(0, 4) =~= le32_bytes(session_id));
    assert(le32_value(b) == le32_value(le32_bytes(RESPONSE_NEGOTIATE)));
    assert(le32_value(b.skip(5)) == le32_value(le32_bytes(client_session_id)));
    assert(le32_value(b.skip(9)) == le32_value(le32_bytes(session_id)));
    assert(b.subrange(14, 14 + k) =~= salt);
    assert(b.subrange(14 + k, 14 + k + n) =~= encode_utf8(username));
}

/// A written negotiate response carries the negotiate response header, and its
/// body reads back as the same ids, salt and user name, whatever follows it,
/// when the salt is at most 255 bytes and the user name is ASCII without NUL
/// characters.
pub proof fn lemma_negotiate_response_roundtrip(
    client_session_id: u32,
    session_id: u32,
    salt: Seq<u8>,
    username: Seq<char>,
    rest: Seq<u8>,
)
    requires
        salt.len() <= 255,
        is_wire_string(username),
    ensures
        ({
            let w = negotiate_response_bytes(client_session_id, session_id, salt, username);
            let b = w + rest;
            &&& le32_value(b) == RESPONSE_NEGOTIATE
            &&& parse_negotiate_response(b.skip(4)) == (
                Some((client_session_id, session_id, salt, username)),
                w.len() - 4,
            )
        }),
{
    broadcast use vstd::utf8::is_ascii_chars_encode_utf8;

    lemma_le32_roundtrip(RESPONSE_NEGOTIATE);
    lemma_le32_roundtrip(client_session_id);
    lemma_le32_roundtrip(session_id);
    lemma_ascii_field_roundtrip(username, rest);
    assert(vstd::utf8::is_ascii_chars(username));
    let u = encode_utf8(username);
    let w = negotiate_response_bytes(client_session_id, session_id, salt, username);
    let b = w + rest;
    let body = b.skip(4);
    assert(b.take(4) =~= le32_bytes(RESPONSE_NEGOTIATE));
    assert(le32_value(b) == le32_value(le32_bytes(RESPONSE_NEGOTIATE)));
    assert(body.skip(1).take(4) =~= le32_bytes(client_session_id));
    assert(le32_value(body.skip(1)) == le32_value(le32_bytes(client_session_id)));
    assert(body.skip(5).take(4) =~= le32_bytes(session_id));
    assert(le32_value(body.skip(5)) == le32_value(le32_bytes(session_id)));
    assert(body[9] == salt.len());
    assert(body.subrange(10, 10 + salt.len() as int) =~= salt);
    assert(body.skip(10 + salt.len() as int) =~= u + seq![0u8] + rest);
}

/// A written ephemeral response carries its header, and its body reads back
/// as the same session id and key, when the key is at most 65535 bytes.
pub proof fn lemma_ephemeral_response_roundtrip(session_id: u32, ephemeral: Seq<u8>, rest: Seq<u8>)
    requires
        ephemeral.len() <= 65535,
    ensures
        ({
            let b = ephemeral_response_bytes(session_id, ephemeral) + rest;
            &&& le32_value(b) == RESPONSE_EPHEMERAL
            &&& parse_payload_body(b.skip(4)) == (Some((session_id, ephemeral)), 6 + ephemeral.len() as int)
        }),
{
    lemma_le32_roundtrip(RESPONSE_EPHEMERAL);
    lemma_payload_body_roundtrip(session_id, ephemeral, rest);
    let b = ephemeral_response_bytes(session_id, ephemeral) + rest;
    assert(b.take(4) =~= le32_bytes(RESPONSE_EPHEMERAL));
    assert(le32_value(b) == le32_value(le32_bytes(RESPONSE_EPHEMERAL)));
    assert(b.skip(4) =~= payload_body_bytes(session_id, ephemeral) + rest);
}

/// A written proof response carries its header, and its body reads back as
/// the same session id and proof, when the proof is at most 65535 bytes.
pub proof fn lemma_proof_response_roundtrip(session_id: u32, proof: Seq<u8>, rest: Seq<u8>)
    requires
        proof.len() <= 65535,
    ensures
        ({
            let b = proof_response_bytes(session_id, proof) + rest;
            &&& le32_value(b) == RESPONSE_PROOF
            &&& parse_payload_body(b.skip(4)) == (Some((session_id, proof)), 6 + proof.len() as int)
        }),
{
    lemma_le32_roundtrip(RESPONSE_PROOF);
    lemma_payload_body_roundtrip(session_id, proof, rest);
    let b = proof_response_bytes(session_id, proof) + rest;
    assert(b.take(4) =~= le32_bytes(RESPONSE_PROOF));
    assert(le32_value(b) == le32_value(le32_bytes(RESPONSE_PROOF)));
    assert(b.skip(4) =~= payload_body_bytes(session_id, proof) + rest);
}

} // verus!
