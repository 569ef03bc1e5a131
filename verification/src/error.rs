//! Error replies sent back to a client.

use vstd::prelude::*;
use crate::reader::Reader;
use crate::writer::Writer;
use crate::wire::{le32_bytes, le32_value, lemma_le32_roundtrip};

verus! {

pub const ERR_USER_ID: u32 = 0xD003CAFF;
pub const ERR_SESSION_ID: u32 = 0xD003CAEE;

pub const ERR_USER_BUSY: u8 = 0;
pub const ERR_USER_NOT_FOUND: u8 = 1;
pub const ERR_USER_UNSUPPORTED_PROTOCOL: u8 = 2;
pub const ERR_USER_IGNORED: u8 = 3;

pub const ERR_SESSION_BUSY: u8 = 0;
pub const ERR_SESSION_NOT_FOUND: u8 = 1;
pub const ERR_SESSION_VERIFIER_UNSAFE: u8 = 2;
pub const ERR_SESSION_FAILURE: u8 = 3;

/// An error reply: about a user (before a session exists) or about a session.
#[derive(Debug, PartialEq, Eq, Structural)]
pub enum ErrorResponse {
    User(UserError),
    Session(SessionError),
}

#[derive(Debug, PartialEq, Eq, Structural)]
pub struct UserError {
    pub error: u8,
    pub client_session_id: u32,
}

#[derive(Debug, PartialEq, Eq, Structural)]
pub struct SessionError {
    pub error: u8,
    pub session_id: u32,
}

/// The body shared by both error replies: an error code, then a 32-bit id.
pub open spec fn error_body_bytes(error: u8, id: u32) -> Seq<u8> {
    seq![error] + le32_bytes(id)
}

/// Reading an error body from `r`: the code and id when both are present, and
/// the number of bytes consumed in any case.
pub open spec fn parse_error_body(r: Seq<u8>) -> (Option<(u8, u32)>, int) {
    if r.len() < 1 {
        (None, 0)
    } else if r.len() < 5 {
        (None, 1)
    } else {
        (Some((r[0], le32_value(r.skip(1)))), 5)
    }
}

/// The bytes of a user error reply.
pub open spec fn user_error_bytes(e: UserError) -> Seq<u8> {
    le32_bytes(ERR_USER_ID) + error_body_bytes(e.error, e.client_session_id)
}

/// The bytes of a session error reply.
pub open spec fn session_error_bytes(e: SessionError) -> Seq<u8> {
    le32_bytes(ERR_SESSION_ID) + error_body_bytes(e.error, e.session_id)
}

/// The bytes of an error reply.
pub open spec fn error_response_bytes(e: ErrorResponse) -> Seq<u8> {
    match e {
        ErrorResponse::User(u) => user_error_bytes(u),
        ErrorResponse::Session(s) => session_error_bytes(s),
    }
}

/// Reads `code, id` as an error body.
fn read_error_body(reader: &mut Reader) -> (r: Result<(u8, u32), ()>)
    ensures
        ({
            let (p, n) = parse_error_body(old(reader).rest());
            &&& final(reader).advanced(*old(reader), n)
            &&& match r {
                Ok(v) => p == Some(v),
                Err(_) => p is None,
            }
        }),
{
    let error = reader.read_u8()?;
    let ghost mid = *reader;
    let id = reader.read_u32le()?;
    proof {
        Reader::lemma_advanced_trans(*old(reader), mid, *reader, 1, 4);
    }
    Ok((error, id))
}

impl ErrorResponse {
    pub fn marshall(&self, writer: &mut Writer)
        ensures
            final(writer)@ == old(writer)@ + error_response_bytes(*self),
    {
        match self {
            Self::User(err) => err.marshall(writer),
            Self::Session(err) => err.marshall(writer),
        }
    }
}

impl UserError {
    pub fn marshall(&self, writer: &mut Writer)
        ensures
            final(writer)@ == old(writer)@ + user_error_bytes(*self),
    {
        writer.append_u32le(ERR_USER_ID);
        writer.append_u8(self.error);
        writer.append_u32le(self.client_session_id);
        assert(writer@ =~= old(writer)@ + user_error_bytes(*self));
    }

    /// Reads the body of a user error reply (the 32-bit id before it is read
    /// by the caller).
    pub fn unmarshall(reader: &mut Reader) -> (r: Result<Self, ()>)
        ensures
            ({
                let (p, n) = parse_error_body(old(reader).rest());
                &&& final(reader).advanced(*old(reader), n)
                &&& match r {
                    Ok(e) => p == Some((e.error, e.client_session_id)),
                    Err(_) => p is None,
                }
            }),
    {
        let (error, client_session_id) = read_error_body(reader)?;
        Ok(Self { error, client_session_id })
    }
}

impl SessionError {
    pub fn marshall(&self, writer: &mut Writer)
        ensures
            final(writer)@ == old(writer)@ + session_error_bytes(*self),
    {
        writer.append_u32le(ERR_SESSION_ID);
        writer.append_u8(self.error);
        writer.append_u32le(self.session_id);
        assert(writer@ =~= old(writer)@ + session_error_bytes(*self));
    }

    /// Reads the body of a session error reply (the 32-bit id before it is
    /// read by the caller).
    pub fn unmarshall(reader: &mut Reader) -> (r: Result<Self, ()>)
        ensures
            ({
                let (p, n) = parse_error_body(old(reader).rest());
                &&& final(reader).advanced(*old(reader), n)
                &&& match r {
                    Ok(e) => p == Some((e.error, e.session_id)),
                    Err(_) => p is None,
                }
            }),
    {
        let (error, session_id) = read_error_body(reader)?;
        Ok(Self { error, session_id })
    }
}

/// What is written for an error body reads back as the same code and id, and
/// takes exactly its own length, whatever follows it.
pub proof fn lemma_error_body_roundtrip(error: u8, id: u32, rest: Seq<u8>)
    ensures
        parse_error_body(error_body_bytes(error, id) + rest) == (Some((error, id)), 5int),
        error_body_bytes(error, id).len() == 5,
{
    lemma_le32_roundtrip(id);
    let b = error_body_bytes(error, id) + rest;
    assert(b.skip(1).take(4) =~= le32_bytes(id));
}

/// A written user error reply starts with `ERR_USER_ID` and its body reads back
/// as the same error.
pub proof fn lemma_user_error_roundtrip(e: UserError, rest: Seq<u8>)
    ensures
        le32_value(user_error_bytes(e) + rest) == ERR_USER_ID,
        parse_error_body((user_error_bytes(e) + rest).skip(4)) == (Some(
            (e.error, e.client_session_id),
        ), 5int),
{
    lemma_le32_roundtrip(ERR_USER_ID);
    lemma_error_body_roundtrip(e.error, e.client_session_id, rest);
    assert((user_error_bytes(e) + rest).skip(4) =~= error_body_bytes(e.error, e.client_session_id)
        + rest);
}

/// A written session error reply starts with `ERR_SESSION_ID` and its body
/// reads back as the same error.
pub proof fn lemma_session_error_roundtrip(e: SessionError, rest: Seq<u8>)
    ensures
        le32_value(session_error_bytes(e) + rest) == ERR_SESSION_ID,
        parse_error_body((session_error_bytes(e) + rest).skip(4)) == (Some(
            (e.error, e.session_id),
        ), 5int),
{
    lemma_le32_roundtrip(ERR_SESSION_ID);
    lemma_error_body_roundtrip(e.error, e.session_id, rest);
    assert((session_error_bytes(e) + rest).skip(4) =~= error_body_bytes(e.error, e.session_id)
        + rest);
}

} // verus!
