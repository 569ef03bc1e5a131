//! Decodes a received datagram, dispatches it to the handler, and encodes the
//! answer.
//!
//! Ephemeral and proof requests need the SRP verifier between looking up the
//! session and answering; `handle_request` then hands back what the verifier
//! needs, and `finish_ephemeral` / `finish_proof` complete the answer.

use vstd::prelude::*;
use vstd::slice::slice_to_vec;
use crate::addr::RemoteAddr;
use crate::error::{error_response_bytes, ErrorResponse, ERR_SESSION_FAILURE, ERR_SESSION_NOT_FOUND, ERR_USER_NOT_FOUND};
use crate::handler::{finish_ephemeral_post, negotiate_outcome, session_error, user_error, Handler};
use crate::reader::Reader;
use crate::requests::{
    is_request_header, parse_negotiate_request, EphemeralRequest, NegotiateRequest, ProofRequest,
    Request, REQUEST_EPHEMERAL, REQUEST_NEGOTIATE, REQUEST_PROOF,
};
use crate::response::{
    ephemeral_response_bytes, negotiate_response_bytes, proof_response_bytes, EphemeralResponse,
    NegotiateResponse,
};
use crate::session::{destroy_state, Data, SessionList};
use crate::storage::{Storage, User};
use crate::wire::{le32_value, parse_payload_body};
use crate::writer::Writer;

verus! {

/// What became of a received datagram.
pub enum Received<V> {
    /// Dealt with; `true` when the request was decoded, `false` when it was
    /// dropped.
    Done(bool),
    /// An ephemeral request whose session and user were found: the verifier
    /// must compute the server's public key for `user` from the client's key,
    /// then `finish_ephemeral` answers.
    ServerKeyNeeded { session_id: u32, client_public_key: Vec<u8>, session: Data<V>, user: User },
    /// A proof request whose session and user were found: `verifier` must check
    /// `proof`, then `finish_proof` answers.
    ProofCheckNeeded { session_id: u32, proof: Vec<u8>, verifier: V },
    /// A proof request for a session that holds no verifier.
    MissingVerifier,
}

/// The session table is as it was.
pub open spec fn sessions_unchanged<V>(before: SessionList<V>, after: SessionList<V>) -> bool {
    after.state() == before.state() && after.same_config(&before)
}

/// The bytes written for the answer to a negotiate request.
pub open spec fn negotiate_reply_bytes(r: Result<NegotiateResponse, ErrorResponse>) -> Seq<u8> {
    match r {
        Ok(resp) => negotiate_response_bytes(
            resp.client_session_id,
            resp.session_id,
            resp.salt@,
            resp.username@,
        ),
        Err(e) => error_response_bytes(e),
    }
}

/// A negotiate request with body `body`: dropped when the body does not
/// decode, otherwise handled and answered with the response or the error.
pub open spec fn negotiate_case<V>(
    before: SessionList<V>,
    after: SessionList<V>,
    remote: RemoteAddr,
    body: Seq<u8>,
    out_before: Seq<u8>,
    out_after: Seq<u8>,
    r: Received<V>,
) -> bool {
    match parse_negotiate_request(body).0 {
        None => r == Received::<V>::Done(false) && out_after == out_before && sessions_unchanged(
            before,
            after,
        ),
        Some((protocol, client_session_id, name)) => {
            &&& r == Received::<V>::Done(true)
            &&& exists|res: Result<NegotiateResponse, ErrorResponse>|
                negotiate_outcome(before, after, remote, protocol, client_session_id, name, res)
                    && out_after == out_before + #[trigger] negotiate_reply_bytes(res)
        },
    }
}

/// An ephemeral request with body `body`: dropped when the body does not
/// decode; otherwise the session's data is taken, nothing is written, and the
/// server's key is asked for when the session and its user exist.
pub open spec fn ephemeral_case<V>(
    before: SessionList<V>,
    after: SessionList<V>,
    remote: RemoteAddr,
    body: Seq<u8>,
    out_before: Seq<u8>,
    out_after: Seq<u8>,
    r: Received<V>,
) -> bool {
    match parse_payload_body(body).0 {
        None => r == Received::<V>::Done(false) && out_after == out_before && sessions_unchanged(
            before,
            after,
        ),
        Some((session_id, key)) => out_after == out_before && ephemeral_lookup(
            before,
            after,
            remote,
            session_id,
            key,
            r,
        ),
    }
}

/// The session's data was taken for `session_id`; when it was there, the
/// server's key is asked for, for the session's user (or the user was gone and
/// nothing more is done).
pub open spec fn ephemeral_lookup<V>(
    before: SessionList<V>,
    after: SessionList<V>,
    remote: RemoteAddr,
    session_id: u32,
    key: Seq<u8>,
    r: Received<V>,
) -> bool {
    &&& after.one_reading_after(&before)
    &&& exists|taken: Option<Data<V>>|
        #[trigger] SessionList::take_data_post(before, after, remote, session_id, after.latest(), taken)
            && match taken {
            None => r == Received::<V>::Done(true),
            Some(d) => r == Received::<V>::Done(true) || (r matches Received::ServerKeyNeeded {
                session_id: id,
                client_public_key,
                session,
                user,
            } && id == session_id && client_public_key@ == key && session == d && user.id == d.user_id),
        }
}

/// A proof request with body `body`: dropped when the body does not decode;
/// otherwise the session's data is taken; a missing session or user is
/// answered with the error; else the verifier is asked to check the proof.
pub open spec fn proof_case<V>(
    before: SessionList<V>,
    after: SessionList<V>,
    remote: RemoteAddr,
    body: Seq<u8>,
    out_before: Seq<u8>,
    out_after: Seq<u8>,
    r: Received<V>,
) -> bool {
    match parse_payload_body(body).0 {
        None => r == Received::<V>::Done(false) && out_after == out_before && sessions_unchanged(
            before,
            after,
        ),
        Some((session_id, proof)) => after.one_reading_after(&before) && exists|taken: Option<Data<V>>|
            #[trigger] SessionList::take_data_post(before, after, remote, session_id, after.latest(), taken)
                && match taken {
                None => r == Received::<V>::Done(true) && out_after == out_before + error_response_bytes(
                    session_error(ERR_SESSION_NOT_FOUND, session_id),
                ),
                Some(d) => (r == Received::<V>::Done(true) && out_after == out_before
                    + error_response_bytes(user_error(ERR_USER_NOT_FOUND, d.client_session_id))) || (
                out_after == out_before && match d.verifier {
                    Some(v) => r matches Received::ProofCheckNeeded { session_id: id, proof: p, verifier }
                        && id == session_id && p@ == proof && verifier == v,
                    None => r == Received::<V>::MissingVerifier,
                }),
            },
    }
}

/// Decodes requests for a handler and encodes its answers.
pub struct Receiver<'handler, 'storage: 'handler, S: Storage + ?Sized, V> {
    handler: &'handler mut Handler<'storage, S, V>,
}

impl<'handler, 'storage: 'handler, S: Storage + ?Sized, V> Receiver<'handler, 'storage, S, V> {
    /// The handler's session table as it stands.
    pub closed spec fn sessions(&self) -> SessionList<V> {
        self.handler.sessions_state()
    }

    /// The handler's session table is well formed.
    pub open spec fn wf(&self) -> bool {
        self.sessions().wf()
    }

    pub fn new(handler: &'handler mut Handler<'storage, S, V>) -> (r: Self)
        ensures
            r.sessions() == old(handler).sessions_state(),
    {
        Receiver { handler }
    }

    /// Handles one datagram from `remote_addr`, writing any answer to `output`.
    /// A request that cannot be decoded is silently dropped.
    pub fn handle_request(&mut self, remote_addr: RemoteAddr, content: &mut Reader, output: &mut Writer) -> (r: Received<V>)
        requires
            old(self).wf(),
        ensures
            final(self).wf(),
            ({
                let rest = old(content).rest();
                let before = old(self).sessions();
                let after = final(self).sessions();
                &&& rest.len() < 4 || !is_request_header(le32_value(rest)) ==> r == Received::<V>::Done(false)
                    && final(output)@ == old(output)@ && sessions_unchanged(before, after)
                &&& rest.len() >= 4 && le32_value(rest) == REQUEST_NEGOTIATE ==> negotiate_case(
                    before,
                    after,
                    remote_addr,
                    rest.skip(4),
                    old(output)@,
                    final(output)@,
                    r,
                )
                &&& rest.len() >= 4 && le32_value(rest) == REQUEST_EPHEMERAL ==> ephemeral_case(
                    before,
                    after,
                    remote_addr,
                    rest.skip(4),
                    old(output)@,
                    final(output)@,
                    r,
                )
                &&& rest.len() >= 4 && le32_value(rest) == REQUEST_PROOF ==> proof_case(
                    before,
                    after,
                    remote_addr,
                    rest.skip(4),
                    old(output)@,
                    final(output)@,
                    r,
                )
            }),
    {
        match Request::from_reader(content) {
            Ok(mut request) => {
                if request.header() == REQUEST_NEGOTIATE {
                    Received::Done(self.on_negotiate(remote_addr, &mut request, output))
                } else if request.header() == REQUEST_EPHEMERAL {
                    self.on_ephemeral(remote_addr, &mut request, output)
                } else if request.header() == REQUEST_PROOF {
                    self.on_proof(remote_addr, &mut request, output)
                } else {
                    Received::Done(false)
                }
            },
            Err(()) => Received::Done(false),
        }
    }

    fn on_negotiate(&mut self, remote_addr: RemoteAddr, request: &mut Request, output: &mut Writer) -> (r: bool)
        requires
            old(self).wf(),
        ensures
            final(self).wf(),
            negotiate_case(
                old(self).sessions(),
                final(self).sessions(),
                remote_addr,
                old(request).reader_state().rest(),
                old(output)@,
                final(output)@,
                Received::<V>::Done(r),
            ),
    {
        match NegotiateRequest::unmarshall(request) {
            Ok(request) => {
                let res = self.handler.handle_negotiate(remote_addr, &request);
                match &res {
                    Ok(response) => response.marshall(output),
                    Err(response) => response.marshall(output),
                }
                assert(output@ == old(output)@ + negotiate_reply_bytes(res));
                true
            },
            Err(()) => false,
        }
    }

    fn on_ephemeral(&mut self, remote_addr: RemoteAddr, request: &mut Request, output: &mut Writer) -> (r: Received<V>)
        requires
            old(self).wf(),
        ensures
            final(self).wf(),
            ephemeral_case(
                old(self).sessions(),
                final(self).sessions(),
                remote_addr,
                old(request).reader_state().rest(),
                old(output)@,
                final(output)@,
                r,
            ),
    {
        // If the request could not be decoded, drop it silently.
        let ghost body = request.reader_state().rest();
        let ghost before = self.sessions();
        match EphemeralRequest::unmarshall(request) {
            Ok(req) => {
                let res = self.handler.begin_ephemeral(remote_addr, &req);
                let ghost now = self.sessions().latest();
                let ghost taken = choose|taken: Option<Data<V>>|
                    #[trigger] SessionList::take_data_post(
                        before,
                        self.sessions(),
                        remote_addr,
                        req.session_id,
                        now,
                        taken,
                    ) && crate::handler::lookup_outcome(
                        taken,
                        req.session_id,
                        res,
                        |d: Data<V>, v: (Data<V>, User)| crate::handler::is_session_user(d, v),
                    );
                let r = match res {
                    Ok((session, user)) => Received::ServerKeyNeeded {
                        session_id: req.session_id,
                        client_public_key: slice_to_vec(req.ephemeral),
                        session,
                        user,
                    },
                    // The error is not sent back.
                    Err(_) => Received::Done(true),
                };
                assert(parse_payload_body(body).0 == Some((req.session_id, req.ephemeral@)));
                assert(SessionList::take_data_post(
                    before,
                    self.sessions(),
                    remote_addr,
                    req.session_id,
                    now,
                    taken,
                ));
                assert(ephemeral_lookup(before, self.sessions(), remote_addr, req.session_id, req.ephemeral@, r));
                assert(ephemeral_case(before, self.sessions(), remote_addr, body, old(output)@, output@, r));
                r
            },
            Err(()) => Received::Done(false),
        }
    }

    fn on_proof(&mut self, remote_addr: RemoteAddr, request: &mut Request, output: &mut Writer) -> (r: Received<V>)
        requires
            old(self).wf(),
        ensures
            final(self).wf(),
            proof_case(
                old(self).sessions(),
                final(self).sessions(),
                remote_addr,
                old(request).reader_state().rest(),
                old(output)@,
                final(output)@,
                r,
            ),
    {
        // If the request could not be decoded, drop it silently.
        match ProofRequest::unmarshall(request) {
            Ok(request) => match self.handler.begin_proof(remote_addr, &request) {
                Ok(Some(verifier)) => Received::ProofCheckNeeded {
                    session_id: request.session_id,
                    proof: slice_to_vec(request.proof),
                    verifier,
                },
                Ok(None) => Received::MissingVerifier,
                Err(response) => {
                    response.marshall(output);
                    Received::Done(true)
                },
            },
            Err(()) => Received::Done(false),
        }
    }

    /// Answers an ephemeral request once the verifier has run: the server's
    /// key is sent when the safety check passed; nothing is sent otherwise.
    pub fn finish_ephemeral(
        &mut self,
        remote_addr: RemoteAddr,
        session_id: u32,
        client_public_key: &[u8],
        session: Data<V>,
        outcome: Option<(V, Vec<u8>)>,
        output: &mut Writer,
    ) -> (r: bool)
        requires
            old(self).wf(),
        ensures
            final(self).wf(),
            r,
            final(self).sessions().one_reading_after(&old(self).sessions()),
            exists|res: Result<EphemeralResponse, ErrorResponse>|
                #[trigger] finish_ephemeral_post(
                    old(self).sessions(),
                    final(self).sessions(),
                    remote_addr,
                    session_id,
                    client_public_key@,
                    session,
                    outcome,
                    final(self).sessions().latest(),
                    res,
                ) && final(output)@ == old(output)@ + match res {
                    Ok(resp) => ephemeral_response_bytes(resp.session_id, resp.ephemeral@),
                    Err(_) => Seq::<u8>::empty(),
                },
    {
        let ghost before = self.sessions();
        let res = self.handler.finish_ephemeral(remote_addr, session_id, client_public_key, session, outcome);
        let ghost now = self.sessions().latest();
        match &res {
            Ok(response) => response.marshall(output),
            Err(_) => {
                assert(output@ =~= old(output)@ + Seq::<u8>::empty());
            },
        }
        assert(finish_ephemeral_post(
            before,
            self.sessions(),
            remote_addr,
            session_id,
            client_public_key@,
            session,
            outcome,
            now,
            res,
        ));
        true
    }

    /// Answers a proof request once the verifier has checked it: the server's
    /// proof is sent and slot `session_id` released when it passed; a session
    /// error is sent otherwise.
    pub fn finish_proof(&mut self, session_id: u32, outcome: Option<Vec<u8>>, output: &mut Writer) -> (r: bool)
        requires
            old(self).wf(),
        ensures
            final(self).wf(),
            r,
            final(self).sessions().same_config(&old(self).sessions()),
            match outcome {
                None => final(output)@ == old(output)@ + error_response_bytes(
                    session_error(ERR_SESSION_FAILURE, session_id),
                ) && final(self).sessions().state() == old(self).sessions().state(),
                Some(proof) => final(output)@ == old(output)@ + proof_response_bytes(session_id, proof@)
                    && final(self).sessions().state() == destroy_state(
                    old(self).sessions().state(),
                    session_id,
                ),
            },
    {
        match self.handler.finish_proof(session_id, outcome) {
            Ok(response) => response.marshall(output),
            Err(response) => response.marshall(output),
        }
        true
    }
}

} // verus!
