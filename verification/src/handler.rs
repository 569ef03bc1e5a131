//! The server's side of the password-authenticated key exchange: what each
//! request does to the session table and what it is answered.
//!
//! The negotiate step runs whole. The ephemeral and proof steps each need a
//! computation by the SRP verifier between looking up the session and
//! answering; they come in two halves (`begin_*`, `finish_*`) and the caller
//! runs the verifier in between.

use vstd::prelude::*;
use vstd::slice::slice_to_vec;
use crate::addr::RemoteAddr;
use crate::error::{
    ErrorResponse, SessionError, UserError, ERR_SESSION_FAILURE, ERR_SESSION_NOT_FOUND,
    ERR_SESSION_VERIFIER_UNSAFE, ERR_USER_BUSY, ERR_USER_NOT_FOUND, ERR_USER_UNSUPPORTED_PROTOCOL,
};
use crate::requests::{EphemeralRequest, NegotiateRequest, ProofRequest};
use crate::response::{EphemeralResponse, NegotiateResponse, ProofResponse};
use crate::session::{
    alloc_index, create_state, destroy_state, elapsed_nanos, encode_spec, find_index,
    lemma_create_fresh_slot, lemma_expired_in_nanos, random_u32, with_data_at, Data, SessionList,
    TableState,
};
use crate::storage::{Storage, User};

verus! {

// For now, we do not support any protocol version below 2.
pub const MIN_SUPPORTED_PROTOCOL_VERSION: u8 = 2;

/// A user error reply.
pub open spec fn user_error(error: u8, client_session_id: u32) -> ErrorResponse {
    ErrorResponse::User(UserError { error, client_session_id })
}

/// A session error reply.
pub open spec fn session_error(error: u8, session_id: u32) -> ErrorResponse {
    ErrorResponse::Session(SessionError { error, session_id })
}

/// The data a negotiate step stores: the user and the client's session id,
/// no keys and no verifier yet.
pub open spec fn is_new_session_data<V>(d: Data<V>, user_id: usize, client_session_id: u32) -> bool {
    &&& d.user_id == user_id
    &&& d.client_session_id == client_session_id
    &&& d.client_public_key@ == Seq::<u8>::empty()
    &&& d.server_public_key@ == Seq::<u8>::empty()
    &&& d.verifier is None
}

/// The data an ephemeral step stores: the taken data `s` with the verifier
/// and both public keys added.
pub open spec fn is_keyed_data<V>(
    d: Data<V>,
    s: Data<V>,
    verifier: V,
    client_public_key: Seq<u8>,
    server_public_key: Seq<u8>,
) -> bool {
    &&& d.user_id == s.user_id
    &&& d.client_session_id == s.client_session_id
    &&& d.verifier == Some(verifier)
    &&& d.client_public_key@ == client_public_key
    &&& d.server_public_key@ == server_public_key
}

/// From table `t` to `after`, slot `found` (if any) was given data satisfying
/// `ok` and renewed at `now`; nothing else changed.
pub open spec fn stored_in<V>(
    t: TableState<V>,
    after: TableState<V>,
    found: Option<int>,
    now: u128,
    ok: spec_fn(Data<V>) -> bool,
) -> bool {
    match found {
        Some(j) => {
            &&& after.1 == t.1
            &&& after.2 == t.2
            &&& after.0.len() == t.0.len()
            &&& forall|k: int| 0 <= k < t.0.len() && k != j ==> after.0[k] == t.0[k]
            &&& after.0[j] == with_data_at(t.0[j], after.0[j].data, now)
            &&& after.0[j].data matches Some(d) && ok(d)
        },
        None => after == t,
    }
}

/// The negotiate step, given what the user lookup found (`user`), the time the
/// session was created, the random number its id was drawn with, and the time
/// its data was stored.
pub open spec fn negotiate_post<V>(
    before: SessionList<V>,
    after: SessionList<V>,
    remote: RemoteAddr,
    protocol: u8,
    client_session_id: u32,
    user: Option<User>,
    created_at: u128,
    random: u32,
    stored_at: u128,
    r: Result<NegotiateResponse, ErrorResponse>,
) -> bool {
    &&& after.same_config(&before)
    &&& if protocol < MIN_SUPPORTED_PROTOCOL_VERSION {
        r == Err::<NegotiateResponse, ErrorResponse>(user_error(ERR_USER_UNSUPPORTED_PROTOCOL, client_session_id))
            && after.state() == before.state()
    } else {
        match user {
            None => r == Err::<NegotiateResponse, ErrorResponse>(user_error(ERR_USER_NOT_FOUND, client_session_id))
                && after.state() == before.state(),
            Some(u) => if before.used_spec() >= before.max_spec() {
                r == Err::<NegotiateResponse, ErrorResponse>(user_error(ERR_USER_BUSY, client_session_id))
                    && after.state() == before.state()
            } else {
                let t1 = create_state(before.state(), remote, created_at);
                let sid = encode_spec(
                    before.mask_spec(),
                    before.max_spec() as u32,
                    alloc_index(before.state()) as u32,
                    random,
                );
                &&& r matches Ok(resp) && resp.client_session_id == client_session_id
                    && resp.session_id == sid && resp.salt == u.salt && resp.username == u.username
                &&& stored_in(
                    t1,
                    after.state(),
                    find_index(
                        t1.0,
                        before.mask_spec(),
                        before.max_spec(),
                        before.lifetime_spec(),
                        remote,
                        sid,
                        stored_at,
                    ),
                    stored_at,
                    |d: Data<V>| is_new_session_data(d, u.id, client_session_id),
                )
            },
        }
    }
}

/// The clock reading `k` taken by a step from `before` to `after` (0 for the
/// first one it takes).
pub open spec fn reading_taken<V>(before: SessionList<V>, after: SessionList<V>, k: int) -> u128 {
    after.readings()[before.readings().len() + k]
}

/// What holds of a negotiate step for the user named `username`, whatever the
/// user lookup and the random source gave: a user that was found bears that
/// name; a supported protocol makes the step read the clock twice, and the
/// session is created at the first reading and its data stored at the second.
pub open spec fn negotiate_outcome<V>(
    before: SessionList<V>,
    after: SessionList<V>,
    remote: RemoteAddr,
    protocol: u8,
    client_session_id: u32,
    username: Seq<char>,
    r: Result<NegotiateResponse, ErrorResponse>,
) -> bool {
    &&& if protocol < MIN_SUPPORTED_PROTOCOL_VERSION {
        after.readings() == before.readings()
    } else {
        &&& after.readings().len() == before.readings().len() + 2
        &&& after.readings().take(before.readings().len() as int) == before.readings()
    }
    &&& exists|user: Option<User>, random: u32|
        #[trigger] negotiate_post(
            before,
            after,
            remote,
            protocol,
            client_session_id,
            user,
            reading_taken(before, after, 0),
            random,
            reading_taken(before, after, 1),
            r,
        ) && (user matches Some(u) ==> u.username@ == username)
}

/// The user looked up for session data `d` is the session's user.
pub open spec fn is_session_user<V>(d: Data<V>, v: (Data<V>, User)) -> bool {
    v.0 == d && v.1.id == d.user_id
}

/// The first half of an ephemeral or proof step, given the session data it
/// took (`taken`): no session gives a session error; a session whose user is
/// gone gives a user error echoing the client's session id.
pub open spec fn lookup_outcome<V, T>(
    taken: Option<Data<V>>,
    session_id: u32,
    r: Result<T, ErrorResponse>,
    found: spec_fn(Data<V>, T) -> bool,
) -> bool {
    match taken {
        None => r == Err::<T, ErrorResponse>(session_error(ERR_SESSION_NOT_FOUND, session_id)),
        Some(d) => match r {
            Ok(v) => found(d, v),
            Err(e) => e == user_error(ERR_USER_NOT_FOUND, d.client_session_id),
        },
    }
}

/// The second half of an ephemeral step, given the verifier's outcome (the
/// verifier and the server's public key, or a failed safety check) and the
/// time the data was stored.
pub open spec fn finish_ephemeral_post<V>(
    before: SessionList<V>,
    after: SessionList<V>,
    remote: RemoteAddr,
    session_id: u32,
    client_public_key: Seq<u8>,
    session: Data<V>,
    outcome: Option<(V, Vec<u8>)>,
    now: u128,
    r: Result<EphemeralResponse, ErrorResponse>,
) -> bool {
    &&& after.same_config(&before)
    &&& match outcome {
        None => r == Err::<EphemeralResponse, ErrorResponse>(session_error(ERR_SESSION_VERIFIER_UNSAFE, session_id))
            && after.state() == before.state(),
        Some((verifier, key)) => {
            &&& r matches Ok(resp) && resp.session_id == session_id && resp.ephemeral == key
            &&& stored_in(
                before.state(),
                after.state(),
                before.find_spec(remote, session_id, now),
                now,
                |d: Data<V>| is_keyed_data(d, session, verifier, client_public_key, key@),
            )
        },
    }
}

/// Handles the three steps of an authentication for a user database and a
/// session table.
pub struct Handler<'storage, S: Storage + ?Sized, V> {
    storage: &'storage mut S,
    sessions: &'storage mut SessionList<V>,
}

impl<'storage, S: Storage + ?Sized, V> Handler<'storage, S, V> {
    /// The session table as it stands.
    pub closed spec fn sessions_state(&self) -> SessionList<V> {
        *self.sessions
    }

    /// The session table is well formed.
    pub open spec fn wf(&self) -> bool {
        self.sessions_state().wf()
    }

    pub fn new(storage: &'storage mut S, sessions: &'storage mut SessionList<V>) -> (r: Self)
        ensures
            r.sessions_state() == *old(sessions),
    {
        Handler { storage, sessions }
    }

    /// The negotiate step, given the user lookup's result, the creation time,
    /// the random number for the id and the storing time.
    pub fn negotiate_with(
        &mut self,
        remote_addr: RemoteAddr,
        request: &NegotiateRequest,
        user: Option<User>,
        created_at: u128,
        random: u32,
        stored_at: u128,
    ) -> (r: Result<NegotiateResponse, ErrorResponse>)
        requires
            old(self).wf(),
        ensures
            final(self).wf(),
            final(self).sessions_state().readings() == old(self).sessions_state().readings(),
            negotiate_post(
                old(self).sessions_state(),
                final(self).sessions_state(),
                remote_addr,
                request.protocol,
                request.client_session_id,
                user,
                created_at,
                random,
                stored_at,
                r,
            ),
    {
        if !(request.protocol >= MIN_SUPPORTED_PROTOCOL_VERSION) {
            return Err(
                ErrorResponse::User(
                    UserError {
                        client_session_id: request.client_session_id,
                        error: ERR_USER_UNSUPPORTED_PROTOCOL,
                    },
                ),
            );
        }
        let user = match user {
            Some(user) => user,
            None => {
                return Err(
                    ErrorResponse::User(
                        UserError {
                            error: ERR_USER_NOT_FOUND,
                            client_session_id: request.client_session_id,
                        },
                    ),
                );
            },
        };
        let ghost before = *self.sessions;
        let session_id = match self.sessions.create_session_at(remote_addr, created_at, random) {
            Some(session_id) => session_id,
            None => {
                return Err(
                    ErrorResponse::User(
                        UserError { error: ERR_USER_BUSY, client_session_id: request.client_session_id },
                    ),
                );
            },
        };
        let ghost mid = *self.sessions;
        let mut session = Data::default();
        session.user_id = user.id;
        session.client_session_id = request.client_session_id;
        self.sessions.set_session_data_at(remote_addr, session_id, session, stored_at);
        proof {
            let t1 = create_state(before.state(), remote_addr, created_at);
            assert(mid.state() == t1);
            assert(mid.find_spec(remote_addr, session_id, stored_at) == find_index(
                t1.0,
                before.mask_spec(),
                before.max_spec(),
                before.lifetime_spec(),
                remote_addr,
                session_id,
                stored_at,
            ));
            let ok = |d: Data<V>| is_new_session_data(d, user.id, request.client_session_id);
            match mid.find_spec(remote_addr, session_id, stored_at) {
                Some(j) => {
                    assert(ok(session));
                    assert(self.sessions_state().state().0[j].data == Some(session));
                },
                None => {},
            }
        }
        Ok(
            NegotiateResponse {
                client_session_id: request.client_session_id,
                session_id: session_id,
                salt: user.salt,
                username: user.username,
            },
        )
    }

    /// The negotiate step: refuses protocols below 2 and unknown users, then
    /// creates a session for `remote_addr` holding the user and the client's
    /// session id, and answers with the session id and the user's salt.
    pub fn handle_negotiate(&mut self, remote_addr: RemoteAddr, request: &NegotiateRequest) -> (r: Result<NegotiateResponse, ErrorResponse>)
        requires
            old(self).wf(),
        ensures
            final(self).wf(),
            negotiate_outcome(
                old(self).sessions_state(),
                final(self).sessions_state(),
                remote_addr,
                request.protocol,
                request.client_session_id,
                request.username@,
                r,
            ),
    {
        if !(request.protocol >= MIN_SUPPORTED_PROTOCOL_VERSION) {
            let r = Err(
                ErrorResponse::User(
                    UserError {
                        client_session_id: request.client_session_id,
                        error: ERR_USER_UNSUPPORTED_PROTOCOL,
                    },
                ),
            );
            assert(negotiate_post(
                old(self).sessions_state(),
                self.sessions_state(),
                remote_addr,
                request.protocol,
                request.client_session_id,
                None,
                reading_taken(old(self).sessions_state(), self.sessions_state(), 0),
                0,
                reading_taken(old(self).sessions_state(), self.sessions_state(), 1),
                r,
            ));
            return r;
        }
        let user = self.storage.get_user(request.username);
        let created_at = self.sessions.now();
        let random = random_u32();
        let stored_at = self.sessions.now();
        let ghost mid = self.sessions_state();
        let r = self.negotiate_with(remote_addr, request, user, created_at, random, stored_at);
        proof {
            let n = old(self).sessions_state().readings().len();
            assert(mid.readings() == old(self).sessions_state().readings().push(created_at).push(stored_at));
            assert(self.sessions_state().readings()[n as int] == created_at);
            assert(self.sessions_state().readings()[n as int + 1] == stored_at);
            assert(self.sessions_state().readings().take(n as int) =~= old(self).sessions_state().readings());
        }
        assert(negotiate_post(
            old(self).sessions_state(),
            self.sessions_state(),
            remote_addr,
            request.protocol,
            request.client_session_id,
            user,
            reading_taken(old(self).sessions_state(), self.sessions_state(), 0),
            random,
            reading_taken(old(self).sessions_state(), self.sessions_state(), 1),
            r,
        ));
        r
    }

    /// Takes the data of session `session_id` for `remote_addr` and looks up
    /// its user: the shared first half of the ephemeral and proof steps.
    fn take_session(&mut self, remote_addr: RemoteAddr, session_id: u32) -> (r: Result<(Data<V>, User), ErrorResponse>)
        requires
            old(self).wf(),
        ensures
            final(self).wf(),
            final(self).sessions_state().one_reading_after(&old(self).sessions_state()),
            exists|taken: Option<Data<V>>|
                #[trigger] SessionList::take_data_post(
                    old(self).sessions_state(),
                    final(self).sessions_state(),
                    remote_addr,
                    session_id,
                    final(self).sessions_state().latest(),
                    taken,
                ) && lookup_outcome(
                    taken,
                    session_id,
                    r,
                    |d: Data<V>, v: (Data<V>, User)| is_session_user(d, v),
                ),
    {
        let ghost before = *self.sessions;
        let taken = self.sessions.get_session_data(remote_addr, session_id);
        let ghost t = taken;
        let ghost now = self.sessions_state().latest();
        assert(SessionList::take_data_post(before, self.sessions_state(), remote_addr, session_id, now, t));
        let session = match taken {
            Some(session) => session,
            None => {
                return Err(
                    ErrorResponse::Session(
                        SessionError { error: ERR_SESSION_NOT_FOUND, session_id: session_id },
                    ),
                );
            },
        };
        // The user being deleted during authentication is highly unlikely, but
        // anticipate the condition nonetheless.
        let user = match self.storage.get_user_by_id(#[verifier::truncate] (session.user_id as i64)) {
            Some(user) => user,
            None => {
                assert(SessionList::take_data_post(before, self.sessions_state(), remote_addr, session_id, now, t));
                return Err(
                    ErrorResponse::User(
                        UserError {
                            error: ERR_USER_NOT_FOUND,
                            client_session_id: session.client_session_id,
                        },
                    ),
                );
            },
        };
        assert(SessionList::take_data_post(before, self.sessions_state(), remote_addr, session_id, now, t));
        proof {
            let x = session.user_id;
            assert((x as i64) as usize == x) by (bit_vector);
        }
        Ok((session, user))
    }

    /// First half of the ephemeral step: takes the session's data and looks
    /// up its user, for the verifier to compute the server's public key.
    pub fn begin_ephemeral(&mut self, remote_addr: RemoteAddr, request: &EphemeralRequest) -> (r: Result<(Data<V>, User), ErrorResponse>)
        requires
            old(self).wf(),
        ensures
            final(self).wf(),
            final(self).sessions_state().one_reading_after(&old(self).sessions_state()),
            exists|taken: Option<Data<V>>|
                #[trigger] SessionList::take_data_post(
                    old(self).sessions_state(),
                    final(self).sessions_state(),
                    remote_addr,
                    request.session_id,
                    final(self).sessions_state().latest(),
                    taken,
                ) && lookup_outcome(
                    taken,
                    request.session_id,
                    r,
                    |d: Data<V>, v: (Data<V>, User)| is_session_user(d, v),
                ),
    {
        self.take_session(remote_addr, request.session_id)
    }

    /// Second half of the ephemeral step, given the verifier's outcome and the
    /// time: a failed safety check is refused; otherwise the verifier and both
    /// keys are stored in the session and the server's key is sent.
    pub fn finish_ephemeral_at(
        &mut self,
        remote_addr: RemoteAddr,
        session_id: u32,
        client_public_key: &[u8],
        session: Data<V>,
        outcome: Option<(V, Vec<u8>)>,
        now: u128,
    ) -> (r: Result<EphemeralResponse, ErrorResponse>)
        requires
            old(self).wf(),
        ensures
            final(self).wf(),
            final(self).sessions_state().readings() == old(self).sessions_state().readings(),
            finish_ephemeral_post(
                old(self).sessions_state(),
                final(self).sessions_state(),
                remote_addr,
                session_id,
                client_public_key@,
                session,
                outcome,
                now,
                r,
            ),
    {
        let ghost session0 = session;
        match outcome {
            None => Err(
                ErrorResponse::Session(
                    SessionError { error: ERR_SESSION_VERIFIER_UNSAFE, session_id: session_id },
                ),
            ),
            Some((verifier, server_public_key)) => {
                let ghost v = verifier;
                let mut session = session;
                session.verifier = Some(verifier);
                session.client_public_key = slice_to_vec(client_public_key);
                session.server_public_key = slice_to_vec(server_public_key.as_slice());
                let ghost stored = session;
                let ghost before = *self.sessions;
                self.sessions.set_session_data_at(remote_addr, session_id, session, now);
                proof {
                    let ok = |d: Data<V>| is_keyed_data(d, session0, v, client_public_key@, server_public_key@);
                    assert(ok(stored));
                    match before.find_spec(remote_addr, session_id, now) {
                        Some(j) => {
                            assert(self.sessions_state().state().0[j].data == Some(stored));
                        },
                        None => {},
                    }
                }
                Ok(EphemeralResponse { session_id: session_id, ephemeral: server_public_key })
            },
        }
    }

    /// Second half of the ephemeral step, by the clock.
    pub fn finish_ephemeral(
        &mut self,
        remote_addr: RemoteAddr,
        session_id: u32,
        client_public_key: &[u8],
        session: Data<V>,
        outcome: Option<(V, Vec<u8>)>,
    ) -> (r: Result<EphemeralResponse, ErrorResponse>)
        requires
            old(self).wf(),
        ensures
            final(self).wf(),
            final(self).sessions_state().one_reading_after(&old(self).sessions_state()),
            finish_ephemeral_post(
                old(self).sessions_state(),
                final(self).sessions_state(),
                remote_addr,
                session_id,
                client_public_key@,
                session,
                outcome,
                final(self).sessions_state().latest(),
                r,
            ),
    {
        let now = self.sessions.now();
        let r = self.finish_ephemeral_at(remote_addr, session_id, client_public_key, session, outcome, now);
        assert(self.sessions_state().latest() == now);
        assert(finish_ephemeral_post(
            old(self).sessions_state(),
            self.sessions_state(),
            remote_addr,
            session_id,
            client_public_key@,
            session,
            outcome,
            now,
            r,
        ));
        r
    }

    /// First half of the proof step: takes the session's data, checks that its
    /// user still exists, and hands out the session's verifier (`Ok(None)`
    /// when the session has none).
    pub fn begin_proof(&mut self, remote_addr: RemoteAddr, request: &ProofRequest) -> (r: Result<Option<V>, ErrorResponse>)
        requires
            old(self).wf(),
        ensures
            final(self).wf(),
            final(self).sessions_state().one_reading_after(&old(self).sessions_state()),
            exists|taken: Option<Data<V>>|
                #[trigger] SessionList::take_data_post(
                    old(self).sessions_state(),
                    final(self).sessions_state(),
                    remote_addr,
                    request.session_id,
                    final(self).sessions_state().latest(),
                    taken,
                ) && lookup_outcome(
                    taken,
                    request.session_id,
                    r,
                    |d: Data<V>, v: Option<V>| v == d.verifier,
                ),
    {
        // Just like for the ephemeral request, the user might be deleted during
        // authentication; although highly unlikely, anticipate the condition
        // nonetheless.
        let (session, _user) = self.take_session(remote_addr, request.session_id)?;
        Ok(session.verifier)
    }

    /// Second half of the proof step, given the verifier's answer to the
    /// client's proof (the server's proof, or a failed check): a failure is
    /// refused; otherwise slot `session_id` is released and the server's proof
    /// is sent.
    pub fn finish_proof(&mut self, session_id: u32, outcome: Option<Vec<u8>>) -> (r: Result<ProofResponse, ErrorResponse>)
        requires
            old(self).wf(),
        ensures
            final(self).wf(),
            final(self).sessions_state().readings() == old(self).sessions_state().readings(),
            final(self).sessions_state().same_config(&old(self).sessions_state()),
            match outcome {
                None => r == Err::<ProofResponse, ErrorResponse>(session_error(ERR_SESSION_FAILURE, session_id))
                    && final(self).sessions_state().state() == old(self).sessions_state().state(),
                Some(proof) => r matches Ok(resp) && resp.session_id == session_id && resp.proof == proof
                    && final(self).sessions_state().state() == destroy_state(
                    old(self).sessions_state().state(),
                    session_id,
                ),
            },
    {
        match outcome {
            None => Err(
                ErrorResponse::Session(
                    SessionError { error: ERR_SESSION_FAILURE, session_id: session_id },
                ),
            ),
            Some(proof) => {
                self.sessions.destroy(session_id);
                Ok(ProofResponse { session_id: session_id, proof: proof })
            },
        }
    }
}

/// A negotiate step for a found user, with a supported protocol, in a
/// well-formed table that is not full, answers with a session id that its
/// owner finds at any time `later` less than the lifetime after the data was
/// stored (provided the data was stored less than the lifetime after the
/// session was created); the session then holds the user's id and the
/// client's session id, and no verifier yet.
pub proof fn law_negotiate_session_is_found<V>(
    before: SessionList<V>,
    after: SessionList<V>,
    remote: RemoteAddr,
    protocol: u8,
    client_session_id: u32,
    user: User,
    created_at: u128,
    random: u32,
    stored_at: u128,
    r: Result<NegotiateResponse, ErrorResponse>,
    later: u128,
)
    requires
        before.wf(),
        protocol >= MIN_SUPPORTED_PROTOCOL_VERSION,
        before.used_spec() < before.max_spec(),
        (random - random % (before.max_spec() as u32)) + (before.max_spec() as u32) <= 0x1_0000_0000,
        0 <= before.lifetime_spec(),
        elapsed_nanos(created_at, stored_at) < before.lifetime_spec() * 1_000_000_000,
        elapsed_nanos(stored_at, later) < before.lifetime_spec() * 1_000_000_000,
        negotiate_post(
            before,
            after,
            remote,
            protocol,
            client_session_id,
            Some(user),
            created_at,
            random,
            stored_at,
            r,
        ),
    ensures
        r is Ok,
        ({
            let resp = r->Ok_0;
            let found = after.find_spec(remote, resp.session_id, later);
            let d = after.entries_spec()[found->0].data->0;
            &&& resp.client_session_id == client_session_id
            &&& resp.salt == user.salt
            &&& resp.username == user.username
            &&& found is Some
            &&& after.entries_spec()[found->0].data is Some
            &&& d.user_id == user.id
            &&& d.client_session_id == client_session_id
            &&& d.verifier is None
        }),
{
    lemma_create_fresh_slot(before, remote, created_at, random);
    let t = before.state();
    let i = alloc_index(t);
    let t1 = create_state(t, remote, created_at);
    let sid = encode_spec(before.mask_spec(), before.max_spec() as u32, i as u32, random);
    lemma_expired_in_nanos(t1.0[i], before.lifetime_spec(), stored_at);
    assert(find_index(
        t1.0,
        before.mask_spec(),
        before.max_spec(),
        before.lifetime_spec(),
        remote,
        sid,
        stored_at,
    ) == Some(i));
    let a = after.entries_spec()[i];
    assert(a.last_updated == stored_at);
    assert(a.owner == Some(remote));
    lemma_expired_in_nanos(a, before.lifetime_spec(), later);
    assert(after.find_spec(remote, sid, later) == Some(i));
}

/// After an ephemeral step whose verifier passed, made at a time `now` when
/// the session was there for its owner, the session is renewed at `now`: a
/// later lookup by its owner, less than the lifetime after `now`, finds it,
/// holding the verifier and both public keys.
pub proof fn law_ephemeral_session_is_found<V>(
    before: SessionList<V>,
    after: SessionList<V>,
    remote: RemoteAddr,
    session_id: u32,
    client_public_key: Seq<u8>,
    session: Data<V>,
    verifier: V,
    server_public_key: Vec<u8>,
    now: u128,
    r: Result<EphemeralResponse, ErrorResponse>,
    later: u128,
)
    requires
        0 <= before.lifetime_spec(),
        before.find_spec(remote, session_id, now) is Some,
        elapsed_nanos(now, later) < before.lifetime_spec() * 1_000_000_000,
        finish_ephemeral_post(
            before,
            after,
            remote,
            session_id,
            client_public_key,
            session,
            Some((verifier, server_public_key)),
            now,
            r,
        ),
    ensures
        r is Ok,
        r->Ok_0.session_id == session_id,
        r->Ok_0.ephemeral == server_public_key,
        ({
            let found = after.find_spec(remote, session_id, later);
            let d = after.entries_spec()[found->0].data->0;
            &&& found is Some
            &&& after.entries_spec()[found->0].last_updated == now
            &&& after.entries_spec()[found->0].data is Some
            &&& d.verifier == Some(verifier)
            &&& d.client_public_key@ == client_public_key
            &&& d.server_public_key@ == server_public_key@
        }),
{
    let i = before.find_spec(remote, session_id, now)->0;
    let a = after.entries_spec()[i];
    assert(a.last_updated == now);
    lemma_expired_in_nanos(a, before.lifetime_spec(), later);
    assert(after.find_spec(remote, session_id, later) == Some(i));
}

} // verus!
