use nixauth::addr::RemoteAddr;
use nixauth::error::{
    ErrorResponse, SessionError, UserError, ERR_SESSION_FAILURE, ERR_SESSION_NOT_FOUND,
    ERR_SESSION_VERIFIER_UNSAFE, ERR_USER_BUSY, ERR_USER_NOT_FOUND, ERR_USER_UNSUPPORTED_PROTOCOL,
};
use nixauth::handler::Handler;
use nixauth::requests::{EphemeralRequest, NegotiateRequest, ProofRequest};
use nixauth::session::SessionList;
use nixauth::storage::{Storage, User};

struct MemoryStorage {
    users: Vec<User>,
}

fn copy_user(u: &User) -> User {
    User { id: u.id, username: u.username.clone(), verifier: u.verifier.clone(), salt: u.salt.clone() }
}

impl MemoryStorage {
    fn with_test_user() -> Self {
        MemoryStorage {
            users: vec![User {
                id: 7,
                username: "test".to_string(),
                verifier: vec![1, 2, 3],
                salt: b"abc".to_vec(),
            }],
        }
    }
}

impl Storage for MemoryStorage {
    fn get_user(&mut self, username: &str) -> Option<User> {
        self.users.iter().find(|u| u.username == username).map(copy_user)
    }

    fn get_user_by_id(&mut self, id: i64) -> Option<User> {
        self.users.iter().find(|u| u.id as i64 == id).map(copy_user)
    }

    fn add_user(&mut self, username: &str, verifier: &[u8], salt: &[u8]) -> bool {
        let id = self.users.len() + 1;
        self.users.push(User {
            id,
            username: username.to_string(),
            verifier: verifier.to_vec(),
            salt: salt.to_vec(),
        });
        true
    }

    fn remove_user(&mut self, username: &str) -> bool {
        let before = self.users.len();
        self.users.retain(|u| u.username != username);
        self.users.len() + 1 == before
    }
}

fn addr() -> RemoteAddr {
    RemoteAddr::V4 { ipv4: 0x7F00_0001, port: 8080 }
}

fn other_addr() -> RemoteAddr {
    RemoteAddr::V6 { ipv6: 1, port: 8080, flowinfo: 0, scope_id: 0 }
}

fn negotiate(username: &str, protocol: u8) -> NegotiateRequest<'_> {
    NegotiateRequest { protocol, client_session_id: 12345, username }
}

#[test]
fn negotiate_creates_session_for_known_user() {
    let mut storage = MemoryStorage::with_test_user();
    let mut sessions: SessionList<u64> = SessionList::new(10, 5);
    {
        let mut handler = Handler::new(&mut storage, &mut sessions);
        let response = handler.handle_negotiate(addr(), &negotiate("test", 2)).unwrap();
        assert_eq!(response.client_session_id, 12345);
        assert_eq!(response.salt, b"abc".to_vec());
        assert_eq!(response.username, "test");
    }
    assert_eq!(sessions.used_entries(), 1);
}

#[test]
fn negotiate_refuses_old_protocol() {
    let mut storage = MemoryStorage::with_test_user();
    let mut sessions: SessionList<u64> = SessionList::new(10, 5);
    {
        let mut handler = Handler::new(&mut storage, &mut sessions);
        let r = handler.handle_negotiate(addr(), &negotiate("test", 1));
        assert_eq!(
            r.err(),
            Some(ErrorResponse::User(UserError {
                error: ERR_USER_UNSUPPORTED_PROTOCOL,
                client_session_id: 12345
            }))
        );
    }
    assert_eq!(sessions.used_entries(), 0);
}

#[test]
fn negotiate_refuses_unknown_user() {
    let mut storage = MemoryStorage::with_test_user();
    let mut sessions: SessionList<u64> = SessionList::new(10, 5);
    let mut handler = Handler::new(&mut storage, &mut sessions);
    let r = handler.handle_negotiate(addr(), &negotiate("not-found", 2));
    assert_eq!(
        r.err(),
        Some(ErrorResponse::User(UserError { error: ERR_USER_NOT_FOUND, client_session_id: 12345 }))
    );
}

#[test]
fn negotiate_refuses_when_table_is_full() {
    let mut storage = MemoryStorage::with_test_user();
    let mut sessions: SessionList<u64> = SessionList::new(1, 5);
    let mut handler = Handler::new(&mut storage, &mut sessions);
    assert!(handler.handle_negotiate(addr(), &negotiate("test", 2)).is_ok());
    let r = handler.handle_negotiate(addr(), &negotiate("test", 2));
    assert_eq!(
        r.err(),
        Some(ErrorResponse::User(UserError { error: ERR_USER_BUSY, client_session_id: 12345 }))
    );
}

#[test]
fn full_exchange_through_the_handler() {
    let mut storage = MemoryStorage::with_test_user();
    let mut sessions: SessionList<u64> = SessionList::new(10, 5);
    let mut handler = Handler::new(&mut storage, &mut sessions);
    let id = handler.handle_negotiate(addr(), &negotiate("test", 2)).unwrap().session_id;

    let (data, user) = handler
        .begin_ephemeral(addr(), &EphemeralRequest { session_id: id, ephemeral: b"A" })
        .unwrap();
    assert_eq!(data.user_id, 7);
    assert_eq!(data.client_session_id, 12345);
    assert!(data.verifier.is_none());
    assert_eq!(user.username, "test");
    assert_eq!(user.verifier, vec![1, 2, 3]);

    let response = handler
        .finish_ephemeral(addr(), id, b"A", data, Some((55u64, b"B".to_vec())))
        .unwrap();
    assert_eq!(response.session_id, id);
    assert_eq!(response.ephemeral, b"B".to_vec());

    let verifier = handler
        .begin_proof(addr(), &ProofRequest { session_id: id, proof: b"M1" })
        .unwrap();
    assert_eq!(verifier, Some(55));

    let response = handler.finish_proof(id, Some(b"M2".to_vec())).unwrap();
    assert_eq!(response.session_id, id);
    assert_eq!(response.proof, b"M2".to_vec());
}

#[test]
fn ephemeral_for_unknown_session_or_other_address() {
    let mut storage = MemoryStorage::with_test_user();
    let mut sessions: SessionList<u64> = SessionList::new(10, 5);
    let mut handler = Handler::new(&mut storage, &mut sessions);
    let id = handler.handle_negotiate(addr(), &negotiate("test", 2)).unwrap().session_id;
    let r = handler.begin_ephemeral(other_addr(), &EphemeralRequest { session_id: id, ephemeral: b"A" });
    assert_eq!(
        r.err(),
        Some(ErrorResponse::Session(SessionError { error: ERR_SESSION_NOT_FOUND, session_id: id }))
    );
    // The owner still finds it.
    assert!(handler.begin_ephemeral(addr(), &EphemeralRequest { session_id: id, ephemeral: b"A" }).is_ok());
    // Its data has been taken.
    let r = handler.begin_ephemeral(addr(), &EphemeralRequest { session_id: id, ephemeral: b"A" });
    assert_eq!(
        r.err(),
        Some(ErrorResponse::Session(SessionError { error: ERR_SESSION_NOT_FOUND, session_id: id }))
    );
}

#[test]
fn unsafe_client_key_is_refused() {
    let mut storage = MemoryStorage::with_test_user();
    let mut sessions: SessionList<u64> = SessionList::new(10, 5);
    let mut handler = Handler::new(&mut storage, &mut sessions);
    let id = handler.handle_negotiate(addr(), &negotiate("test", 2)).unwrap().session_id;
    let (data, _) = handler
        .begin_ephemeral(addr(), &EphemeralRequest { session_id: id, ephemeral: b"\0" })
        .unwrap();
    let r = handler.finish_ephemeral(addr(), id, b"\0", data, None);
    assert_eq!(
        r.err(),
        Some(ErrorResponse::Session(SessionError { error: ERR_SESSION_VERIFIER_UNSAFE, session_id: id }))
    );
}

#[test]
fn failed_proof_is_answered_with_session_failure() {
    let mut storage = MemoryStorage::with_test_user();
    let mut sessions: SessionList<u64> = SessionList::new(10, 5);
    let mut handler = Handler::new(&mut storage, &mut sessions);
    let r = handler.finish_proof(99, None);
    assert_eq!(
        r.err(),
        Some(ErrorResponse::Session(SessionError { error: ERR_SESSION_FAILURE, session_id: 99 }))
    );
}

#[test]
fn proof_before_ephemeral_has_no_verifier() {
    let mut storage = MemoryStorage::with_test_user();
    let mut sessions: SessionList<u64> = SessionList::new(10, 5);
    let mut handler = Handler::new(&mut storage, &mut sessions);
    let id = handler.handle_negotiate(addr(), &negotiate("test", 2)).unwrap().session_id;
    let r = handler.begin_proof(addr(), &ProofRequest { session_id: id, proof: b"M1" });
    assert_eq!(r.ok(), Some(None));
}

#[test]
fn user_removed_during_exchange() {
    let mut storage = MemoryStorage::with_test_user();
    let mut sessions: SessionList<u64> = SessionList::new(10, 5);
    let id = {
        let mut handler = Handler::new(&mut storage, &mut sessions);
        handler.handle_negotiate(addr(), &negotiate("test", 2)).unwrap().session_id
    };
    assert!(storage.remove_user("test"));
    let mut handler = Handler::new(&mut storage, &mut sessions);
    let r = handler.begin_ephemeral(addr(), &EphemeralRequest { session_id: id, ephemeral: b"A" });
    assert_eq!(
        r.err(),
        Some(ErrorResponse::User(UserError { error: ERR_USER_NOT_FOUND, client_session_id: 12345 }))
    );
}
