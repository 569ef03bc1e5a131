use nixauth::addr::RemoteAddr;
use nixauth::error::{SessionError, ERR_SESSION_ID, ERR_SESSION_NOT_FOUND};
use nixauth::handler::Handler;
use nixauth::reader::Reader;
use nixauth::receiver::{Received, Receiver};
use nixauth::requests::{EphemeralRequest, NegotiateRequest, ProofRequest};
use nixauth::response::{
    EphemeralResponse, NegotiateResponse, ProofResponse, RESPONSE_EPHEMERAL, RESPONSE_NEGOTIATE,
    RESPONSE_PROOF,
};
use nixauth::session::SessionList;
use nixauth::storage::{Storage, User};
use nixauth::writer::Writer;

struct OneUser {
    removed: bool,
}

fn the_user() -> User {
    User { id: 3, username: "test".to_string(), verifier: vec![4, 5], salt: b"salt".to_vec() }
}

impl Storage for OneUser {
    fn get_user(&mut self, username: &str) -> Option<User> {
        if !self.removed && username == "test" { Some(the_user()) } else { None }
    }

    fn get_user_by_id(&mut self, id: i64) -> Option<User> {
        if !self.removed && id == 3 { Some(the_user()) } else { None }
    }

    fn add_user(&mut self, _username: &str, _verifier: &[u8], _salt: &[u8]) -> bool {
        false
    }

    fn remove_user(&mut self, _username: &str) -> bool {
        self.removed = true;
        true
    }
}

fn addr() -> RemoteAddr {
    RemoteAddr::V4 { ipv4: 0x7F00_0001, port: 5000 }
}

/// A datagram as the server reads it: the bytes, padded with zeros.
fn datagram(bytes: &[u8]) -> Vec<u8> {
    let mut buffer = bytes.to_vec();
    buffer.resize(64, 0);
    buffer
}

#[test]
fn receiver_runs_a_whole_exchange() {
    let mut storage = OneUser { removed: false };
    let mut sessions: SessionList<u32> = SessionList::new(3, 5);
    let mut handler = Handler::new(&mut storage, &mut sessions);
    let mut receiver = Receiver::new(&mut handler);

    // Negotiate.
    let mut request = Writer::new();
    NegotiateRequest { protocol: 2, client_session_id: 12345, username: "test" }.marshall(&mut request);
    let buffer = datagram(request.contents());
    let mut content = Reader::new(&buffer);
    let mut output = Writer::new();
    match receiver.handle_request(addr(), &mut content, &mut output) {
        Received::Done(true) => {},
        _ => panic!("negotiate was not answered"),
    }
    let mut reader = Reader::new(output.contents());
    assert_eq!(reader.read_u32le(), Ok(RESPONSE_NEGOTIATE));
    let response = NegotiateResponse::unmarshall(&mut reader).unwrap();
    assert_eq!(response.client_session_id, 12345);
    assert_eq!(response.salt, b"salt".to_vec());
    assert_eq!(response.username, "test");
    let id = response.session_id;

    // Ephemeral.
    let mut request = Writer::new();
    EphemeralRequest { session_id: id, ephemeral: b"client-key" }.marshall(&mut request);
    let buffer = datagram(request.contents());
    let mut content = Reader::new(&buffer);
    let mut output = Writer::new();
    let (key, session) = match receiver.handle_request(addr(), &mut content, &mut output) {
        Received::ServerKeyNeeded { session_id, client_public_key, session, user } => {
            assert_eq!(session_id, id);
            assert_eq!(user.id, 3);
            assert_eq!(session.user_id, 3);
            assert_eq!(session.client_session_id, 12345);
            (client_public_key, session)
        },
        _ => panic!("ephemeral did not reach the verifier"),
    };
    assert_eq!(key, b"client-key".to_vec());
    assert!(output.contents().is_empty());
    assert!(receiver.finish_ephemeral(addr(), id, &key, session, Some((88u32, b"server-key".to_vec())), &mut output));
    let mut reader = Reader::new(output.contents());
    assert_eq!(reader.read_u32le(), Ok(RESPONSE_EPHEMERAL));
    let response = EphemeralResponse::unmarshall(&mut reader).unwrap();
    assert_eq!(response.session_id, id);
    assert_eq!(response.ephemeral, b"server-key".to_vec());

    // Proof.
    let mut request = Writer::new();
    ProofRequest { session_id: id, proof: b"M1" }.marshall(&mut request);
    let buffer = datagram(request.contents());
    let mut content = Reader::new(&buffer);
    let mut output = Writer::new();
    match receiver.handle_request(addr(), &mut content, &mut output) {
        Received::ProofCheckNeeded { session_id, proof, verifier } => {
            assert_eq!(session_id, id);
            assert_eq!(proof, b"M1".to_vec());
            assert_eq!(verifier, 88);
        },
        _ => panic!("proof did not reach the verifier"),
    }
    assert!(receiver.finish_proof(id, Some(b"M2".to_vec()), &mut output));
    let mut reader = Reader::new(output.contents());
    assert_eq!(reader.read_u32le(), Ok(RESPONSE_PROOF));
    let response = ProofResponse::unmarshall(&mut reader).unwrap();
    assert_eq!(response.session_id, id);
    assert_eq!(response.proof, b"M2".to_vec());
}

#[test]
fn garbage_is_dropped_silently() {
    let mut storage = OneUser { removed: false };
    let mut sessions: SessionList<u32> = SessionList::new(3, 5);
    let mut handler = Handler::new(&mut storage, &mut sessions);
    let mut receiver = Receiver::new(&mut handler);
    let buffer = datagram(b"hello");
    let mut content = Reader::new(&buffer);
    let mut output = Writer::new();
    assert!(matches!(receiver.handle_request(addr(), &mut content, &mut output), Received::Done(false)));
    assert!(output.contents().is_empty());

    // A negotiate header whose username never ends.
    let mut bytes = vec![0x01u8, 0xCA, 0x03, 0xD0, 0x02, 0x39, 0x30, 0x00, 0x00];
    bytes.extend_from_slice(b"abc");
    let mut content = Reader::new(&bytes);
    assert!(matches!(receiver.handle_request(addr(), &mut content, &mut output), Received::Done(false)));
    assert!(output.contents().is_empty());
}

#[test]
fn proof_for_unknown_session_is_answered_with_an_error() {
    let mut storage = OneUser { removed: false };
    let mut sessions: SessionList<u32> = SessionList::new(3, 5);
    let mut handler = Handler::new(&mut storage, &mut sessions);
    let mut receiver = Receiver::new(&mut handler);
    let mut request = Writer::new();
    ProofRequest { session_id: 4242, proof: b"M1" }.marshall(&mut request);
    let buffer = datagram(request.contents());
    let mut content = Reader::new(&buffer);
    let mut output = Writer::new();
    assert!(matches!(receiver.handle_request(addr(), &mut content, &mut output), Received::Done(true)));
    let mut reader = Reader::new(output.contents());
    assert_eq!(reader.read_u32le(), Ok(ERR_SESSION_ID));
    let error = SessionError::unmarshall(&mut reader).unwrap();
    assert_eq!(error, SessionError { error: ERR_SESSION_NOT_FOUND, session_id: 4242 });
}

#[test]
fn ephemeral_for_unknown_session_sends_nothing() {
    let mut storage = OneUser { removed: false };
    let mut sessions: SessionList<u32> = SessionList::new(3, 5);
    let mut handler = Handler::new(&mut storage, &mut sessions);
    let mut receiver = Receiver::new(&mut handler);
    let mut request = Writer::new();
    EphemeralRequest { session_id: 4242, ephemeral: b"A" }.marshall(&mut request);
    let buffer = datagram(request.contents());
    let mut content = Reader::new(&buffer);
    let mut output = Writer::new();
    assert!(matches!(receiver.handle_request(addr(), &mut content, &mut output), Received::Done(true)));
    assert!(output.contents().is_empty());
}

#[test]
fn failed_proof_check_is_answered_with_session_failure() {
    let mut storage = OneUser { removed: false };
    let mut sessions: SessionList<u32> = SessionList::new(3, 5);
    let mut handler = Handler::new(&mut storage, &mut sessions);
    let mut receiver = Receiver::new(&mut handler);
    let mut output = Writer::new();
    assert!(receiver.finish_proof(17, None, &mut output));
    assert_eq!(output.contents(), &[0xEE, 0xCA, 0x03, 0xD0, 0x03, 17, 0, 0, 0][..]);
}
