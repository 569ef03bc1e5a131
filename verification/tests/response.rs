use nixauth::reader::Reader;
use nixauth::response::{
    EphemeralResponse, NegotiateResponse, ProofResponse, RESPONSE_EPHEMERAL, RESPONSE_NEGOTIATE,
    RESPONSE_PROOF,
};
use nixauth::writer::Writer;

#[test]
fn marshall_negotiate_response() {
    let writer = {
        let response = NegotiateResponse {
            client_session_id: 12345,
            session_id: 54321,
            salt: "abc".as_bytes().to_vec(),
            username: "user".to_string(),
        };
        let mut writer = Writer::new();
        response.marshall(&mut writer);
        writer
    };
    let mut reader = Reader::new(writer.contents());
    assert!(reader.read_u32le().unwrap() == RESPONSE_NEGOTIATE);
    let response = NegotiateResponse::unmarshall(&mut reader).unwrap();
    assert!(response.client_session_id == 12345);
    assert!(response.session_id == 54321);
    assert!(response.salt == "abc".as_bytes());
    assert!(response.username == "user");
}

#[test]
fn marshall_ephemeral_response() {
    let writer = {
        let response = EphemeralResponse {
            session_id: 12345,
            ephemeral: "abc".as_bytes().to_vec(),
        };
        let mut writer = Writer::new();
        response.marshall(&mut writer);
        writer
    };
    let mut reader = Reader::new(writer.contents());
    assert!(reader.read_u32le().unwrap() == RESPONSE_EPHEMERAL);
    let response = EphemeralResponse::unmarshall(&mut reader).unwrap();
    assert!(response.session_id == 12345);
    assert!(response.ephemeral == "abc".as_bytes());
}

#[test]
fn marshall_proof_response() {
    let writer = {
        let response = ProofResponse {
            session_id: 12345,
            proof: "abc".as_bytes().to_vec(),
        };
        let mut writer = Writer::new();
        response.marshall(&mut writer);
        writer
    };
    let mut reader = Reader::new(writer.contents());
    assert!(reader.read_u32le().unwrap() == RESPONSE_PROOF);
    let response = ProofResponse::unmarshall(&mut reader).unwrap();
    assert!(response.session_id == 12345);
    assert!(response.proof == "abc".as_bytes());
}

#[test]
fn proof_response_exact_bytes() {
    let mut writer = Writer::new();
    ProofResponse { session_id: 0x0A0B0C0D, proof: vec![0xEE, 0xFF] }.marshall(&mut writer);
    assert_eq!(
        writer.contents(),
        &[0x30, 0xCA, 0x03, 0xD0, 0x0D, 0x0C, 0x0B, 0x0A, 0x02, 0x00, 0xEE, 0xFF][..]
    );
}

#[test]
fn negotiate_response_with_non_ascii_username_is_refused() {
    // protocol, client session id, session id, salt length 1, salt, then a
    // username whose byte is not ASCII.
    let bytes = [1u8, 1, 0, 0, 0, 2, 0, 0, 0, 1, 0x55, 0xC3, 0x00];
    let mut reader = Reader::new(&bytes);
    assert!(NegotiateResponse::unmarshall(&mut reader).is_err());
}
