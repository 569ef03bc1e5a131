use nixauth::reader::Reader;
use nixauth::requests::{
    EphemeralRequest, NegotiateRequest, ProofRequest, Request, REQUEST_EPHEMERAL,
    REQUEST_NEGOTIATE, REQUEST_PROOF,
};
use nixauth::writer::Writer;

#[test]
fn marshall_negotiate_request() {
    let writer = {
        let request = NegotiateRequest {
            protocol: 2,
            client_session_id: 12345,
            username: "user",
        };
        let mut writer = Writer::new();
        request.marshall(&mut writer);
        writer
    };
    let mut reader = Reader::new(writer.contents());
    let mut request = {
        let request = Request::from_reader(&mut reader).unwrap();
        assert!(request.header == REQUEST_NEGOTIATE);
        request
    };
    let request = NegotiateRequest::unmarshall(&mut request).unwrap();
    assert!(request.protocol == 2);
    assert!(request.client_session_id == 12345);
    assert!(request.username == "user");
}

#[test]
fn marshall_ephemeral_request() {
    let writer = {
        let request = EphemeralRequest {
            session_id: 12345,
            ephemeral: "abc".as_bytes(),
        };
        let mut writer = Writer::new();
        request.marshall(&mut writer);
        writer
    };
    let mut reader = Reader::new(writer.contents());
    let mut request = {
        let request = Request::from_reader(&mut reader).unwrap();
        assert!(request.header == REQUEST_EPHEMERAL);
        request
    };
    let request = EphemeralRequest::unmarshall(&mut request).unwrap();
    assert!(request.session_id == 12345);
    assert!(request.ephemeral == "abc".as_bytes());
}

#[test]
fn marshall_proof_request() {
    let writer = {
        let request = ProofRequest {
            session_id: 12345,
            proof: "abc".as_bytes(),
        };
        let mut writer = Writer::new();
        request.marshall(&mut writer);
        writer
    };
    let mut reader = Reader::new(writer.contents());
    let mut request = {
        let request = Request::from_reader(&mut reader).unwrap();
        assert!(request.header == REQUEST_PROOF);
        request
    };
    let request = ProofRequest::unmarshall(&mut request).unwrap();
    assert!(request.session_id == 12345);
    assert!(request.proof == "abc".as_bytes());
}

#[test]
fn negotiate_request_exact_bytes() {
    let mut writer = Writer::new();
    NegotiateRequest { protocol: 2, client_session_id: 1, username: "ab" }.marshall(&mut writer);
    assert_eq!(
        writer.contents(),
        &[0x01, 0xCA, 0x03, 0xD0, 0x02, 0x01, 0x00, 0x00, 0x00, b'a', b'b', 0x00][..]
    );
}

#[test]
fn unknown_header_is_refused() {
    let bytes = [0x04u8, 0xCA, 0x03, 0xD0, 0x00];
    let mut reader = Reader::new(&bytes);
    assert!(Request::from_reader(&mut reader).is_err());
    let short = [0x01u8, 0xCA, 0x03];
    let mut reader = Reader::new(&short);
    assert!(Request::from_reader(&mut reader).is_err());
}

#[test]
fn username_without_terminator_is_refused() {
    let bytes = [0x01u8, 0xCA, 0x03, 0xD0, 0x02, 0x01, 0x00, 0x00, 0x00, b'a', b'b'];
    let mut reader = Reader::new(&bytes);
    let mut request = Request::from_reader(&mut reader).unwrap();
    assert!(NegotiateRequest::unmarshall(&mut request).is_err());
}

#[test]
fn payload_longer_than_input_is_refused() {
    // Session id 5, declared length 4, only two bytes follow.
    let bytes = [0x02u8, 0xCA, 0x03, 0xD0, 0x05, 0x00, 0x00, 0x00, 0x04, 0x00, 0x61, 0x62];
    let mut reader = Reader::new(&bytes);
    let mut request = Request::from_reader(&mut reader).unwrap();
    assert!(EphemeralRequest::unmarshall(&mut request).is_err());
}
