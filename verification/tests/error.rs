use nixauth::error::{
    ErrorResponse, SessionError, UserError, ERR_SESSION_FAILURE, ERR_SESSION_ID,
    ERR_SESSION_NOT_FOUND, ERR_USER_BUSY, ERR_USER_ID, ERR_USER_IGNORED,
};
use nixauth::reader::Reader;
use nixauth::writer::Writer;

#[test]
fn marshall_user_error() {
    let writer = {
        let error = UserError {
            error: ERR_USER_IGNORED,
            client_session_id: 12345,
        };
        let mut writer = Writer::new();
        error.marshall(&mut writer);
        writer
    };
    let mut reader = Reader::new(writer.contents());
    assert!(reader.read_u32le().unwrap() == ERR_USER_ID);
    let error = UserError::unmarshall(&mut reader).unwrap();
    assert!(error.error == ERR_USER_IGNORED);
    assert!(error.client_session_id == 12345);
}

#[test]
fn marshall_session_error() {
    let writer = {
        let error = SessionError {
            error: ERR_SESSION_FAILURE,
            session_id: 12345,
        };
        let mut writer = Writer::new();
        error.marshall(&mut writer);
        writer
    };
    let mut reader = Reader::new(writer.contents());
    assert!(reader.read_u32le().unwrap() == ERR_SESSION_ID);
    let error = SessionError::unmarshall(&mut reader).unwrap();
    assert!(error.error == ERR_SESSION_FAILURE);
    assert!(error.session_id == 12345);
}

#[test]
fn user_error_exact_bytes() {
    let mut writer = Writer::new();
    UserError { error: ERR_USER_BUSY, client_session_id: 0x01020304 }.marshall(&mut writer);
    assert_eq!(writer.contents(), &[0xFF, 0xCA, 0x03, 0xD0, 0x00, 0x04, 0x03, 0x02, 0x01][..]);
}

#[test]
fn error_response_marshalls_its_variant() {
    let mut writer = Writer::new();
    ErrorResponse::Session(SessionError { error: ERR_SESSION_NOT_FOUND, session_id: 7 })
        .marshall(&mut writer);
    assert_eq!(writer.contents(), &[0xEE, 0xCA, 0x03, 0xD0, 0x01, 0x07, 0x00, 0x00, 0x00][..]);
    let mut writer = Writer::new();
    ErrorResponse::User(UserError { error: ERR_USER_IGNORED, client_session_id: 9 })
        .marshall(&mut writer);
    assert_eq!(writer.contents(), &[0xFF, 0xCA, 0x03, 0xD0, 0x03, 0x09, 0x00, 0x00, 0x00][..]);
}

#[test]
fn truncated_error_body_is_refused() {
    let bytes = [0x03u8, 0x39, 0x30];
    let mut reader = Reader::new(&bytes);
    assert!(UserError::unmarshall(&mut reader).is_err());
    let mut reader = Reader::new(&bytes[..0]);
    assert!(SessionError::unmarshall(&mut reader).is_err());
}
