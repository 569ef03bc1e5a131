use nixauth::addr::RemoteAddr;
use nixauth::session::{Data, SessionList};

fn dummy_addr() -> RemoteAddr {
    // 127.0.0.1:8080
    RemoteAddr::V4 { ipv4: 0x7F00_0001, port: 8080 }
}

fn dummy_addr2() -> RemoteAddr {
    // 192.168.0.1:10666
    RemoteAddr::V4 { ipv4: 0xC0A8_0001, port: 10666 }
}

struct Test {
    max_sessions: i16,
}

impl Test {
    fn new() -> Self {
        Self { max_sessions: 256 }
    }

    fn max_sessions(mut self, max_sessions: i16) -> Self {
        self.max_sessions = max_sessions;
        self
    }

    fn session_list(&self) -> SessionList<()> {
        SessionList::new(self.max_sessions, 1)
    }
}

#[test]
fn session_create_session() {
    let test = Test::new();
    let mut list = test.session_list();
    list.create_session(dummy_addr());
    assert!(list.reserved_entries() == 1);
    assert!(list.used_entries() == 1);
}

#[test]
fn encode_decode_session_id() {
    let test = Test::new().max_sessions(256);
    let list = test.session_list();
    let session_id = list.encode_session_id(3);
    println!("encoded-session-id: {} {:x}", session_id, session_id);
    let decoded = list.decode_session_id(session_id);
    println!("decoded-session-id: {} {:x}", decoded, decoded);
    let session_id = list.encode_session_id(3);
    println!("encoded-session-id: {} {:x}", session_id, session_id);
    let decoded = list.decode_session_id(session_id);
    println!("decoded-session-id: {} {:x}", decoded, decoded);
    println!("{}", 128u8.rotate_left(9u32));

    let test = Test::new();
    let list = test.session_list();
    let session_id = list.encode_session_id(255);
    assert!(list.decode_session_id(session_id) == 255);
}

#[test]
fn get_valid_session_but_wrong_owner() {
    let test = Test::new();
    let mut sessions = test.session_list();
    let session_id = sessions.create_session(dummy_addr()).unwrap();
    println!("session-id: {}", session_id);
    assert!(sessions.set_session_data(dummy_addr(), session_id, Data::default()));
    assert!(sessions.get_session_data(dummy_addr(), session_id).is_some());
    assert!(sessions.get_session_data(dummy_addr2(), session_id).is_none());
}

#[test]
fn max_sessions_reached() {
    let test = Test::new().max_sessions(1);
    let mut list = test.session_list();
    assert!(list.create_session(dummy_addr()).is_some());
    assert!(list.create_session(dummy_addr()).is_none());
}

#[test]
fn decode_inverts_encode_for_every_slot() {
    for max in [1i16, 3, 7, 256, 1000] {
        let list: SessionList<()> = SessionList::new(max, 1);
        for index in 0..(max as usize) {
            for random in [0u32, 1, 12345, 0x8000_0000, 0xFFFF_0000] {
                let id = list.encode_session_id_with(index, random);
                assert_eq!(list.decode_session_id(id), index);
            }
        }
    }
}

#[test]
fn session_expires_after_whole_lifetime() {
    let mut list: SessionList<()> = SessionList::new(10, 1);
    assert!(list.create_session_at(dummy_addr(), 0, 42).is_some());
    assert!(!list.is_expired_session_at(0, 999_999_999));
    assert!(list.is_expired_session_at(0, 1_000_000_000));
}

#[test]
fn storing_data_renews_the_session() {
    let mut list: SessionList<()> = SessionList::new(10, 1);
    let id = list.create_session_at(dummy_addr(), 0, 7).unwrap();
    assert!(list.set_session_data_at(dummy_addr(), id, Data::default(), 500_000_000));
    list.clean_at(1_000_000_000);
    assert_eq!(list.used_entries(), 1);
    list.clean_at(1_500_000_000);
    assert_eq!(list.used_entries(), 0);
}

#[test]
fn expired_session_is_not_found() {
    let mut list: SessionList<()> = SessionList::new(10, 1);
    let id = list.create_session_at(dummy_addr(), 0, 7).unwrap();
    assert!(!list.set_session_data_at(dummy_addr(), id, Data::default(), 2_000_000_000));
    assert!(list.get_session_data_at(dummy_addr(), id, 2_000_000_000).is_none());
}

#[test]
fn stored_data_is_taken_once() {
    let mut list: SessionList<u8> = SessionList::new(10, 5);
    let id = list.create_session_at(dummy_addr(), 0, 99).unwrap();
    let mut data: Data<u8> = Data::default();
    data.user_id = 4;
    data.client_session_id = 77;
    data.verifier = Some(9);
    assert!(list.set_session_data_at(dummy_addr(), id, data, 10));
    let taken = list.get_session_data_at(dummy_addr(), id, 20).unwrap();
    assert_eq!(taken.user_id, 4);
    assert_eq!(taken.client_session_id, 77);
    assert_eq!(taken.verifier, Some(9));
    assert!(list.get_session_data_at(dummy_addr(), id, 30).is_none());
}

#[test]
fn released_slot_is_reused() {
    let mut list: SessionList<()> = SessionList::new(10, 5);
    list.create_session_at(dummy_addr(), 0, 1).unwrap();
    list.create_session_at(dummy_addr(), 0, 2).unwrap();
    assert_eq!(list.reserved_entries(), 2);
    list.destroy(0);
    assert_eq!(list.used_entries(), 1);
    list.create_session_at(dummy_addr2(), 0, 3).unwrap();
    assert_eq!(list.reserved_entries(), 2);
    assert_eq!(list.used_entries(), 2);
}

#[test]
fn destroying_an_unknown_slot_changes_nothing() {
    let mut list: SessionList<()> = SessionList::new(10, 5);
    list.create_session_at(dummy_addr(), 0, 1).unwrap();
    list.destroy(5);
    assert_eq!(list.used_entries(), 1);
    assert_eq!(list.reserved_entries(), 1);
}

#[test]
fn clean_keeps_live_sessions() {
    let mut list: SessionList<()> = SessionList::new(10, 2);
    list.create_session_at(dummy_addr(), 0, 1).unwrap();
    list.create_session_at(dummy_addr(), 1_500_000_000, 2).unwrap();
    list.clean_at(2_000_000_000);
    assert_eq!(list.used_entries(), 1);
    assert_eq!(list.reserved_entries(), 2);
}

#[test]
fn fresh_session_found_by_its_owner() {
    let mut list: SessionList<()> = SessionList::new(3, 5);
    let id = list.create_session(dummy_addr()).unwrap();
    assert!(!list.is_expired_session(0));
    assert!(list.set_session_data(dummy_addr(), id, Data::default()));
    assert!(!list.set_session_data(dummy_addr2(), id, Data::default()));
    list.clean();
    assert_eq!(list.used_entries(), 1);
}

#[test]
fn cleaning_twice_releases_a_session_once() {
    let mut list: SessionList<()> = SessionList::new(10, 1);
    let id = list.create_session_at(dummy_addr(), 0, 5).unwrap();
    list.clean_at(2_000_000_000);
    assert_eq!(list.used_entries(), 0);
    list.clean_at(2_000_000_000);
    assert_eq!(list.used_entries(), 0);
    assert_eq!(list.reserved_entries(), 1);
    // The released slot is handed out once, then a new slot is added.
    let a = list.create_session_at(dummy_addr(), 3_000_000_000, 6).unwrap();
    let b = list.create_session_at(dummy_addr2(), 3_000_000_000, 7).unwrap();
    assert_eq!(list.decode_session_id(a), 0);
    assert_eq!(list.decode_session_id(b), 1);
    assert_eq!(list.reserved_entries(), 2);
    assert_eq!(list.used_entries(), 2);
    let _ = id;
}

#[test]
fn released_session_is_no_longer_found() {
    let mut list: SessionList<()> = SessionList::new(10, 5);
    let id = list.create_session_at(dummy_addr(), 0, 5).unwrap();
    let index = list.decode_session_id(id) as u32;
    list.destroy(index);
    assert!(!list.set_session_data_at(dummy_addr(), id, Data::default(), 1));
    list.destroy(index);
    assert_eq!(list.used_entries(), 0);
}
