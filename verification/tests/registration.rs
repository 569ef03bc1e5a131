use nixauth::storage::{Storage, User};
use nixauth::{Registration, Server};

struct Recorder {
    added: Vec<(String, Vec<u8>, Vec<u8>)>,
    accept: bool,
}

impl Storage for Recorder {
    fn get_user(&mut self, _username: &str) -> Option<User> {
        None
    }

    fn get_user_by_id(&mut self, _id: i64) -> Option<User> {
        None
    }

    fn add_user(&mut self, username: &str, verifier: &[u8], salt: &[u8]) -> bool {
        self.added.push((username.to_string(), verifier.to_vec(), salt.to_vec()));
        self.accept
    }

    fn remove_user(&mut self, _username: &str) -> bool {
        false
    }
}

#[test]
fn registration_hands_the_verifier_to_the_store() {
    let mut storage = Recorder { added: Vec::new(), accept: true };
    {
        let mut registration = Registration::new(&mut storage);
        assert!(registration.perform("alice", b"verifier", b"salt"));
    }
    assert_eq!(storage.added, vec![("alice".to_string(), b"verifier".to_vec(), b"salt".to_vec())]);
}

#[test]
fn registration_reports_a_refusal() {
    let mut storage = Recorder { added: Vec::new(), accept: false };
    let mut registration = Registration::new(&mut storage);
    assert!(!registration.perform("bob", b"v", b"s"));
}

#[test]
fn server_keeps_its_configuration() {
    let mut storage = Recorder { added: Vec::new(), accept: true };
    let mut server = Server::new(&mut storage, 16666);
    server.add_user(b"carol", b"pw");
    server.disable_user(b"carol");
    server.enable_user(b"carol");
    server.remove_user(b"carol");
    assert_eq!(server.port(), 16666);
    let storage = server.into_storage();
    assert!(storage.added.is_empty());
}
