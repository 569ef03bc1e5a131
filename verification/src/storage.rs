//! The user database the server reads, as an interface.

use vstd::prelude::*;

verus! {

/// A registered user: row id, name, and the password verifier and salt.
#[derive(Debug)]
pub struct User {
    pub id: usize,
    pub username: String,
    pub verifier: Vec<u8>,
    pub salt: Vec<u8>,
}

/// A stored session record.
pub struct Session {
    pub id: u32,
    pub user_id: i32,
    pub client_session_id: u32,
    pub ephemeral_a: Vec<u8>,
    pub ephemeral_b: Vec<u8>,
}

pub enum StorageError {
    OutOfSlots,
}

/// A user database. Implementations decide which users they hold and whether
/// an insertion or removal succeeds; a user they hand out must be the one
/// asked for, and a user they report added must be held as given.
pub trait Storage {
    /// Whether the store holds a user record with this name, password
    /// verifier and salt. An implementation that does not define it claims
    /// nothing about what it holds.
    open spec fn has_user(&self, username: Seq<char>, verifier: Seq<u8>, salt: Seq<u8>) -> bool {
        true
    }

    /// The user named `username`, if the store has one.
    fn get_user(&mut self, username: &str) -> (r: Option<User>)
        ensures
            r matches Some(u) ==> u.username@ == username@,
    ;

    /// The user whose row id is `id`, if the store has one.
    fn get_user_by_id(&mut self, id: i64) -> (r: Option<User>)
        ensures
            r matches Some(u) ==> u.id == id as usize,
    ;

    /// Adds a user; when it reports success, the store holds the record with
    /// exactly this name, verifier and salt.
    fn add_user(&mut self, username: &str, verifier: &[u8], salt: &[u8]) -> (r: bool)
        ensures
            r ==> final(self).has_user(username@, verifier@, salt@),
    ;

    fn remove_user(&mut self, username: &str) -> bool;
}

pub const USERNAME: &'static str = "test-user";
pub const PASSWORD: &'static str = "12345";
pub const SALT: &'static str = "xxx";

} // verus!
