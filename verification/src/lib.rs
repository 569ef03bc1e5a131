//! An authentication server speaking a small binary protocol over UDP.
//!
//! The library holds the wire format (readers, writers, requests, responses
//! and error replies), the session table, and the request handling logic.

pub mod wire;
pub mod reader;
pub mod writer;
pub mod error;
pub mod requests;
pub mod response;
pub mod addr;
pub mod session;
pub mod storage;
pub mod handler;
pub mod receiver;
pub mod server;

pub use server::Server;

use vstd::prelude::*;
use crate::storage::Storage;

verus! {

/// Adds users to a store. The password verifier and salt are made by the
/// SRP library before `perform` is called.
pub struct Registration<'storage, S: Storage + ?Sized> {
    storage: &'storage mut S,
}

impl<'storage, S: Storage + ?Sized> Registration<'storage, S> {
    pub fn new(storage: &'storage mut S) -> (r: Self)
        ensures
            r.store() == &*old(storage),
    {
        Self { storage }
    }

    /// The store users are added to.
    pub closed spec fn store(&self) -> &S {
        &*self.storage
    }

    /// Stores `username` with its password verifier and salt; the store's
    /// answer (whether the user was added) is returned as it came. When it is
    /// `true`, the store holds the user with exactly that verifier and salt.
    pub fn perform(&mut self, username: &str, verifier: &[u8], salt: &[u8]) -> (r: bool)
        ensures
            r ==> final(self).store().has_user(username@, verifier@, salt@),
    {
        self.storage.add_user(username, verifier, salt)
    }
}

} // verus!
