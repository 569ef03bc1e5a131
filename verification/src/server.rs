//! The server's configuration: the user store and the port it listens on.
//!
//! Receiving datagrams, running the SRP computations and sending answers is
//! done by the program around the library, one request at a time, through
//! `Receiver`.

use vstd::prelude::*;
use crate::storage::Storage;

verus! {

pub struct Server<'storage, S: Storage + ?Sized> {
    storage: &'storage mut S,
    port: i32,
}

impl<'storage, S: Storage + ?Sized> Server<'storage, S> {
    pub fn new(storage: &'storage mut S, port: i32) -> (r: Self)
        ensures
            r.port_spec() == port,
            r.store() == &*old(storage),
    {
        Server { storage, port }
    }

    /// The store the server reads users from.
    pub closed spec fn store(&self) -> &S {
        &*self.storage
    }

    pub closed spec fn port_spec(&self) -> i32 {
        self.port
    }

    /// The port the server was configured with.
    pub fn port(&self) -> (r: i32)
        ensures
            r == self.port_spec(),
    {
        self.port
    }

    /// Gives up the server's configuration and lends out its store, for the
    /// request loop.
    pub fn into_storage(self) -> (r: &'storage mut S)
        ensures
            &*r == self.store(),
    {
        self.storage
    }

    /// Adding a user through the server is not supported; this does nothing.
    pub fn add_user(&mut self, username: &[u8], password: &[u8])
        ensures
            *final(self) == *old(self),
    {
    }

    /// Disabling a user is not supported; this does nothing.
    pub fn disable_user(&mut self, username: &[u8])
        ensures
            *final(self) == *old(self),
    {
    }

    /// Enabling a user is not supported; this does nothing.
    pub fn enable_user(&mut self, username: &[u8])
        ensures
            *final(self) == *old(self),
    {
    }

    /// Removing a user through the server is not supported; this does nothing.
    pub fn remove_user(&mut self, username: &[u8])
        ensures
            *final(self) == *old(self),
    {
    }
}

} // verus!
