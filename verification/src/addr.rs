//! The address a datagram came from.

use vstd::prelude::*;

verus! {

/// A remote socket address: IPv4 address and port, or IPv6 address, port,
/// flow info and scope id. Two addresses are the same when all their parts
/// are.
#[derive(Clone, Copy, Debug, PartialEq, Eq, Structural)]
pub enum RemoteAddr {
    V4 { ipv4: u32, port: u16 },
    V6 { ipv6: u128, port: u16, flowinfo: u32, scope_id: u32 },
}

} // verus!
