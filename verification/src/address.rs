//! Who a datagram came from.

use vstd::prelude::*;

verus! {

/// The address of a client: what a reply is sent to, and what tells one client
/// from another. Two addresses are the same client exactly when all their
/// parts are equal.
#[derive(Clone, Copy, Debug, PartialEq, Eq, Hash, Structural)]
pub enum ClientAddress {
    /// An IPv4 address, its four bytes read as a big-endian integer, and a port.
    V4 { ip: u32, port: u16 },
    /// An IPv6 address, its sixteen bytes read as a big-endian integer, a port,
    /// the flow information and the scope.
    V6 { ip6: u128, port: u16, flowinfo: u32, scope_id: u32 },
}

} // verus!
