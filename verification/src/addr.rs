//! Network addresses.

use vstd::prelude::*;

verus! {

/// The address of a socket. Two addresses are the same where all their parts are.
#[derive(Debug, Clone, Copy, PartialEq, Eq, Structural)]
pub enum SocketAddr {
    /// An IPv4 address and a port.
    V4 { ip4: u32, port: u16 },
    /// An IPv6 address, a port, the flow information and the scope.
    V6 { ip6: u128, port: u16, flowinfo: u32, scope_id: u32 },
}

} // verus!
