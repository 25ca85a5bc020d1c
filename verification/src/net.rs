//! Addresses as plain numbers.

use vstd::prelude::*;

verus! {

/// An IP address.
///
/// The number is the address read in network order: `127.0.0.1` is
/// `V4(0x7f00_0001)`, and `::1` is `V6(1)`.
#[derive(Debug, Clone, Copy, PartialEq, Eq, Hash, Structural)]
pub enum IpAddr {
    V4(u32),
    V6(u128),
}

/// An IP address with a TCP port.
#[derive(Debug, Clone, Copy, PartialEq, Eq, Hash, Structural)]
pub struct SocketAddr {
    pub ip: IpAddr,
    pub port: u16,
}

} // verus!
