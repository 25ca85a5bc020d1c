//! The numbers that the operating system gives to things.

use vstd::prelude::*;

verus! {

/// The Ethernet type of IPv4.
pub const ETHERTYPE_IPV4: u32 = 0x0800;

/// The Ethernet type of IPv6.
pub const ETHERTYPE_IPV6: u32 = 0x86dd;

/// The IP protocol number of TCP.
pub const PROTOCOL_TCP: u32 = 6;

/// `libc::ETH_P_IP`, which is the Ethernet type of IPv4.
#[verifier::external_body]
pub(crate) fn eth_p_ip() -> (number: u32)
    ensures
        number == ETHERTYPE_IPV4,
{
    libc::ETH_P_IP as u32
}

/// `libc::ETH_P_IPV6`, which is the Ethernet type of IPv6.
#[verifier::external_body]
pub(crate) fn eth_p_ipv6() -> (number: u32)
    ensures
        number == ETHERTYPE_IPV6,
{
    libc::ETH_P_IPV6 as u32
}

/// `libc::IPPROTO_TCP`, which is the protocol number of TCP.
#[verifier::external_body]
pub(crate) fn ipproto_tcp() -> (number: u32)
    ensures
        number == PROTOCOL_TCP,
{
    libc::IPPROTO_TCP as u32
}

/// The error code for too many open files in this process.
pub const TOO_MANY_FILES: i32 = 24;

/// The error code for too many open files in the system.
pub const FILE_TABLE_FULL: i32 = 23;

/// `libc::EMFILE`, the code for too many open files in this process on Linux.
#[verifier::external_body]
pub(crate) fn emfile() -> (code: i32)
    ensures
        code == TOO_MANY_FILES,
{
    libc::EMFILE
}

/// `libc::ENFILE`, the code for too many open files in the system on Linux.
#[verifier::external_body]
pub(crate) fn enfile() -> (code: i32)
    ensures
        code == FILE_TABLE_FULL,
{
    libc::ENFILE
}

/// The address family of packet sockets.
pub const FAMILY_PACKET: u16 = 17;

/// The protocol number that stands for every Ethernet type.
pub const ETHERTYPE_ALL: u16 = 3;

/// The poll event for data to read.
pub const READABLE: i16 = 1;

/// `libc::AF_PACKET`, the address family of packet sockets on Linux.
#[verifier::external_body]
pub(crate) fn af_packet() -> (number: u16)
    ensures
        number == FAMILY_PACKET,
{
    libc::AF_PACKET as u16
}

/// `libc::ETH_P_ALL`, which stands for every Ethernet type.
#[verifier::external_body]
pub(crate) fn eth_p_all() -> (number: u16)
    ensures
        number == ETHERTYPE_ALL,
{
    libc::ETH_P_ALL as u16
}

/// `libc::POLLIN`, the poll event for data to read on Linux.
#[verifier::external_body]
pub(crate) fn pollin() -> (event: i16)
    ensures
        event == READABLE,
{
    libc::POLLIN
}

} // verus!
