//! The choice of the network interface that reaches an upstream.
//!
//! A UDP socket that is connected to the upstream learns the local address that
//! the system would send from; the interface is the one that has this address.

use vstd::prelude::*;

use crate::error::SnifferError;
use crate::net::IpAddr;
use crate::text::{join2, join3};

verus! {

/// The address to bind the UDP socket to: any, of the same family.
pub fn probe_bind_address(ip: IpAddr) -> (address: &'static str)
    ensures
        address@ == if ip is V4 {
            "0.0.0.0:0"@
        } else {
            "[::]:0"@
        },
{
    match ip {
        IpAddr::V4(_) => "0.0.0.0:0",
        IpAddr::V6(_) => "[::]:0",
    }
}

/// The address to connect the UDP socket to, where `text` is how the IP address
/// is written: its port 53.
pub fn probe_target(ip: IpAddr, text: &str) -> (target: String)
    ensures
        target@ == if ip is V4 {
            text@ + ":53"@
        } else {
            "["@ + text@ + "]:53"@
        },
{
    match ip {
        IpAddr::V4(_) => join2(text, ":53"),
        IpAddr::V6(_) => join3("[", text, "]:53"),
    }
}

/// The steps that ask the system.
#[derive(Debug)]
pub enum ProbeStep {
    BindUdp,
    ConnectUdp { target: String },
    LocalAddr,
    ListInterfaces,
    NameToIndex,
}

/// How a failure of a step is told, where `why` is what the system says.
pub open spec fn probe_complaint(step: ProbeStep, why: Seq<char>) -> Seq<char> {
    match step {
        ProbeStep::BindUdp => "bind UDP: "@ + why,
        ProbeStep::ConnectUdp { target } => "connect UDP to "@ + target@ + ": "@ + why,
        ProbeStep::LocalAddr => "local addr: "@ + why,
        ProbeStep::ListInterfaces => "getifaddrs: "@ + why,
        ProbeStep::NameToIndex => "if_nametoindex: "@ + why,
    }
}

/// A failure of a step.
pub fn probe_failure(step: ProbeStep, why: &str) -> (error: SnifferError)
    ensures
        error.is_other(probe_complaint(step, why@)),
{
    let complaint = match step {
        ProbeStep::BindUdp => join2("bind UDP: ", why),
        ProbeStep::ConnectUdp { target } => {
            let mut complaint = join3("connect UDP to ", target.as_str(), ": ");
            complaint.append(why);
            complaint
        },
        ProbeStep::LocalAddr => join2("local addr: ", why),
        ProbeStep::ListInterfaces => join2("getifaddrs: ", why),
        ProbeStep::NameToIndex => join2("if_nametoindex: ", why),
    };
    SnifferError::Other(complaint)
}

/// A socket address of an interface, read as IPv4 and as IPv6 where it is one.
#[derive(Debug, Clone, Copy, PartialEq, Eq, Structural)]
pub struct InterfaceSocket {
    pub v4: Option<u32>,
    pub v6: Option<u128>,
}

/// An interface with one of its addresses.
#[derive(Debug)]
pub struct InterfaceAddress {
    pub interface_name: String,
    pub address: Option<InterfaceSocket>,
}

impl InterfaceAddress {
    /// The IP address of this entry, if it has one.
    pub open spec fn ip(self) -> Option<IpAddr> {
        match self.address {
            Some(InterfaceSocket { v4: Some(v4), .. }) => Some(IpAddr::V4(v4)),
            Some(InterfaceSocket { v4: None, v6: Some(v6) }) => Some(IpAddr::V6(v6)),
            _ => None,
        }
    }

    /// Whether this entry has an IP address.
    pub fn matches(&self, ip: IpAddr) -> (same: bool)
        ensures
            same == (self.ip() == Some(ip)),
            same <==> (self.address matches Some(socket) && match ip {
                IpAddr::V4(x) => socket.v4 == Some(x),
                IpAddr::V6(x) => socket.v4 is None && socket.v6 == Some(x),
            }),
    {
        match self.address {
            Some(socket) => match (socket.v4, socket.v6) {
                (Some(v4), _) => IpAddr::V4(v4) == ip,
                (None, Some(v6)) => IpAddr::V6(v6) == ip,
                (None, None) => false,
            },
            None => false,
        }
    }
}

/// Whether an entry is the first with an IP address.
pub open spec fn is_first_with(interfaces: Seq<InterfaceAddress>, ip: IpAddr, at: int) -> bool {
    &&& 0 <= at < interfaces.len()
    &&& interfaces[at].ip() == Some(ip)
    &&& forall|i: int| 0 <= i < at ==> (#[trigger] interfaces[i]).ip() != Some(ip)
}

/// The name of the first interface that has the local IP address, which is
/// written as `text`.
pub fn find_interface(interfaces: &Vec<InterfaceAddress>, local_ip: IpAddr, text: &str) -> (found:
    Result<String, SnifferError>)
    ensures
        match found {
            Ok(name) => exists|at: int| #[trigger]
                is_first_with(interfaces@, local_ip, at) && name@
                    == interfaces@[at].interface_name@,
            Err(e) => {
                &&& forall|i: int|
                    0 <= i < interfaces@.len() ==> (#[trigger] interfaces@[i]).ip() != Some(local_ip)
                &&& e.is_other("no interface found for local IP "@ + text@)
            },
        },
{
    for i in 0..interfaces.len()
        invariant
            forall|j: int| 0 <= j < i ==> (#[trigger] interfaces@[j]).ip() != Some(local_ip),
    {
        if interfaces[i].matches(local_ip) {
            assert(is_first_with(interfaces@, local_ip, i as int));
            return Ok(interfaces[i].interface_name.clone());
        }
    }
    Err(SnifferError::Other(join2("no interface found for local IP ", text)))
}

/// An index of the system as the signed number that socket addresses hold: the
/// same 32 bits.
pub open spec fn signed_index(index: u32) -> int {
    if index < 0x8000_0000 {
        index as int
    } else {
        index - 0x1_0000_0000
    }
}

/// The interface of a name, given what the system says of its index.
pub fn resolve_interface(name: String, index: Result<u32, String>) -> (interface: Result<
    (String, i32),
    SnifferError,
>)
    ensures
        match index {
            Ok(index) => interface matches Ok(found) && found.0 == name && found.1 == signed_index(
                index,
            ),
            Err(why) => interface matches Err(e) && e.is_other("if_nametoindex: "@ + why@),
        },
{
    match index {
        Ok(index) => {
            let signed: i32 = index as i32;
            assert(signed == (if index < 0x8000_0000 {
                index as int
            } else {
                index - 0x1_0000_0000
            })) by (bit_vector)
                requires
                    signed == index as i32,
            ;
            Ok((name, signed))
        },
        Err(why) => Err(probe_failure(ProbeStep::NameToIndex, why.as_str())),
    }
}

/// Whether an entry has an IP address, by what its socket address reads as: one
/// that reads as IPv4 has that address and no other, and one that reads as IPv6
/// alone has that one. Every bit of an address counts.
pub proof fn law_entry_matches_its_own_address(entry: InterfaceAddress, ip: IpAddr, same: bool)
    requires
        call_ensures(InterfaceAddress::matches, (&entry, ip), same),
    ensures
        entry.address is None ==> !same,
        entry.address matches Some(socket) ==> match (socket.v4, socket.v6) {
            (Some(v4), _) => same == (ip == IpAddr::V4(v4)),
            (None, Some(v6)) => same == (ip == IpAddr::V6(v6)),
            (None, None) => !same,
        },
        ip matches IpAddr::V4(x) ==> (same <==> entry.address is Some && entry.address->0.v4
            == Some(x)),
        ip matches IpAddr::V6(x) ==> (same <==> entry.address is Some && entry.address->0.v4 is None
            && entry.address->0.v6 == Some(x)),
{
}

/// An interface is found exactly where an entry matches the local address, and it
/// is that of the first such entry.
pub proof fn law_first_match_is_found(
    interfaces: &Vec<InterfaceAddress>,
    local_ip: IpAddr,
    text: &str,
    found: Result<String, SnifferError>,
    same: Seq<bool>,
)
    requires
        call_ensures(find_interface, (interfaces, local_ip, text), found),
        same.len() == interfaces@.len(),
        forall|i: int|
            #![trigger same[i]]
            0 <= i < same.len() ==> call_ensures(
                InterfaceAddress::matches,
                (&interfaces@[i], local_ip),
                same[i],
            ),
    ensures
        found is Ok <==> exists|i: int| 0 <= i < same.len() && #[trigger] same[i],
        forall|i: int|
            0 <= i < same.len() && #[trigger] same[i] && (forall|j: int|
                0 <= j < i ==> !#[trigger] same[j]) ==> (found matches Ok(name) && name@
                == interfaces@[i].interface_name@),
        found matches Err(e) ==> (e matches SnifferError::Other(why) && why@
            == "no interface found for local IP "@ + text@),
{
    assert forall|i: int| 0 <= i < same.len() implies #[trigger] same[i] == (interfaces@[i].ip()
        == Some(local_ip)) by {}
    if found is Ok {
        let at = choose|at: int| #[trigger]
            is_first_with(interfaces@, local_ip, at) && found->Ok_0@
                == interfaces@[at].interface_name@;
        assert(same[at]);
    }
}

/// An interface is found wherever an entry has the local address, whatever its 32
/// or 128 bits, as its own, and the name that is found is that of such an entry.
pub proof fn law_own_address_is_found(
    interfaces: &Vec<InterfaceAddress>,
    local_ip: IpAddr,
    text: &str,
    found: Result<String, SnifferError>,
)
    requires
        call_ensures(find_interface, (interfaces, local_ip, text), found),
    ensures
        local_ip matches IpAddr::V6(x) ==> forall|i: int|
            0 <= i < interfaces@.len() && (#[trigger] interfaces@[i]).address == Some(
                (InterfaceSocket { v4: None, v6: Some(x) }),
            ) ==> found is Ok,
        local_ip matches IpAddr::V4(x) ==> forall|i: int|
            0 <= i < interfaces@.len() && (#[trigger] interfaces@[i]).address is Some
                && interfaces@[i].address->0.v4 == Some(x) ==> found is Ok,
        found matches Ok(name) ==> exists|i: int|
            0 <= i < interfaces@.len() && (#[trigger] interfaces@[i]).interface_name@ == name@
                && interfaces@[i].address is Some && match local_ip {
                IpAddr::V4(x) => interfaces@[i].address->0.v4 == Some(x),
                IpAddr::V6(x) => interfaces@[i].address->0.v4 is None
                    && interfaces@[i].address->0.v6 == Some(x),
            },
{
}

/// The socket that asks for the local address is bound to any address of the
/// family of the upstream, and connected to port 53 of the upstream, which an IPv6
/// address has behind brackets.
pub proof fn law_probe_addresses(
    v4: u32,
    v6: u128,
    text: &str,
    bound4: &'static str,
    bound6: &'static str,
    target4: String,
    target6: String,
)
    requires
        call_ensures(probe_bind_address, (IpAddr::V4(v4),), bound4),
        call_ensures(probe_bind_address, (IpAddr::V6(v6),), bound6),
        call_ensures(probe_target, (IpAddr::V4(v4), text), target4),
        call_ensures(probe_target, (IpAddr::V6(v6), text), target6),
    ensures
        bound4@ == "0.0.0.0:0"@,
        bound6@ == "[::]:0"@,
        target4@ == text@ + ":53"@,
        target6@ == "["@ + text@ + "]:53"@,
{
}

/// A failure of a step names the step, and then says what the system says.
pub proof fn law_probe_failures(step: ProbeStep, why: &str, error: SnifferError)
    requires
        call_ensures(probe_failure, (step, why), error),
    ensures
        error matches SnifferError::Other(told) && match step {
            ProbeStep::BindUdp => told@ == "bind UDP: "@ + why@,
            ProbeStep::ConnectUdp { target } => told@ == "connect UDP to "@ + target@ + ": "@
                + why@,
            ProbeStep::LocalAddr => told@ == "local addr: "@ + why@,
            ProbeStep::ListInterfaces => told@ == "getifaddrs: "@ + why@,
            ProbeStep::NameToIndex => told@ == "if_nametoindex: "@ + why@,
        },
{
}

/// The index of an interface is the number of the system, wrapped where it has
/// more than 31 bits, so that no two numbers become one; the name stays; and where
/// the system has no number, there is no interface.
pub proof fn law_index_of_interface(
    name: String,
    index: Result<u32, String>,
    interface: Result<(String, i32), SnifferError>,
)
    requires
        call_ensures(resolve_interface, (name, index), interface),
    ensures
        match index {
            Ok(number) => {
                &&& interface is Ok
                &&& interface->Ok_0.0 == name
                &&& interface->Ok_0.1 == number || interface->Ok_0.1 == number - 0x1_0000_0000
            },
            Err(why) => interface matches Err(SnifferError::Other(told)) && told@
                == "if_nametoindex: "@ + why@,
        },
{
}

} // verus!
