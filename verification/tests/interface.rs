use sniffer_core::error::SnifferError;
use sniffer_core::interface::{
    find_interface, probe_bind_address, probe_failure, probe_target, resolve_interface,
    InterfaceAddress, InterfaceSocket, ProbeStep,
};
use sniffer_core::net::IpAddr;

fn entry(name: &str, v4: Option<u32>, v6: Option<u128>) -> InterfaceAddress {
    InterfaceAddress {
        interface_name: String::from(name),
        address: Some(InterfaceSocket { v4, v6 }),
    }
}

fn text(error: SnifferError) -> String {
    match error {
        SnifferError::Other(text) => text,
        other => panic!("{other:?}"),
    }
}

#[test]
fn probes_are_of_the_same_family() {
    let v4 = IpAddr::V4(0xc000_0201);
    let v6 = IpAddr::V6(1);
    assert_eq!(probe_bind_address(v4), "0.0.0.0:0");
    assert_eq!(probe_bind_address(v6), "[::]:0");
    assert_eq!(probe_target(v4, "192.0.2.1"), "192.0.2.1:53");
    assert_eq!(probe_target(v6, "::1"), "[::1]:53");
}

#[test]
fn failed_steps_are_told_apart() {
    assert_eq!(text(probe_failure(ProbeStep::BindUdp, "e")), "bind UDP: e");
    let connect = ProbeStep::ConnectUdp { target: String::from("192.0.2.1:53") };
    assert_eq!(text(probe_failure(connect, "e")), "connect UDP to 192.0.2.1:53: e");
    assert_eq!(text(probe_failure(ProbeStep::LocalAddr, "e")), "local addr: e");
    assert_eq!(text(probe_failure(ProbeStep::ListInterfaces, "e")), "getifaddrs: e");
    assert_eq!(text(probe_failure(ProbeStep::NameToIndex, "e")), "if_nametoindex: e");
}

#[test]
fn first_interface_with_the_address_is_taken() {
    let interfaces = vec![
        InterfaceAddress { interface_name: String::from("down0"), address: None },
        entry("link0", None, None),
        entry("lo", Some(0x7f00_0001), None),
        entry("eth0", Some(0x0a00_0001), None),
        entry("eth1", Some(0x0a00_0001), None),
        entry("eth0", None, Some(1)),
    ];
    let name = find_interface(&interfaces, IpAddr::V4(0x0a00_0001), "10.0.0.1").unwrap();
    assert_eq!(name, "eth0");
    assert_eq!(find_interface(&interfaces, IpAddr::V6(1), "::1").unwrap(), "eth0");
    let missing = find_interface(&interfaces, IpAddr::V6(0x0a00_0001), "::a00:1").unwrap_err();
    assert_eq!(text(missing), "no interface found for local IP ::a00:1");
}

#[test]
fn index_keeps_its_bits() {
    let eth0 = String::from("eth0");
    assert_eq!(resolve_interface(eth0.clone(), Ok(2)).unwrap(), (eth0.clone(), 2));
    assert_eq!(resolve_interface(eth0.clone(), Ok(u32::MAX)).unwrap(), (eth0.clone(), -1));
    let missing = resolve_interface(eth0, Err(String::from("ENODEV"))).unwrap_err();
    assert_eq!(text(missing), "if_nametoindex: ENODEV");
}
