use sniffer_core::bpf::{run_filter as run_program, SockFilter};
use sniffer_core::error::SnifferError;
use sniffer_core::filter::{build_bpf_filter, upstream_ports, CAPTURE_SNAPLEN};
use sniffer_core::filter_builder::FilterBuilder;
use sniffer_core::net::{IpAddr, SocketAddr};

fn upstream(text: &str) -> SocketAddr {
    let (ip, port) = text.split_once(':').unwrap();
    let octets: Vec<u8> = ip.split('.').map(|octet| octet.parse().unwrap()).collect();
    SocketAddr {
        ip: IpAddr::V4(u32::from_be_bytes([octets[0], octets[1], octets[2], octets[3]])),
        port: port.parse().unwrap(),
    }
}

fn on_ports(ports: &[u16]) -> Vec<SocketAddr> {
    ports.iter().map(|port| SocketAddr { ip: IpAddr::V4(1), port: *port }).collect()
}

fn run_filter(filter: &[SockFilter], packet: &[u8]) -> u32 {
    let mut accumulator = 0u32;
    let mut index_register = 0usize;
    let mut pc = 0usize;

    while pc < filter.len() {
        let instruction = filter[pc];
        match instruction.code {
            0x28 => {
                let offset = instruction.k as usize;
                accumulator = u16::from_be_bytes([packet[offset], packet[offset + 1]]) as u32;
                pc += 1;
            }
            0x30 => {
                accumulator = packet[instruction.k as usize] as u32;
                pc += 1;
            }
            0x48 => {
                let offset = index_register + instruction.k as usize;
                accumulator = u16::from_be_bytes([packet[offset], packet[offset + 1]]) as u32;
                pc += 1;
            }
            0x80 => {
                accumulator = packet.len() as u32;
                pc += 1;
            }
            0xb1 => {
                index_register = ((packet[instruction.k as usize] & 0x0f) * 4) as usize;
                pc += 1;
            }
            0x15 => {
                let offset = if accumulator == instruction.k {
                    instruction.jt
                } else {
                    instruction.jf
                };
                pc += usize::from(offset) + 1;
            }
            0x25 => {
                let offset = if accumulator > instruction.k {
                    instruction.jt
                } else {
                    instruction.jf
                };
                pc += usize::from(offset) + 1;
            }
            0x45 => {
                let offset = if accumulator & instruction.k != 0 {
                    instruction.jt
                } else {
                    instruction.jf
                };
                pc += usize::from(offset) + 1;
            }
            0x05 => pc += instruction.k as usize + 1,
            0x06 => return instruction.k,
            code => panic!("unsupported test BPF instruction: {code:#x}"),
        }
    }
    0
}

/// Runs a filter both ways, and checks that they agree.
fn verdict(filter: &[SockFilter], packet: &[u8]) -> u32 {
    let verdict = run_filter(filter, packet);
    assert_eq!(run_program(filter, packet), Some(verdict));
    verdict
}

fn ipv4_packet(protocol: u8, source_port: u16, destination_port: u16, len: usize) -> Vec<u8> {
    let mut packet = vec![0; len];
    packet[12..14].copy_from_slice(&(libc::ETH_P_IP as u16).to_be_bytes());
    packet[14] = 0x45;
    packet[23] = protocol;
    packet[34..36].copy_from_slice(&source_port.to_be_bytes());
    packet[36..38].copy_from_slice(&destination_port.to_be_bytes());
    packet
}

fn ipv6_packet(source_port: u16, destination_port: u16) -> Vec<u8> {
    let mut packet = vec![0; 74];
    packet[12..14].copy_from_slice(&(libc::ETH_P_IPV6 as u16).to_be_bytes());
    packet[20] = libc::IPPROTO_TCP as u8;
    packet[54..56].copy_from_slice(&source_port.to_be_bytes());
    packet[56..58].copy_from_slice(&destination_port.to_be_bytes());
    packet
}

#[test]
fn bpf_filter_keeps_only_small_tcp_packets_for_upstream_ports() {
    let upstream: SocketAddr = upstream("192.0.2.1:443");
    let filter = build_bpf_filter(&[upstream]).unwrap();

    assert_eq!(
        verdict(
            &filter,
            &ipv4_packet(libc::IPPROTO_TCP as u8, 40_000, 443, 74)
        ),
        CAPTURE_SNAPLEN
    );
    assert_eq!(
        verdict(
            &filter,
            &ipv4_packet(libc::IPPROTO_TCP as u8, 443, 40_000, 74)
        ),
        CAPTURE_SNAPLEN
    );
    assert_eq!(
        verdict(&filter, &ipv6_packet(40_000, 443)),
        CAPTURE_SNAPLEN
    );
    assert_eq!(
        verdict(
            &filter,
            &ipv4_packet(libc::IPPROTO_TCP as u8, 40_000, 80, 74)
        ),
        0
    );
    assert_eq!(
        verdict(
            &filter,
            &ipv4_packet(libc::IPPROTO_UDP as u8, 40_000, 443, 74)
        ),
        0
    );
    assert_eq!(
        verdict(
            &filter,
            &ipv4_packet(libc::IPPROTO_TCP as u8, 40_000, 443, 300)
        ),
        0
    );
}

#[test]
fn length_limit_is_inclusive() {
    let filter = build_bpf_filter(&on_ports(&[443])).unwrap();
    assert_eq!(verdict(&filter, &ipv4_packet(6, 1, 443, 256)), 256);
    assert_eq!(verdict(&filter, &ipv4_packet(6, 1, 443, 257)), 0);
}

#[test]
fn fragments_are_dropped() {
    let filter = build_bpf_filter(&on_ports(&[443])).unwrap();
    let mut packet = ipv4_packet(6, 1, 443, 74);
    packet[20] = 0x40; // do not fragment
    assert_eq!(verdict(&filter, &packet), 256);
    packet[20] = 0x20; // more fragments
    assert_eq!(verdict(&filter, &packet), 0);
    packet[20] = 0;
    packet[21] = 1; // offset
    assert_eq!(verdict(&filter, &packet), 0);
}

#[test]
fn options_of_the_ipv4_header_are_skipped() {
    let filter = build_bpf_filter(&on_ports(&[443])).unwrap();
    let mut packet = ipv4_packet(6, 443, 443, 90);
    packet[14] = 0x47; // two words of options
    assert_eq!(verdict(&filter, &packet), 0);
    packet[44..46].copy_from_slice(&443u16.to_be_bytes());
    assert_eq!(verdict(&filter, &packet), 256);
}

#[test]
fn other_ethernet_types_and_protocols_are_dropped() {
    let filter = build_bpf_filter(&on_ports(&[443])).unwrap();
    let mut arp = ipv4_packet(6, 1, 443, 74);
    arp[12..14].copy_from_slice(&0x0806u16.to_be_bytes());
    assert_eq!(verdict(&filter, &arp), 0);
    let mut icmp = ipv6_packet(1, 443);
    icmp[20] = 58;
    assert_eq!(verdict(&filter, &icmp), 0);
    assert_eq!(verdict(&filter, &ipv6_packet(443, 1)), 256);
    assert_eq!(verdict(&filter, &ipv6_packet(1, 2)), 0);
}

#[test]
fn truncated_packets_are_dropped() {
    let filter = build_bpf_filter(&on_ports(&[443])).unwrap();
    let packet = ipv4_packet(6, 1, 443, 74);
    for len in 0..38 {
        assert_eq!(run_program(&filter, &packet[..len]), Some(0));
    }
    assert_eq!(run_program(&filter, &packet[..38]), Some(256));
    // The source port alone is enough where it is an upstream's.
    assert_eq!(run_program(&filter, &ipv4_packet(6, 443, 1, 74)[..36]), Some(256));
}

#[test]
fn up_to_32_ports_are_told_apart() {
    let ports: Vec<u16> = (1000..1032).collect();
    let filter = build_bpf_filter(&on_ports(&ports)).unwrap();
    assert_eq!(filter.len(), 148);
    for port in &ports {
        assert_eq!(verdict(&filter, &ipv4_packet(6, *port, 1, 74)), 256);
        assert_eq!(verdict(&filter, &ipv4_packet(6, 1, *port, 74)), 256);
        assert_eq!(verdict(&filter, &ipv6_packet(*port, 1)), 256);
        assert_eq!(verdict(&filter, &ipv6_packet(1, *port)), 256);
    }
    assert_eq!(verdict(&filter, &ipv4_packet(6, 999, 1032, 74)), 0);
    assert_eq!(verdict(&filter, &ipv6_packet(999, 1032)), 0);
}

#[test]
fn with_more_ports_every_port_passes() {
    let ports: Vec<u16> = (1000..1033).collect();
    let filter = build_bpf_filter(&on_ports(&ports)).unwrap();
    assert_eq!(filter.len(), 14);
    assert_eq!(verdict(&filter, &ipv4_packet(6, 1, 2, 74)), 256);
    assert_eq!(verdict(&filter, &ipv6_packet(1, 2)), 256);
    assert_eq!(verdict(&filter, &ipv4_packet(17, 1, 2, 74)), 0);
    assert_eq!(verdict(&filter, &ipv4_packet(6, 1, 2, 257)), 0);
}

#[test]
fn without_upstreams_nothing_passes() {
    let filter = build_bpf_filter(&[]).unwrap();
    assert_eq!(filter.len(), 20);
    assert_eq!(verdict(&filter, &ipv4_packet(6, 0, 0, 74)), 0);
    assert_eq!(verdict(&filter, &ipv6_packet(0, 0)), 0);
}

#[test]
fn filter_depends_on_the_set_of_ports() {
    assert_eq!(upstream_ports(&on_ports(&[443, 80, 443, 8443])), vec![80, 443, 8443]);
    assert_eq!(
        build_bpf_filter(&on_ports(&[443, 80, 443])).unwrap(),
        build_bpf_filter(&[upstream("192.0.2.1:80"), upstream("192.0.2.2:443")]).unwrap()
    );
}

#[test]
fn filter_for_one_port_is_laid_out_as_documented() {
    let filter = build_bpf_filter(&on_ports(&[443])).unwrap();
    let listing: Vec<(u16, u8, u8, u32)> =
        filter.iter().map(|ins| (ins.code, ins.jt, ins.jf, ins.k)).collect();
    assert_eq!(
        listing,
        vec![
            (0x28, 0, 0, 12),
            (0x15, 0, 10, 0x0800),
            (0x30, 0, 0, 23),
            (0x15, 0, 19, 6),
            (0x28, 0, 0, 20),
            (0x45, 17, 0, 0x3fff),
            (0xb1, 0, 0, 14),
            (0x48, 0, 0, 14),
            (0x15, 11, 0, 443),
            (0x48, 0, 0, 16),
            (0x15, 9, 0, 443),
            (0x05, 0, 0, 11),
            (0x15, 0, 10, 0x86dd),
            (0x30, 0, 0, 20),
            (0x15, 0, 8, 6),
            (0x28, 0, 0, 54),
            (0x15, 3, 0, 443),
            (0x28, 0, 0, 56),
            (0x15, 1, 0, 443),
            (0x05, 0, 0, 3),
            (0x80, 0, 0, 0),
            (0x25, 1, 0, 256),
            (0x06, 0, 0, 256),
            (0x06, 0, 0, 0),
        ]
    );
}

#[test]
fn unknown_instruction_has_no_verdict() {
    let unknown = SockFilter { code: 0xffff, jt: 0, jf: 0, k: 0 };
    assert_eq!(run_program(&[unknown], &[]), None);
    assert_eq!(run_program(&[], &[]), Some(0));
}

fn complaint<T: std::fmt::Debug>(result: Result<T, SnifferError>) -> String {
    match result.unwrap_err() {
        SnifferError::Other(text) => text,
        other => panic!("{other:?}"),
    }
}

#[test]
fn jumps_land_on_labels() {
    let mut bpf = FilterBuilder::new();
    bpf.conditional(0x15, 7, Some("end"), None);
    bpf.jump("end");
    bpf.statement(0x06, 1);
    bpf.label("end");
    bpf.statement(0x06, 2);
    let filter = bpf.finish().unwrap();
    assert_eq!((filter[0].jt, filter[0].jf, filter[0].k), (2, 0, 7));
    assert_eq!((filter[1].code, filter[1].k), (0x05, 1));
    assert_eq!((filter[3].code, filter[3].k), (0x06, 2));
}

#[test]
fn missing_label_is_an_error() {
    let mut bpf = FilterBuilder::new();
    bpf.jump("nowhere");
    assert_eq!(complaint(bpf.finish()), "missing BPF label: nowhere");
}

#[test]
fn backward_jump_is_an_error() {
    let mut bpf = FilterBuilder::new();
    bpf.label("start");
    bpf.statement(0x06, 0);
    bpf.jump("start");
    assert_eq!(complaint(bpf.finish()), "BPF jump to start would go backwards");
}

#[test]
fn far_conditional_jump_is_an_error() {
    let mut bpf = FilterBuilder::new();
    bpf.conditional(0x15, 0, None, Some("far"));
    bpf.jump("far");
    for _ in 0..1233 {
        bpf.statement(0x06, 0);
    }
    bpf.label("far");
    assert_eq!(bpf.jump_offset(1, "far").unwrap(), 1233);
    assert_eq!(bpf.conditional_offset(979, "far").unwrap(), 255);
    assert_eq!(
        complaint(bpf.conditional_offset(978, "far")),
        "BPF jump to far is too large: 256"
    );
    assert_eq!(complaint(bpf.finish()), "BPF jump to far is too large: 1234");
}

#[test]
fn first_conditional_fault_is_reported_before_any_jump() {
    let mut bpf = FilterBuilder::new();
    bpf.jump("a");
    bpf.conditional(0x15, 0, Some("b"), Some("c"));
    assert_eq!(complaint(bpf.finish()), "missing BPF label: b");
}

#[test]
fn label_that_is_set_again_moves() {
    let mut bpf = FilterBuilder::new();
    bpf.jump("here");
    bpf.label("here");
    bpf.statement(0x06, 0);
    bpf.label("here");
    bpf.statement(0x06, 1);
    assert_eq!(bpf.finish().unwrap()[0].k, 1);
}

#[test]
fn jumps_stay_inside_the_filter() {
    for count in [0, 1, 32, 33] {
        let ports: Vec<u16> = (1..=count).collect();
        let filter = build_bpf_filter(&on_ports(&ports)).unwrap();
        for (i, ins) in filter.iter().enumerate() {
            match ins.code {
                0x05 => assert!(i + 1 + (ins.k as usize) < filter.len()),
                0x15 | 0x25 | 0x45 => {
                    assert!(i + 1 + usize::from(ins.jt) < filter.len());
                    assert!(i + 1 + usize::from(ins.jf) < filter.len());
                }
                _ => {}
            }
        }
        assert_eq!(filter[filter.len() - 1].code, 0x06);
    }
}
