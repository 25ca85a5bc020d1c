//! The filter that keeps the small TCP packets to and from the upstreams.

use std::collections::BTreeSet;

use vstd::prelude::*;

use crate::bpf::{
    byte_at, half_at, run, run_filter, run_from, BpfState, SockFilter, JUMP, JUMP_EQ, JUMP_GT,
    JUMP_SET, LDX_HEADER_LEN, LD_BYTE, LD_HALF, LD_HALF_IND, LD_LEN, RETURN,
};
use crate::error::SnifferError;
use crate::filter_builder::{
    conditional_fault, conditional_faults, first_fault, jump_fault, jump_faults, lemma_none, resolve,
    resolve_line, FilterBuilder, Labels, Line, Target,
};
use crate::net::SocketAddr;
use crate::platform::{
    eth_p_ip, eth_p_ipv6, ipproto_tcp, ETHERTYPE_IPV4, ETHERTYPE_IPV6, PROTOCOL_TCP,
};

verus! {

/// The longest packet that is kept, and how much of a packet is captured.
pub const CAPTURE_SNAPLEN: u32 = 256;

/// How many ports a filter tells apart. With more, it lets every port pass.
pub const MAX_FILTER_PORTS: usize = 32;

/// The ports of the upstreams.
pub open spec fn port_set(upstreams: Seq<SocketAddr>) -> Set<u16> {
    upstreams.map_values(|upstream: SocketAddr| upstream.port).to_set()
}

/// Whether a list is in ascending order, without repetition.
pub open spec fn ascending(ports: Seq<u16>) -> bool {
    forall|i: int, j: int| 0 <= i < j < ports.len() ==> ports[i] < ports[j]
}

/// Whether a list holds the ports of the upstreams, each once, in ascending
/// order.
pub open spec fn lists_ports(ports: Seq<u16>, upstreams: Seq<SocketAddr>) -> bool {
    &&& ascending(ports)
    &&& ports.to_set() == port_set(upstreams)
}

/// Whether an upstream has a port.
pub open spec fn one_has_port(upstreams: Seq<SocketAddr>, port: u16) -> bool {
    exists|i: int| 0 <= i < upstreams.len() && (#[trigger] upstreams[i]).port == port
}

/// The ports of the upstreams, each once, in ascending order.
pub fn upstream_ports(upstreams: &[SocketAddr]) -> (ports: Vec<u16>)
    ensures
        lists_ports(ports@, upstreams@),
        ports@.len() == port_set(upstreams@).len(),
        forall|i: int|
            0 <= i < upstreams@.len() ==> ports@.contains((#[trigger] upstreams@[i]).port),
        forall|j: int| 0 <= j < ports@.len() ==> one_has_port(upstreams@, #[trigger] ports@[j]),
        forall|j: int, l: int| 0 <= j < l < ports@.len() ==> ports@[j] < ports@[l],
{
    broadcast use vstd::std_specs::btree::group_btree_axioms;
    let mut set: BTreeSet<u16> = BTreeSet::new();
    for i in 0..upstreams.len()
        invariant
            set@ == port_set(upstreams@.take(i as int)),
    {
        set.insert(upstreams[i].port);
        proof {
            let shorter = upstreams@.take(i as int);
            let longer = upstreams@.take(i + 1);
            assert(longer == shorter.push(upstreams@[i as int]));
            assert(longer.map_values(|upstream: SocketAddr| upstream.port) == shorter.map_values(
                |upstream: SocketAddr| upstream.port,
            ).push(upstreams@[i as int].port));
            shorter.map_values(
                |upstream: SocketAddr| upstream.port,
            ).lemma_push_to_set_commute(upstreams@[i as int].port);
        }
    }
    assert(upstreams@.take(upstreams@.len() as int) == upstreams@);
    let mut ports: Vec<u16> = Vec::new();
    for port in it: set.iter()
        invariant
            ports@ == it.seq().unref().take(it.index()),
    {
        ports.push(*port);
    }
    proof {
        let walked = vstd::std_specs::iter::IteratorSpec::remaining(
            &vstd::std_specs::btree::spec_btree_keys_iter(&set),
        );
        lemma_walk_ascends(walked);
        assert(walked.unref().take(walked.len() as int) == walked.unref());
        lemma_listed_ports(ports@, upstreams@);
    }
    ports
}

/// A list of the ports of the upstreams holds the port of each, and no other.
proof fn lemma_listed_ports(ports: Seq<u16>, upstreams: Seq<SocketAddr>)
    requires
        lists_ports(ports, upstreams),
    ensures
        forall|i: int| 0 <= i < upstreams.len() ==> ports.contains((#[trigger] upstreams[i]).port),
        forall|j: int| 0 <= j < ports.len() ==> one_has_port(upstreams, #[trigger] ports[j]),
{
    let mapped = upstreams.map_values(|upstream: SocketAddr| upstream.port);
    assert forall|i: int| 0 <= i < upstreams.len() implies ports.contains(
        (#[trigger] upstreams[i]).port,
    ) by {
        assert(mapped[i] == upstreams[i].port);
        assert(mapped.to_set().contains(mapped[i]));
        assert(ports.to_set().contains(mapped[i]));
    }
    assert forall|j: int| 0 <= j < ports.len() implies one_has_port(
        upstreams,
        #[trigger] ports[j],
    ) by {
        assert(ports.to_set().contains(ports[j]));
        assert(mapped.contains(ports[j]));
        let i = choose|i: int| 0 <= i < mapped.len() && mapped[i] == ports[j];
        assert(upstreams[i].port == ports[j]);
    }
}

/// An increasing walk over borrowed ports lists them in ascending order.
proof fn lemma_walk_ascends(walked: Seq<&u16>)
    requires
        vstd::std_specs::btree::increasing_seq(walked),
    ensures
        ascending(walked.unref()),
{
    broadcast use vstd::std_specs::btree::group_btree_axioms;
    reveal(vstd::laws_eq::obeys_eq_spec_properties);
    reveal(vstd::laws_cmp::obeys_partial_cmp_spec_properties);
    reveal(vstd::laws_cmp::obeys_cmp_partial_ord);
    reveal(vstd::laws_cmp::obeys_cmp_ord);
    assert(vstd::laws_cmp::obeys_cmp::<&u16>());
    let ports = walked.unref();
    assert forall|i: int, j: int| 0 <= i < j < ports.len() implies ports[i] < ports[j] by {
        assert(vstd::std_specs::cmp::OrdSpec::cmp_spec(&walked[i], &walked[j]) is Less);
    }
}

/// Whether the word at an offset is the port of an upstream.
pub open spec fn has_port(upstreams: Seq<SocketAddr>, packet: Seq<u8>, offset: int) -> bool {
    half_at(packet, offset) matches Some(port) && port_set(upstreams).contains(port as u16)
}

/// Whether a packet whose TCP header stands at an offset goes to or comes from
/// the port of an upstream. With more ports than a filter tells apart, any port
/// will do.
pub open spec fn concerns(upstreams: Seq<SocketAddr>, packet: Seq<u8>, tcp: int) -> bool {
    ||| port_set(upstreams).len() > MAX_FILTER_PORTS
    ||| has_port(upstreams, packet, tcp)
    ||| has_port(upstreams, packet, tcp + 2)
}

/// Whether an Ethernet frame carries a TCP packet over IPv4, whole and not a
/// fragment, that concerns an upstream.
pub open spec fn is_ipv4_tcp(upstreams: Seq<SocketAddr>, packet: Seq<u8>) -> bool {
    &&& half_at(packet, 12) == Some(ETHERTYPE_IPV4)
    &&& byte_at(packet, 23) == Some(PROTOCOL_TCP)
    &&& half_at(packet, 20) matches Some(fragment) && fragment & 0x3fff == 0
    &&& concerns(upstreams, packet, 14 + 4 * (packet[14] % 16))
}

/// Whether an Ethernet frame carries a TCP packet over IPv6 that concerns an
/// upstream.
pub open spec fn is_ipv6_tcp(upstreams: Seq<SocketAddr>, packet: Seq<u8>) -> bool {
    &&& half_at(packet, 12) == Some(ETHERTYPE_IPV6)
    &&& byte_at(packet, 20) == Some(PROTOCOL_TCP)
    &&& concerns(upstreams, packet, 54)
}

/// Which packets are kept.
pub open spec fn is_kept(upstreams: Seq<SocketAddr>, packet: Seq<u8>) -> bool {
    &&& packet.len() <= CAPTURE_SNAPLEN
    &&& is_ipv4_tcp(upstreams, packet) || is_ipv6_tcp(upstreams, packet)
}

/// The verdict that is owed to a packet.
pub open spec fn verdict(upstreams: Seq<SocketAddr>, packet: Seq<u8>) -> u32 {
    if is_kept(upstreams, packet) {
        CAPTURE_SNAPLEN
    } else {
        0
    }
}

/// An instruction that does not jump.
pub open spec fn plain(code: u16, k: u32) -> SockFilter {
    SockFilter { code, jt: 0, jf: 0, k }
}

/// A conditional jump that stands at `at` and goes to one of two places.
pub open spec fn fork(at: int, code: u16, k: u32, on_true: int, on_false: int) -> SockFilter {
    SockFilter { code, jt: (on_true - at - 1) as u8, jf: (on_false - at - 1) as u8, k }
}

/// A jump that stands at `at` and goes to `to`.
pub open spec fn jump_to(at: int, to: int) -> SockFilter {
    plain(JUMP, (to - at - 1) as u32)
}

/// The instruction at a place of the filter for a list of ports.
///
/// From the top: the Ethernet type; for IPv4 the protocol, the fragment bits and
/// the two ports behind the header, each held against the list; for IPv6 the
/// next header and the two ports; then the packet's length and the verdicts.
pub open spec fn port_filter_at(ports: Seq<u16>, i: int) -> SockFilter {
    let n = ports.len() as int;
    let ipv6_type = 10 + 2 * n;
    let inspect_len = 16 + 4 * n;
    let drop = inspect_len + 3;
    if i == 0 {
        plain(LD_HALF, 12)
    } else if i == 1 {
        fork(i, JUMP_EQ, ETHERTYPE_IPV4, 2, ipv6_type)
    } else if i == 2 {
        plain(LD_BYTE, 23)
    } else if i == 3 {
        fork(i, JUMP_EQ, PROTOCOL_TCP, i + 1, drop)
    } else if i == 4 {
        plain(LD_HALF, 20)
    } else if i == 5 {
        fork(i, JUMP_SET, 0x3fff, drop, i + 1)
    } else if i == 6 {
        plain(LDX_HEADER_LEN, 14)
    } else if i == 7 {
        plain(LD_HALF_IND, 14)
    } else if i < 8 + n {
        fork(i, JUMP_EQ, ports[i - 8] as u32, inspect_len, i + 1)
    } else if i == 8 + n {
        plain(LD_HALF_IND, 16)
    } else if i < 9 + 2 * n {
        fork(i, JUMP_EQ, ports[i - 9 - n] as u32, inspect_len, i + 1)
    } else if i == 9 + 2 * n {
        jump_to(i, drop)
    } else if i == ipv6_type {
        fork(i, JUMP_EQ, ETHERTYPE_IPV6, i + 1, drop)
    } else if i == 11 + 2 * n {
        plain(LD_BYTE, 20)
    } else if i == 12 + 2 * n {
        fork(i, JUMP_EQ, PROTOCOL_TCP, i + 1, drop)
    } else if i == 13 + 2 * n {
        plain(LD_HALF, 54)
    } else if i < 14 + 3 * n {
        fork(i, JUMP_EQ, ports[i - 14 - 2 * n] as u32, inspect_len, i + 1)
    } else if i == 14 + 3 * n {
        plain(LD_HALF, 56)
    } else if i < 15 + 4 * n {
        fork(i, JUMP_EQ, ports[i - 15 - 3 * n] as u32, inspect_len, i + 1)
    } else if i == 15 + 4 * n {
        jump_to(i, drop)
    } else if i == inspect_len {
        plain(LD_LEN, 0)
    } else if i == inspect_len + 1 {
        fork(i, JUMP_GT, CAPTURE_SNAPLEN, drop, i + 1)
    } else if i == inspect_len + 2 {
        plain(RETURN, CAPTURE_SNAPLEN)
    } else {
        plain(RETURN, 0)
    }
}

/// The filter that lets every port pass.
pub open spec fn open_filter() -> Seq<SockFilter> {
    seq![
        plain(LD_HALF, 12),
        fork(1, JUMP_EQ, ETHERTYPE_IPV4, 2, 7),
        plain(LD_BYTE, 23),
        fork(3, JUMP_EQ, PROTOCOL_TCP, 4, 13),
        plain(LD_HALF, 20),
        fork(5, JUMP_SET, 0x3fff, 13, 6),
        jump_to(6, 10),
        fork(7, JUMP_EQ, ETHERTYPE_IPV6, 8, 13),
        plain(LD_BYTE, 20),
        fork(9, JUMP_EQ, PROTOCOL_TCP, 10, 13),
        plain(LD_LEN, 0),
        fork(11, JUMP_GT, CAPTURE_SNAPLEN, 13, 12),
        plain(RETURN, CAPTURE_SNAPLEN),
        plain(RETURN, 0),
    ]
}

/// The filter for a list of ports.
pub open spec fn filter_listing(ports: Seq<u16>) -> Seq<SockFilter> {
    if ports.len() <= MAX_FILTER_PORTS {
        Seq::new(20 + 4 * ports.len(), |i: int| port_filter_at(ports, i))
    } else {
        open_filter()
    }
}

/// Whether a program is the filter for the upstreams: the one for the list of
/// their ports.
pub open spec fn is_filter_for(filter: Seq<SockFilter>, upstreams: Seq<SocketAddr>) -> bool {
    exists|ports: Seq<u16>| #[trigger]
        lists_ports(ports, upstreams) && filter == filter_listing(ports)
}

/// The lines that hold the accumulator against each port.
spec fn port_lines(ports: Seq<u16>) -> Seq<Line> {
    Seq::new(
        ports.len(),
        |i: int|
            Line {
                code: JUMP_EQ,
                k: ports[i] as u32,
                target: Target::Conditional(Some("inspect_len"@), None),
            },
    )
}

/// A line that does not jump.
spec fn line(code: u16, k: u32) -> Line {
    Line { code, k, target: Target::Nowhere }
}

/// A line that jumps to one of two labels.
spec fn fork_line(
    code: u16,
    k: u32,
    on_true: Option<Seq<char>>,
    on_false: Option<Seq<char>>,
) -> Line {
    Line { code, k, target: Target::Conditional(on_true, on_false) }
}

/// A line that jumps to a label.
spec fn jump_line(label: Seq<char>) -> Line {
    Line { code: JUMP, k: 0, target: Target::Jump(label) }
}

/// The lines up to the fragment test.
spec fn head_lines() -> Seq<Line> {
    seq![
        line(LD_HALF, 12),
        fork_line(JUMP_EQ, ETHERTYPE_IPV4, Some("ipv4"@), Some("ipv6_type"@)),
        line(LD_BYTE, 23),
        fork_line(JUMP_EQ, PROTOCOL_TCP, None, Some("drop"@)),
        line(LD_HALF, 20),
        fork_line(JUMP_SET, 0x3fff, Some("drop"@), None),
    ]
}

/// The lines from the length test on.
spec fn tail_lines() -> Seq<Line> {
    seq![
        line(LD_LEN, 0),
        fork_line(JUMP_GT, CAPTURE_SNAPLEN, Some("drop"@), Some("accept"@)),
        line(RETURN, CAPTURE_SNAPLEN),
        line(RETURN, 0),
    ]
}

/// The lines that load the first port over IPv4.
spec fn ipv4_port_lines() -> Seq<Line> {
    seq![line(LDX_HEADER_LEN, 14), line(LD_HALF_IND, 14)]
}

/// The lines from the end of the IPv4 part to the first port over IPv6.
spec fn ipv6_lines() -> Seq<Line> {
    seq![
        jump_line("drop"@),
        fork_line(JUMP_EQ, ETHERTYPE_IPV6, Some("ipv6"@), Some("drop"@)),
        line(LD_BYTE, 20),
        fork_line(JUMP_EQ, PROTOCOL_TCP, None, Some("drop"@)),
        line(LD_HALF, 54),
    ]
}

/// The lines of the filter for a list of ports.
spec fn port_filter_lines(ports: Seq<u16>) -> Seq<Line> {
    head_lines() + ipv4_port_lines() + port_lines(ports) + seq![line(LD_HALF_IND, 16)]
        + port_lines(ports) + ipv6_lines() + port_lines(ports) + seq![line(LD_HALF, 56)]
        + port_lines(ports) + seq![jump_line("drop"@)] + tail_lines()
}

/// The lines between head and tail where every port passes.
spec fn open_lines() -> Seq<Line> {
    seq![
        jump_line("inspect_len"@),
        fork_line(JUMP_EQ, ETHERTYPE_IPV6, Some("ipv6"@), Some("drop"@)),
        line(LD_BYTE, 20),
        fork_line(JUMP_EQ, PROTOCOL_TCP, Some("inspect_len"@), Some("drop"@)),
    ]
}

/// The lines of the filter that lets every port pass.
spec fn open_filter_lines() -> Seq<Line> {
    head_lines() + open_lines() + tail_lines()
}

/// Where the labels stand.
spec fn places_labels(labels: Labels, ipv6_type: nat, inspect_len: nat) -> bool {
    &&& labels.contains_key("ipv4"@) && labels["ipv4"@] == 2
    &&& labels.contains_key("ipv6_type"@) && labels["ipv6_type"@] == ipv6_type
    &&& labels.contains_key("ipv6"@) && labels["ipv6"@] == ipv6_type + 1
    &&& labels.contains_key("inspect_len"@) && labels["inspect_len"@] == inspect_len
    &&& labels.contains_key("accept"@) && labels["accept"@] == inspect_len + 2
    &&& labels.contains_key("drop"@) && labels["drop"@] == inspect_len + 3
}

/// The line at a place of the filter for a list of ports.
spec fn port_line_at(ports: Seq<u16>, i: int) -> Line {
    let n = ports.len() as int;
    if i < 6 {
        head_lines()[i]
    } else if i < 8 {
        ipv4_port_lines()[i - 6]
    } else if i < 8 + n {
        port_lines(ports)[i - 8]
    } else if i == 8 + n {
        line(LD_HALF_IND, 16)
    } else if i < 9 + 2 * n {
        port_lines(ports)[i - 9 - n]
    } else if i < 14 + 2 * n {
        ipv6_lines()[i - 9 - 2 * n]
    } else if i < 14 + 3 * n {
        port_lines(ports)[i - 14 - 2 * n]
    } else if i == 14 + 3 * n {
        line(LD_HALF, 56)
    } else if i < 15 + 4 * n {
        port_lines(ports)[i - 15 - 3 * n]
    } else if i == 15 + 4 * n {
        jump_line("drop"@)
    } else {
        tail_lines()[i - 16 - 4 * n]
    }
}

proof fn lemma_port_filter_line(ports: Seq<u16>, i: int)
    requires
        0 <= i < 20 + 4 * ports.len(),
    ensures
        port_filter_lines(ports)[i] == port_line_at(ports, i),
{
}

proof fn lemma_port_line_resolves(labels: Labels, ports: Seq<u16>, i: int)
    requires
        ports.len() <= MAX_FILTER_PORTS,
        places_labels(labels, 10 + 2 * ports.len(), 16 + 4 * ports.len()),
        0 <= i < 20 + 4 * ports.len(),
    ensures
        line_resolves(labels, i, port_line_at(ports, i), port_filter_at(ports, i)),
{
}

/// The lines for a list of ports resolve to the filter for it.
proof fn lemma_port_filter_resolves(labels: Labels, ports: Seq<u16>)
    requires
        ports.len() <= MAX_FILTER_PORTS,
        places_labels(labels, 10 + 2 * ports.len(), 16 + 4 * ports.len()),
    ensures
        first_fault(labels, port_filter_lines(ports)) is None,
        resolve(labels, port_filter_lines(ports)) == filter_listing(ports),
{
    let lines = port_filter_lines(ports);
    let n = ports.len() as int;
    assert(lines.len() == 20 + 4 * n);
    assert forall|i: int| 0 <= i < lines.len() implies line_resolves(
        labels,
        i,
        #[trigger] lines[i],
        filter_listing(ports)[i],
    ) by {
        lemma_port_filter_line(ports, i);
        lemma_port_line_resolves(labels, ports, i);
    }
    lemma_lines_resolve(labels, lines, filter_listing(ports));
}

/// The lines for every port resolve to the filter that lets every port pass.
proof fn lemma_open_filter_resolves(labels: Labels)
    requires
        places_labels(labels, 7, 10),
    ensures
        first_fault(labels, open_filter_lines()) is None,
        resolve(labels, open_filter_lines()) == open_filter(),
{
    let lines = open_filter_lines();
    assert(lines.len() == 14);
    assert forall|i: int| 0 <= i < lines.len() implies line_resolves(
        labels,
        i,
        #[trigger] lines[i],
        open_filter()[i],
    ) by {
        if i < 6 {
            assert(lines[i] == head_lines()[i]);
        } else if i >= 10 {
            assert(lines[i] == tail_lines()[i - 10]);
        }
    }
    lemma_lines_resolve(labels, lines, open_filter());
}

/// Whether a line can be resolved, and what it resolves to.
spec fn line_resolves(labels: Labels, i: int, line: Line, ins: SockFilter) -> bool {
    &&& conditional_fault(labels, i, line) is None
    &&& jump_fault(labels, i, line) is None
    &&& resolve_line(labels, i, line) == ins
}

/// A program resolves line by line.
proof fn lemma_lines_resolve(labels: Labels, lines: Seq<Line>, filter: Seq<SockFilter>)
    requires
        lines.len() == filter.len(),
        forall|i: int|
            0 <= i < lines.len() ==> line_resolves(labels, i, #[trigger] lines[i], filter[i]),
    ensures
        first_fault(labels, lines) is None,
        resolve(labels, lines) == filter,
{
    assert forall|i: int| 0 <= i < lines.len() implies (#[trigger] conditional_faults(
        labels,
        lines,
    )[i]) is None by {
        assert(line_resolves(labels, i, lines[i], filter[i]));
    }
    assert forall|i: int| 0 <= i < lines.len() implies (#[trigger] jump_faults(
        labels,
        lines,
    )[i]) is None by {
        assert(line_resolves(labels, i, lines[i], filter[i]));
    }
    lemma_none(conditional_faults(labels, lines));
    lemma_none(jump_faults(labels, lines));
    assert forall|i: int| 0 <= i < lines.len() implies resolve(labels, lines)[i] == filter[i] by {
        assert(line_resolves(labels, i, lines[i], filter[i]));
    }
    assert(resolve(labels, lines) =~= filter);
}

/// Adds a test of the accumulator against each port.
fn match_ports(bpf: &mut FilterBuilder, ports: &Vec<u16>)
    requires
        old(bpf).wf(),
    ensures
        final(bpf).wf(),
        final(bpf).lines() == old(bpf).lines() + port_lines(ports@),
        final(bpf).labels() == old(bpf).labels(),
{
    for i in 0..ports.len()
        invariant
            bpf.wf(),
            bpf.lines() =~= old(bpf).lines() + port_lines(ports@).take(i as int),
            bpf.labels() == old(bpf).labels(),
    {
        bpf.conditional(JUMP_EQ, ports[i] as u32, Some("inspect_len"), None);
    }
    assert(port_lines(ports@).take(ports@.len() as int) == port_lines(ports@));
}

/// The filter for the upstreams.
#[verifier::rlimit(30)]
pub fn build_bpf_filter(upstreams: &[SocketAddr]) -> (filter: Result<Vec<SockFilter>, SnifferError>)
    ensures
        filter is Ok,
        filter->Ok_0@.len() <= 20 + 4 * MAX_FILTER_PORTS,
        forall|packet: Seq<u8>|
            packet.len() <= u32::MAX ==> #[trigger] run(filter->Ok_0@, packet) == Some(
                verdict(upstreams@, packet),
            ),
        is_filter_for(filter->Ok_0@, upstreams@),
        forall|packet: Seq<u8>, tcp: int, i: int|
            packet.len() <= 256 && #[trigger] carries_tcp(packet, tcp) && 0 <= i < upstreams@.len()
                && has_end(packet, tcp, #[trigger] upstreams@[i].port) ==> run(
                filter->Ok_0@,
                packet,
            ) == Some(256u32),
{
    let ports = upstream_ports(upstreams);
    let filter_ports = ports.len() <= MAX_FILTER_PORTS;
    let mut bpf = FilterBuilder::new();

    bpf.statement(LD_HALF, 12);
    bpf.conditional(JUMP_EQ, eth_p_ip(), Some("ipv4"), Some("ipv6_type"));

    bpf.label("ipv4");
    bpf.statement(LD_BYTE, 23);
    bpf.conditional(JUMP_EQ, ipproto_tcp(), None, Some("drop"));
    bpf.statement(LD_HALF, 20);
    bpf.conditional(JUMP_SET, 0x3fff, Some("drop"), None);
    assert(bpf.lines() =~= head_lines());
    if filter_ports {
        bpf.statement(LDX_HEADER_LEN, 14);
        bpf.statement(LD_HALF_IND, 14);
        assert(bpf.lines() =~= head_lines() + ipv4_port_lines());
        match_ports(&mut bpf, &ports);
        let ghost lines = bpf.lines();
        bpf.statement(LD_HALF_IND, 16);
        assert(bpf.lines() =~= lines + seq![line(LD_HALF_IND, 16)]);
        match_ports(&mut bpf, &ports);
    }
    let ghost lines = bpf.lines();
    if filter_ports {
        bpf.jump("drop");
    } else {
        bpf.jump("inspect_len");
    }

    bpf.label("ipv6_type");
    bpf.conditional(JUMP_EQ, eth_p_ipv6(), Some("ipv6"), Some("drop"));
    bpf.label("ipv6");
    bpf.statement(LD_BYTE, 20);
    bpf.conditional(
        JUMP_EQ,
        ipproto_tcp(),
        if filter_ports {
            None
        } else {
            Some("inspect_len")
        },
        Some("drop"),
    );
    if filter_ports {
        bpf.statement(LD_HALF, 54);
        assert(bpf.lines() =~= lines + ipv6_lines());
        match_ports(&mut bpf, &ports);
        let ghost lines = bpf.lines();
        bpf.statement(LD_HALF, 56);
        assert(bpf.lines() =~= lines + seq![line(LD_HALF, 56)]);
        match_ports(&mut bpf, &ports);
        let ghost lines = bpf.lines();
        bpf.jump("drop");
        assert(bpf.lines() =~= lines + seq![jump_line("drop"@)]);
    } else {
        assert(bpf.lines() =~= head_lines() + open_lines());
    }
    let ghost lines = bpf.lines();

    bpf.label("inspect_len");
    bpf.statement(LD_LEN, 0);
    bpf.conditional(JUMP_GT, CAPTURE_SNAPLEN, Some("drop"), Some("accept"));
    bpf.label("accept");
    bpf.statement(RETURN, CAPTURE_SNAPLEN);
    bpf.label("drop");
    bpf.statement(RETURN, 0);
    assert(bpf.lines() =~= lines + tail_lines());

    proof {
        lemma_labels_differ();
        if filter_ports {
            lemma_port_filter_resolves(bpf.labels(), ports@);
        } else {
            lemma_open_filter_resolves(bpf.labels());
        }
        lemma_listing_is_filter(upstreams@, ports@);
        assert forall|packet: Seq<u8>, tcp: int, i: int|
            packet.len() <= 256 && #[trigger] carries_tcp(packet, tcp) && 0 <= i < upstreams@.len()
                && has_end(packet, tcp, #[trigger] upstreams@[i].port) implies run(
            filter_listing(ports@),
            packet,
        ) == Some(256u32) by {
            law_upstream_packets_are_kept(upstreams@, filter_listing(ports@), packet, tcp, i);
        }
    }

    bpf.finish()
}

/// The labels of the filter are six different names.
proof fn lemma_labels_differ()
    ensures
        "ipv4"@ != "ipv6_type"@,
        "ipv4"@ != "ipv6"@,
        "ipv4"@ != "inspect_len"@,
        "ipv4"@ != "accept"@,
        "ipv4"@ != "drop"@,
        "ipv6_type"@ != "ipv6"@,
        "ipv6_type"@ != "inspect_len"@,
        "ipv6_type"@ != "accept"@,
        "ipv6_type"@ != "drop"@,
        "ipv6"@ != "inspect_len"@,
        "ipv6"@ != "accept"@,
        "ipv6"@ != "drop"@,
        "inspect_len"@ != "accept"@,
        "inspect_len"@ != "drop"@,
        "accept"@ != "drop"@,
{
    reveal_strlit("ipv4");
    reveal_strlit("ipv6_type");
    reveal_strlit("ipv6");
    reveal_strlit("inspect_len");
    reveal_strlit("accept");
    reveal_strlit("drop");
    assert("ipv6_type"@.len() == 9);
    assert("inspect_len"@.len() == 11);
    assert("accept"@.len() == 6);
    assert("ipv4"@[3] != "ipv6"@[3]);
    assert("ipv4"@[0] != "drop"@[0]);
    assert("ipv6"@[0] != "drop"@[0]);
}

/// Two ascending lists of the same ports are the same list.
pub proof fn law_listing_is_unique(a: Seq<u16>, b: Seq<u16>)
    requires
        ascending(a),
        ascending(b),
        a.to_set() == b.to_set(),
    ensures
        a == b,
    decreases a.len(),
{
    if a.len() == 0 {
        if b.len() > 0 {
            assert(b.to_set().contains(b[0]));
            assert(a.contains(b[0]));
        }
    } else {
        assert(a.to_set().contains(a.last()));
        assert(b.contains(a.last()));
        assert(b.to_set().contains(b.last()));
        assert(a.contains(b.last()));
        assert(a.last() == b.last());
        let a1 = a.drop_last();
        let b1 = b.drop_last();
        assert forall|p: u16| a1.contains(p) == b1.contains(p) by {
            assert(a.to_set().contains(p) == b.to_set().contains(p));
            if a1.contains(p) {
                let i = choose|i: int| 0 <= i < a1.len() && a1[i] == p;
                assert(a[i] == p);
                assert(a.to_set().contains(p));
                assert(b.contains(p));
                let j = choose|j: int| 0 <= j < b.len() && b[j] == p;
                assert(j < b.len() - 1);
                assert(b1[j] == p);
            }
            if b1.contains(p) {
                let i = choose|i: int| 0 <= i < b1.len() && b1[i] == p;
                assert(b[i] == p);
                assert(b.to_set().contains(p));
                assert(a.contains(p));
                let j = choose|j: int| 0 <= j < a.len() && a[j] == p;
                assert(j < a.len() - 1);
                assert(a1[j] == p);
            }
        }
        assert(a1.to_set() =~= b1.to_set());
        law_listing_is_unique(a1, b1);
        assert(a =~= a1.push(a.last()));
        assert(b =~= b1.push(b.last()));
    }
}

/// A row of port tests goes to the target where the accumulator is one of the
/// ports, and otherwise runs through.
proof fn lemma_port_tests(
    filter: Seq<SockFilter>,
    packet: Seq<u8>,
    ports: Seq<u16>,
    s: BpfState,
    base: int,
    target: int,
    from: int,
)
    requires
        0 <= base,
        0 <= from <= ports.len(),
        base + ports.len() <= target <= filter.len(),
        target - base <= 256,
        s.pc == base + from,
        forall|i: int|
            0 <= i < ports.len() ==> #[trigger] filter[base + i] == fork(
                base + i,
                JUMP_EQ,
                ports[i] as u32,
                target,
                base + i + 1,
            ),
    ensures
        run_from(filter, packet, s) == run_from(
            filter,
            packet,
            BpfState {
                pc: if exists|i: int|
                    from <= i < ports.len() && (#[trigger] ports[i]) as u32 == s.accumulator {
                    target
                } else {
                    base + ports.len()
                },
                accumulator: s.accumulator,
                index_register: s.index_register,
            },
        ),
    decreases ports.len() - from,
{
    if from < ports.len() {
        assert(filter[base + from] == fork(
            base + from,
            JUMP_EQ,
            ports[from] as u32,
            target,
            base + from + 1,
        ));
        if ports[from] as u32 == s.accumulator {
        } else {
            let next = BpfState {
                pc: base + from + 1,
                accumulator: s.accumulator,
                index_register: s.index_register,
            };
            assert(run_from(filter, packet, s) == run_from(filter, packet, next));
            lemma_port_tests(filter, packet, ports, next, base, target, from + 1);
        }
    }
}

/// The length test keeps a packet of up to `CAPTURE_SNAPLEN` bytes.
proof fn lemma_length_test(filter: Seq<SockFilter>, packet: Seq<u8>, s: BpfState)
    requires
        0 <= s.pc,
        s.pc + 4 <= filter.len(),
        packet.len() <= u32::MAX,
        filter[s.pc] == plain(LD_LEN, 0),
        filter[s.pc + 1] == fork(s.pc + 1, JUMP_GT, CAPTURE_SNAPLEN, s.pc + 3, s.pc + 2),
        filter[s.pc + 2] == plain(RETURN, CAPTURE_SNAPLEN),
        filter[s.pc + 3] == plain(RETURN, 0),
    ensures
        run_from(filter, packet, s) == Some(
            if packet.len() <= CAPTURE_SNAPLEN {
                CAPTURE_SNAPLEN
            } else {
                0
            },
        ),
{
    reveal_with_fuel(run_from, 4);
}

/// The head of either filter: after the Ethernet type, the protocol and the
/// fragment bits, IPv4 goes on at its ports, other types go to the IPv6 part,
/// and the rest is dropped.
proof fn lemma_head(filter: Seq<SockFilter>, packet: Seq<u8>, ipv6_type: int, drop: int)
    requires
        6 <= ipv6_type < drop < filter.len(),
        drop <= 256,
        filter[0] == plain(LD_HALF, 12),
        filter[1] == fork(1, JUMP_EQ, ETHERTYPE_IPV4, 2, ipv6_type),
        filter[2] == plain(LD_BYTE, 23),
        filter[3] == fork(3, JUMP_EQ, PROTOCOL_TCP, 4, drop),
        filter[4] == plain(LD_HALF, 20),
        filter[5] == fork(5, JUMP_SET, 0x3fff, drop, 6),
        filter[drop] == plain(RETURN, 0),
    ensures
        match half_at(packet, 12) {
            None => run(filter, packet) == Some(0u32),
            Some(ethertype) => if ethertype != ETHERTYPE_IPV4 {
                run(filter, packet) == run_from(
                    filter,
                    packet,
                    BpfState { pc: ipv6_type, accumulator: ethertype, index_register: 0 },
                )
            } else if byte_at(packet, 23) != Some(PROTOCOL_TCP) {
                run(filter, packet) == Some(0u32)
            } else {
                match half_at(packet, 20) {
                    None => run(filter, packet) == Some(0u32),
                    Some(fragment) => if fragment & 0x3fff != 0 {
                        run(filter, packet) == Some(0u32)
                    } else {
                        run(filter, packet) == run_from(
                            filter,
                            packet,
                            BpfState { pc: 6, accumulator: fragment, index_register: 0 },
                        )
                    },
                }
            },
        },
{
    reveal_with_fuel(run_from, 7);
}

/// The filter that lets every port pass gives every packet the verdict owed.
proof fn lemma_open_filter_verdict(upstreams: Seq<SocketAddr>, packet: Seq<u8>)
    requires
        port_set(upstreams).len() > MAX_FILTER_PORTS,
        packet.len() <= u32::MAX,
    ensures
        run(open_filter(), packet) == Some(verdict(upstreams, packet)),
{
    let filter = open_filter();
    lemma_head(filter, packet, 7, 13);
    assert forall|s: BpfState| s.pc == 10 implies #[trigger] run_from(filter, packet, s) == Some(
        if packet.len() <= CAPTURE_SNAPLEN {
            CAPTURE_SNAPLEN
        } else {
            0
        },
    ) by {
        lemma_length_test(filter, packet, s);
    }
    reveal_with_fuel(run_from, 4);
}

/// The instruction loads the word at an offset.
spec fn loads_half(ins: SockFilter, s: BpfState, offset: int) -> bool {
    ||| ins.code == LD_HALF && ins.k == offset
    ||| ins.code == LD_HALF_IND && s.index_register + ins.k == offset
}

/// Two rows of port tests, one on each port of a TCP header: a packet that
/// concerns an upstream goes to the target, another is dropped.
proof fn lemma_port_rows(
    filter: Seq<SockFilter>,
    packet: Seq<u8>,
    upstreams: Seq<SocketAddr>,
    ports: Seq<u16>,
    s: BpfState,
    tcp: int,
    target: int,
    drop: int,
)
    requires
        lists_ports(ports, upstreams),
        0 <= s.pc,
        s.pc + 2 * ports.len() + 3 <= target < drop < filter.len() <= 256,
        loads_half(filter[s.pc], s, tcp),
        loads_half(filter[s.pc + 1 + ports.len()], s, tcp + 2),
        forall|i: int|
            0 <= i < ports.len() ==> #[trigger] filter[s.pc + 1 + i] == fork(
                s.pc + 1 + i,
                JUMP_EQ,
                ports[i] as u32,
                target,
                s.pc + 1 + i + 1,
            ),
        forall|i: int|
            0 <= i < ports.len() ==> #[trigger] filter[s.pc + 2 + ports.len() + i] == fork(
                s.pc + 2 + ports.len() + i,
                JUMP_EQ,
                ports[i] as u32,
                target,
                s.pc + 2 + ports.len() + i + 1,
            ),
        filter[s.pc + 2 + 2 * ports.len()] == jump_to(s.pc + 2 + 2 * ports.len(), drop),
        filter[drop] == plain(RETURN, 0),
    ensures
        if has_port(upstreams, packet, tcp) || has_port(upstreams, packet, tcp + 2) {
            exists|t: BpfState|
                t.pc == target && run_from(filter, packet, s) == #[trigger] run_from(
                    filter,
                    packet,
                    t,
                )
        } else {
            run_from(filter, packet, s) == Some(0u32)
        },
{
    let n = ports.len() as int;
    lemma_port_listed(upstreams, ports, packet, tcp);
    lemma_port_listed(upstreams, ports, packet, tcp + 2);
    if half_at(packet, tcp) is Some {
        let s1 = BpfState {
            pc: s.pc + 1,
            accumulator: half_at(packet, tcp)->0,
            index_register: s.index_register,
        };
        assert(run_from(filter, packet, s) == run_from(filter, packet, s1));
        lemma_port_tests(filter, packet, ports, s1, s.pc + 1, target, 0);
        if !has_port(upstreams, packet, tcp) {
            let s2 = BpfState { pc: s.pc + 1 + n, ..s1 };
            assert(run_from(filter, packet, s1) == run_from(filter, packet, s2));
            if half_at(packet, tcp + 2) is Some {
                let s3 = BpfState {
                    pc: s.pc + 2 + n,
                    accumulator: half_at(packet, tcp + 2)->0,
                    index_register: s.index_register,
                };
                assert(run_from(filter, packet, s2) == run_from(filter, packet, s3));
                lemma_port_tests(filter, packet, ports, s3, s.pc + 2 + n, target, 0);
                if !has_port(upstreams, packet, tcp + 2) {
                    let s4 = BpfState { pc: s.pc + 2 + 2 * n, ..s3 };
                    assert(run_from(filter, packet, s3) == run_from(filter, packet, s4));
                    let s5 = BpfState { pc: drop, ..s3 };
                    assert(run_from(filter, packet, s4) == run_from(filter, packet, s5));
                    assert(run_from(filter, packet, s5) == Some(0u32));
                }
            }
        }
    }
}

/// A port of an upstream is one that the list holds.
proof fn lemma_port_listed(
    upstreams: Seq<SocketAddr>,
    ports: Seq<u16>,
    packet: Seq<u8>,
    offset: int,
)
    requires
        lists_ports(ports, upstreams),
    ensures
        half_at(packet, offset) matches Some(port) ==> (has_port(upstreams, packet, offset)
            <==> exists|i: int| 0 <= i < ports.len() && (#[trigger] ports[i]) as u32 == port),
{
    if let Some(port) = half_at(packet, offset) {
        assert(port <= u16::MAX);
        assert(ports.to_set().contains(port as u16) == ports.contains(port as u16));
        if ports.contains(port as u16) {
            let i = choose|i: int| 0 <= i < ports.len() && ports[i] == port as u16;
            assert(ports[i] as u32 == port);
        }
    }
}

/// The filter for a list of ports gives every packet the verdict owed.
proof fn lemma_port_filter_verdict(upstreams: Seq<SocketAddr>, ports: Seq<u16>, packet: Seq<u8>)
    requires
        lists_ports(ports, upstreams),
        ports.len() == port_set(upstreams).len() <= MAX_FILTER_PORTS,
        packet.len() <= u32::MAX,
    ensures
        run(filter_listing(ports), packet) == Some(verdict(upstreams, packet)),
{
    let filter = filter_listing(ports);
    let n = ports.len() as int;
    let inspect_len = 16 + 4 * n;
    let drop = 19 + 4 * n;
    lemma_head(filter, packet, 10 + 2 * n, drop);
    assert forall|s: BpfState| s.pc == inspect_len implies #[trigger] run_from(filter, packet, s)
        == Some(
        if packet.len() <= CAPTURE_SNAPLEN {
            CAPTURE_SNAPLEN
        } else {
            0
        },
    ) by {
        lemma_length_test(filter, packet, s);
    }
    match half_at(packet, 12) {
        None => {},
        Some(ethertype) => {
            if ethertype == ETHERTYPE_IPV4 {
                if byte_at(packet, 23) == Some(PROTOCOL_TCP) && half_at(packet, 20) is Some {
                    let fragment = half_at(packet, 20)->0;
                    if fragment & 0x3fff == 0 {
                        let s = BpfState { pc: 6, accumulator: fragment, index_register: 0 };
                        let t = BpfState {
                            pc: 7,
                            accumulator: fragment,
                            index_register: (4 * (packet[14] as u32 % 16)) as u32,
                        };
                        assert(filter[6] == plain(LDX_HEADER_LEN, 14));
                        assert(run_from(filter, packet, s) == run_from(filter, packet, t));
                        lemma_port_rows(
                            filter,
                            packet,
                            upstreams,
                            ports,
                            t,
                            14 + 4 * (packet[14] % 16),
                            inspect_len,
                            drop,
                        );
                    }
                }
            } else {
                let s = BpfState { pc: 10 + 2 * n, accumulator: ethertype, index_register: 0 };
                assert(filter[10 + 2 * n] == fork(
                    10 + 2 * n,
                    JUMP_EQ,
                    ETHERTYPE_IPV6,
                    11 + 2 * n,
                    drop,
                ));
                assert(filter[drop] == plain(RETURN, 0));
                if ethertype == ETHERTYPE_IPV6 {
                    let s1 = BpfState { pc: 11 + 2 * n, ..s };
                    assert(run_from(filter, packet, s) == run_from(filter, packet, s1));
                    assert(filter[11 + 2 * n] == plain(LD_BYTE, 20));
                    if byte_at(packet, 20) is Some {
                        let s2 = BpfState {
                            pc: 12 + 2 * n,
                            accumulator: byte_at(packet, 20)->0,
                            index_register: 0,
                        };
                        assert(run_from(filter, packet, s1) == run_from(filter, packet, s2));
                        assert(filter[12 + 2 * n] == fork(
                            12 + 2 * n,
                            JUMP_EQ,
                            PROTOCOL_TCP,
                            13 + 2 * n,
                            drop,
                        ));
                        if byte_at(packet, 20) == Some(PROTOCOL_TCP) {
                            let s3 = BpfState { pc: 13 + 2 * n, ..s2 };
                            assert(run_from(filter, packet, s2) == run_from(filter, packet, s3));
                            lemma_port_rows(
                                filter,
                                packet,
                                upstreams,
                                ports,
                                s3,
                                54,
                                inspect_len,
                                drop,
                            );
                        } else {
                            let dropped = BpfState { pc: drop, ..s2 };
                            assert(run_from(filter, packet, dropped) == Some(0u32));
                        }
                    }
                } else {
                    let dropped = BpfState { pc: drop, ..s };
                    assert(run_from(filter, packet, dropped) == Some(0u32));
                }
            }
        },
    }
}

/// The filter for the upstreams keeps exactly the TCP packets of up to
/// `CAPTURE_SNAPLEN` bytes that are no fragments and go to or come from the
/// port of an upstream, and drops every other packet.
pub proof fn law_filter_verdict(upstreams: Seq<SocketAddr>, ports: Seq<u16>, packet: Seq<u8>)
    requires
        lists_ports(ports, upstreams),
        packet.len() <= u32::MAX,
    ensures
        run(filter_listing(ports), packet) == Some(verdict(upstreams, packet)),
{
    lemma_listing_length(upstreams, ports);
    if ports.len() <= MAX_FILTER_PORTS {
        lemma_port_filter_verdict(upstreams, ports, packet);
    } else {
        lemma_open_filter_verdict(upstreams, packet);
    }
}

/// The filter for a list of the ports is short, and gives the verdicts owed.
proof fn lemma_listing_is_filter(upstreams: Seq<SocketAddr>, ports: Seq<u16>)
    requires
        lists_ports(ports, upstreams),
    ensures
        is_filter_for(filter_listing(ports), upstreams),
        filter_listing(ports).len() <= 20 + 4 * MAX_FILTER_PORTS,
        forall|packet: Seq<u8>|
            packet.len() <= u32::MAX ==> #[trigger] run(filter_listing(ports), packet) == Some(
                verdict(upstreams, packet),
            ),
{
    assert forall|packet: Seq<u8>| packet.len() <= u32::MAX implies #[trigger] run(
        filter_listing(ports),
        packet,
    ) == Some(verdict(upstreams, packet)) by {
        law_filter_verdict(upstreams, ports, packet);
    }
}

/// An ascending list holds each port once.
proof fn lemma_listing_length(upstreams: Seq<SocketAddr>, ports: Seq<u16>)
    requires
        lists_ports(ports, upstreams),
    ensures
        ports.len() == port_set(upstreams).len(),
{
    assert(ports.no_duplicates());
    ports.unique_seq_to_set();
}

/// The filter depends on the set of ports alone: the order of the upstreams,
/// their addresses and how often a port occurs make no difference.
pub proof fn law_filter_depends_on_ports_alone(
    upstreams1: Seq<SocketAddr>,
    ports1: Seq<u16>,
    upstreams2: Seq<SocketAddr>,
    ports2: Seq<u16>,
)
    requires
        lists_ports(ports1, upstreams1),
        lists_ports(ports2, upstreams2),
        port_set(upstreams1) == port_set(upstreams2),
    ensures
        filter_listing(ports1) == filter_listing(ports2),
{
    law_listing_is_unique(ports1, ports2);
}

/// Every jump of a filter lands on one of its instructions, and the last
/// instruction is a verdict.
pub proof fn law_jumps_stay_inside(ports: Seq<u16>, i: int)
    requires
        0 <= i < filter_listing(ports).len(),
    ensures
        ({
            let filter = filter_listing(ports);
            let ins = filter[i];
            &&& filter.last().code == RETURN
            &&& ins.code == JUMP ==> i + 1 + ins.k < filter.len()
            &&& (ins.code == JUMP_EQ || ins.code == JUMP_GT || ins.code == JUMP_SET) ==> i + 1
                + ins.jt < filter.len() && i + 1 + ins.jf < filter.len()
        }),
{
}

/// The two bytes at an offset as a number, the high one first.
pub open spec fn word(packet: Seq<u8>, at: int) -> int {
    packet[at] * 256 + packet[at + 1]
}

/// Whether an Ethernet frame carries TCP, with the TCP header at an offset: over
/// IPv4 behind the header, where the packet is no fragment and is followed by
/// none, or over IPv6 behind the fixed header.
pub open spec fn carries_tcp(packet: Seq<u8>, tcp: int) -> bool {
    ||| {
        &&& packet.len() > 23
        &&& word(packet, 12) == 0x0800
        &&& packet[23] == 6
        &&& packet[20] % 64 == 0 && packet[21] == 0
        &&& tcp == 14 + 4 * (packet[14] % 16)
    }
    ||| {
        &&& packet.len() > 20
        &&& word(packet, 12) == 0x86dd
        &&& packet[20] == 6
        &&& tcp == 54
    }
}

/// Whether one end of a TCP connection has a port: the source, which stands first
/// in the TCP header, or the destination, which stands next.
pub open spec fn has_end(packet: Seq<u8>, tcp: int, port: u16) -> bool {
    ||| tcp + 2 <= packet.len() && word(packet, tcp) == port
    ||| tcp + 4 <= packet.len() && word(packet, tcp + 2) == port
}

/// The bits that mark a fragment are the low six of one byte and all of the next.
proof fn lemma_fragment_bits(packet: Seq<u8>)
    requires
        packet.len() > 21,
    ensures
        half_at(packet, 20) matches Some(fragment) && (fragment & 0x3fff == 0 <==> packet[20] % 64
            == 0 && packet[21] == 0),
{
    let high = packet[20];
    let low = packet[21];
    assert(((high as u32 * 256 + low as u32) as u32 & 0x3fff == 0) == (high % 64 == 0 && low == 0))
        by (bit_vector);
}

/// What a filter for the upstreams keeps, by the bytes of a packet.
proof fn lemma_kept_by_bytes(upstreams: Seq<SocketAddr>, packet: Seq<u8>)
    ensures
        is_ipv4_tcp(upstreams, packet) || is_ipv6_tcp(upstreams, packet) <==> exists|tcp: int|
            #[trigger] carries_tcp(packet, tcp) && concerns(upstreams, packet, tcp),
{
    if packet.len() > 21 {
        lemma_fragment_bits(packet);
    }
    if is_ipv4_tcp(upstreams, packet) {
        assert(carries_tcp(packet, 14 + 4 * (packet[14] % 16)));
    } else if is_ipv6_tcp(upstreams, packet) {
        assert(carries_tcp(packet, 54));
    }
    if exists|tcp: int| #[trigger]
        carries_tcp(packet, tcp) && concerns(upstreams, packet, tcp) {
        let tcp = choose|tcp: int| #[trigger]
            carries_tcp(packet, tcp) && concerns(upstreams, packet, tcp);
        assert(half_at(packet, 12) is Some);
    }
}

/// A word of a packet is the port of an upstream where an upstream has that port.
proof fn lemma_has_port(upstreams: Seq<SocketAddr>, packet: Seq<u8>, offset: int)
    requires
        0 <= offset,
    ensures
        has_port(upstreams, packet, offset) <==> offset + 2 <= packet.len() && one_has_port(
            upstreams,
            word(packet, offset) as u16,
        ),
{
    let mapped = upstreams.map_values(|upstream: SocketAddr| upstream.port);
    if offset + 2 <= packet.len() {
        let port = word(packet, offset) as u16;
        assert(0 <= word(packet, offset) <= u16::MAX);
        if has_port(upstreams, packet, offset) {
            assert(mapped.contains(port));
            let i = choose|i: int| 0 <= i < mapped.len() && mapped[i] == port;
            assert(upstreams[i].port == port);
        }
        if one_has_port(upstreams, port) {
            let i = choose|i: int|
                0 <= i < upstreams.len() && (#[trigger] upstreams[i]).port == port;
            assert(mapped[i] == port);
            assert(mapped.to_set().contains(port));
        }
    }
}

/// A whole TCP packet of up to 256 bytes is kept, over IPv4 and over IPv6 alike,
/// where one of its ends has the port of an upstream, whichever upstream that is
/// and whatever the upstream's address.
pub proof fn law_upstream_packets_are_kept(
    upstreams: Seq<SocketAddr>,
    filter: Seq<SockFilter>,
    packet: Seq<u8>,
    tcp: int,
    i: int,
)
    requires
        is_filter_for(filter, upstreams),
        packet.len() <= 256,
        carries_tcp(packet, tcp),
        0 <= i < upstreams.len(),
        has_end(packet, tcp, upstreams[i].port),
    ensures
        run(filter, packet) == Some(256u32),
{
    let ports = choose|ports: Seq<u16>| #[trigger]
        lists_ports(ports, upstreams) && filter == filter_listing(ports);
    law_filter_verdict(upstreams, ports, packet);
    lemma_kept_by_bytes(upstreams, packet);
    lemma_has_port(upstreams, packet, tcp);
    lemma_has_port(upstreams, packet, tcp + 2);
    assert(concerns(upstreams, packet, tcp));
}

/// A packet that is kept is a whole TCP packet of up to 256 bytes, and where the
/// upstreams have no more than 32 ports, which `known` lists, one of its ends has
/// the port of an upstream. Every other packet is dropped.
pub proof fn law_other_packets_are_dropped(
    upstreams: Seq<SocketAddr>,
    filter: Seq<SockFilter>,
    packet: Seq<u8>,
    known: Seq<u16>,
)
    requires
        is_filter_for(filter, upstreams),
        packet.len() <= u32::MAX,
        known.len() <= 32,
        forall|i: int| 0 <= i < upstreams.len() ==> known.contains((#[trigger] upstreams[i]).port),
    ensures
        run(filter, packet) == Some(0u32) || run(filter, packet) == Some(256u32),
        run(filter, packet) == Some(256u32) ==> packet.len() <= 256 && exists|tcp: int, i: int|
            #[trigger] carries_tcp(packet, tcp) && 0 <= i < upstreams.len() && has_end(
                packet,
                tcp,
                #[trigger] upstreams[i].port,
            ),
{
    let ports = choose|ports: Seq<u16>| #[trigger]
        lists_ports(ports, upstreams) && filter == filter_listing(ports);
    law_filter_verdict(upstreams, ports, packet);
    lemma_kept_by_bytes(upstreams, packet);
    lemma_listing_length(upstreams, ports);
    lemma_listed_ports(ports, upstreams);
    assert(ports.to_set().subset_of(known.to_set())) by {
        assert forall|port: u16| ports.to_set().contains(port) implies known.to_set().contains(
            port,
        ) by {
            let j = choose|j: int| 0 <= j < ports.len() && ports[j] == port;
            assert(ports[j] == port);
        }
    }
    known.lemma_cardinality_of_set();
    vstd::set_lib::lemma_len_subset(ports.to_set(), known.to_set());
    if run(filter, packet) == Some(256u32) {
        let tcp = choose|tcp: int| #[trigger]
            carries_tcp(packet, tcp) && concerns(upstreams, packet, tcp);
        lemma_has_port(upstreams, packet, tcp);
        lemma_has_port(upstreams, packet, tcp + 2);
        if has_port(upstreams, packet, tcp) {
            let i = choose|i: int|
                0 <= i < upstreams.len() && (#[trigger] upstreams[i]).port == word(packet, tcp);
            assert(has_end(packet, tcp, upstreams[i].port));
        } else {
            let i = choose|i: int|
                0 <= i < upstreams.len() && (#[trigger] upstreams[i]).port == word(packet, tcp + 2);
            assert(has_end(packet, tcp, upstreams[i].port));
        }
    }
}

/// Where the upstreams have more than 32 ports, of which `many` lists so many that
/// differ, every whole TCP packet of up to 256 bytes is kept, whatever its ports,
/// and no other packet is.
pub proof fn law_many_ports_keep_all_tcp(
    upstreams: Seq<SocketAddr>,
    filter: Seq<SockFilter>,
    packet: Seq<u8>,
    many: Seq<u16>,
)
    requires
        is_filter_for(filter, upstreams),
        packet.len() <= u32::MAX,
        many.len() > 32,
        many.no_duplicates(),
        forall|j: int| 0 <= j < many.len() ==> one_has_port(upstreams, #[trigger] many[j]),
    ensures
        run(filter, packet) == Some(
            if packet.len() <= 256 && exists|tcp: int| #[trigger] carries_tcp(packet, tcp) {
                256u32
            } else {
                0u32
            },
        ),
{
    let ports = choose|ports: Seq<u16>| #[trigger]
        lists_ports(ports, upstreams) && filter == filter_listing(ports);
    law_filter_verdict(upstreams, ports, packet);
    lemma_kept_by_bytes(upstreams, packet);
    lemma_listed_ports(ports, upstreams);
    assert(many.to_set().subset_of(ports.to_set())) by {
        assert forall|port: u16| many.to_set().contains(port) implies ports.to_set().contains(
            port,
        ) by {
            let j = choose|j: int| 0 <= j < many.len() && many[j] == port;
            assert(many[j] == port);
        }
    }
    many.unique_seq_to_set();
    vstd::set_lib::lemma_len_subset(many.to_set(), ports.to_set());
    if exists|tcp: int| #[trigger] carries_tcp(packet, tcp) {
        let tcp = choose|tcp: int| #[trigger] carries_tcp(packet, tcp);
        assert(concerns(upstreams, packet, tcp));
    }
}

/// The ports that are listed are those of the upstreams, of every one, whatever its
/// address, and no other; and they are listed once each, in ascending order.
pub proof fn law_ports_of_every_upstream(upstreams: &[SocketAddr], ports: Vec<u16>)
    requires
        call_ensures(upstream_ports, (upstreams,), ports),
    ensures
        forall|i: int|
            0 <= i < upstreams@.len() ==> ports@.contains((#[trigger] upstreams@[i]).port),
        forall|port: u16| #[trigger]
            ports@.contains(port) ==> exists|i: int|
                0 <= i < upstreams@.len() && (#[trigger] upstreams@[i]).port == port,
        forall|j: int, l: int| 0 <= j < l < ports@.len() ==> ports@[j] < ports@[l],
{
    assert forall|port: u16| #[trigger] ports@.contains(port) implies exists|i: int|
        0 <= i < upstreams@.len() && (#[trigger] upstreams@[i]).port == port by {
        let j = choose|j: int| 0 <= j < ports@.len() && ports@[j] == port;
        assert(one_has_port(upstreams@, ports@[j]));
    }
}

/// One more upstream, wherever it stands in the list, adds its port to those listed
/// and takes none away.
pub proof fn law_one_more_upstream_adds_its_port(
    upstreams: &[SocketAddr],
    more: &[SocketAddr],
    at: int,
    upstream: SocketAddr,
    ports: Vec<u16>,
    longer: Vec<u16>,
)
    requires
        0 <= at <= upstreams@.len(),
        more@ == upstreams@.insert(at, upstream),
        call_ensures(upstream_ports, (upstreams,), ports),
        call_ensures(upstream_ports, (more,), longer),
    ensures
        forall|port: u16|
            longer@.contains(port) <==> #[trigger] ports@.contains(port) || port == upstream.port,
{
    assert forall|port: u16|
        longer@.contains(port) <==> #[trigger] ports@.contains(port) || port == upstream.port by {
        if longer@.contains(port) {
            let j = choose|j: int| 0 <= j < longer@.len() && longer@[j] == port;
            assert(longer@[j] == port);
            assert(one_has_port(more@, port));
            let i = choose|i: int| 0 <= i < more@.len() && (#[trigger] more@[i]).port == port;
            if i < at {
                assert(upstreams@[i] == more@[i]);
            } else if i > at {
                assert(upstreams@[i - 1] == more@[i]);
            }
        }
        if ports@.contains(port) {
            let j = choose|j: int| 0 <= j < ports@.len() && ports@[j] == port;
            assert(ports@[j] == port);
            assert(one_has_port(upstreams@, port));
            let i = choose|i: int|
                0 <= i < upstreams@.len() && (#[trigger] upstreams@[i]).port == port;
            if i < at {
                assert(upstreams@[i] == more@[i]);
            } else {
                assert(upstreams@[i] == more@[i + 1]);
            }
        }
        assert(more@[at] == upstream);
    }
}

/// The filter that is built for the upstreams keeps a packet, up to 256 bytes of
/// it, exactly where it is a whole TCP packet of no more than that and one of its
/// ends has the port of an upstream, or, with more than 32 ports, any port; and it
/// is built for any list of upstreams.
pub proof fn law_built_filter_keeps_upstream_packets(
    upstreams: &[SocketAddr],
    built: Result<Vec<SockFilter>, SnifferError>,
    packet: Seq<u8>,
)
    requires
        call_ensures(build_bpf_filter, (upstreams,), built),
        packet.len() <= u32::MAX,
    ensures
        built is Ok,
        built->Ok_0@.len() <= 148,
        run(built->Ok_0@, packet) == Some(0u32) || run(built->Ok_0@, packet) == Some(256u32),
        forall|tcp: int, i: int|
            packet.len() <= 256 && #[trigger] carries_tcp(packet, tcp) && 0 <= i < upstreams@.len()
                && has_end(packet, tcp, #[trigger] upstreams@[i].port) ==> run(
                built->Ok_0@,
                packet,
            ) == Some(256u32),
        run(built->Ok_0@, packet) == Some(256u32) ==> packet.len() <= 256 && exists|tcp: int|
            #[trigger] carries_tcp(packet, tcp),
        forall|known: Seq<u16>|
            known.len() <= 32 && (forall|i: int|
                0 <= i < upstreams@.len() ==> #[trigger] known.contains(upstreams@[i].port)) && run(
                built->Ok_0@,
                packet,
            ) == Some(256u32) ==> #[trigger] known.len() <= 32 && exists|tcp: int, i: int|
                #[trigger] carries_tcp(packet, tcp) && 0 <= i < upstreams@.len() && has_end(
                    packet,
                    tcp,
                    #[trigger] upstreams@[i].port,
                ),
{
    let filter = built->Ok_0@;
    let ports = choose|ports: Seq<u16>| #[trigger]
        lists_ports(ports, upstreams@) && filter == filter_listing(ports);
    law_filter_verdict(upstreams@, ports, packet);
    lemma_kept_by_bytes(upstreams@, packet);
    assert forall|known: Seq<u16>|
        known.len() <= 32 && (forall|i: int|
            0 <= i < upstreams@.len() ==> #[trigger] known.contains(upstreams@[i].port)) && run(
            filter,
            packet,
        ) == Some(256u32) implies #[trigger] known.len() <= 32 && exists|tcp: int, i: int|
        #[trigger] carries_tcp(packet, tcp) && 0 <= i < upstreams@.len() && has_end(
            packet,
            tcp,
            #[trigger] upstreams@[i].port,
        ) by {
        assert forall|i: int| 0 <= i < upstreams@.len() implies known.contains(
            (#[trigger] upstreams@[i]).port,
        ) by {
            assert(known.contains(upstreams@[i].port));
        }
        law_other_packets_are_dropped(upstreams@, filter, packet, known);
    }
}

/// The order of the upstreams, their addresses, and how often a port occurs make no
/// difference to what is built: upstreams with the same ports have the same filter.
pub proof fn law_same_ports_same_filter(
    upstreams1: &[SocketAddr],
    upstreams2: &[SocketAddr],
    built1: Result<Vec<SockFilter>, SnifferError>,
    built2: Result<Vec<SockFilter>, SnifferError>,
)
    requires
        forall|port: u16| #[trigger]
            one_has_port(upstreams1@, port) <==> one_has_port(upstreams2@, port),
        call_ensures(build_bpf_filter, (upstreams1,), built1),
        call_ensures(build_bpf_filter, (upstreams2,), built2),
    ensures
        built1 is Ok && built2 is Ok,
        built1->Ok_0@ == built2->Ok_0@,
{
    let ports1 = choose|ports: Seq<u16>| #[trigger]
        lists_ports(ports, upstreams1@) && built1->Ok_0@ == filter_listing(ports);
    let ports2 = choose|ports: Seq<u16>| #[trigger]
        lists_ports(ports, upstreams2@) && built2->Ok_0@ == filter_listing(ports);
    lemma_listed_ports(ports1, upstreams1@);
    lemma_listed_ports(ports2, upstreams2@);
    assert forall|port: u16| ports1.contains(port) == ports2.contains(port) by {
        if ports1.contains(port) {
            let l = choose|l: int| 0 <= l < ports1.len() && ports1[l] == port;
            assert(ports1[l] == port);
            assert(one_has_port(upstreams1@, port));
            let i = choose|i: int|
                0 <= i < upstreams2@.len() && (#[trigger] upstreams2@[i]).port == port;
            assert(ports2.contains(upstreams2@[i].port));
        }
        if ports2.contains(port) {
            let l = choose|l: int| 0 <= l < ports2.len() && ports2[l] == port;
            assert(ports2[l] == port);
            assert(one_has_port(upstreams2@, port));
            assert(one_has_port(upstreams1@, port));
            let i = choose|i: int|
                0 <= i < upstreams1@.len() && (#[trigger] upstreams1@[i]).port == port;
            assert(ports1.contains(upstreams1@[i].port));
        }
    }
    assert(ports1.to_set() =~= ports2.to_set());
    law_listing_is_unique(ports1, ports2);
}

/// Running the filter that was built for the upstreams on a packet that is read
/// keeps it, where it is a whole TCP packet of up to 256 bytes, for the port of any
/// upstream at either end; and with the port of no upstream at either end, or no
/// such packet at all, it drops it, as long as the upstreams have no more than 32
/// ports, which `known` lists.
pub proof fn law_running_the_built_filter(
    upstreams: &[SocketAddr],
    built: Result<Vec<SockFilter>, SnifferError>,
    program: &[SockFilter],
    packet: &[u8],
    verdict: Option<u32>,
    known: Seq<u16>,
)
    requires
        call_ensures(build_bpf_filter, (upstreams,), built),
        built matches Ok(filter) && program@ == filter@,
        call_ensures(run_filter, (program, packet), verdict),
        packet@.len() <= u32::MAX,
        known.len() <= 32,
        forall|i: int|
            0 <= i < upstreams@.len() ==> known.contains((#[trigger] upstreams@[i]).port),
    ensures
        verdict == Some(
            if packet@.len() <= 256 && exists|tcp: int, i: int| #[trigger]
                carries_tcp(packet@, tcp) && 0 <= i < upstreams@.len() && has_end(
                    packet@,
                    tcp,
                    #[trigger] upstreams@[i].port,
                ) {
                256u32
            } else {
                0u32
            },
        ),
{
    law_other_packets_are_dropped(upstreams@, program@, packet@, known);
    if packet@.len() <= 256 && exists|tcp: int, i: int| #[trigger]
        carries_tcp(packet@, tcp) && 0 <= i < upstreams@.len() && has_end(
            packet@,
            tcp,
            #[trigger] upstreams@[i].port,
        ) {
        let (tcp, i) = choose|tcp: int, i: int| #[trigger]
            carries_tcp(packet@, tcp) && 0 <= i < upstreams@.len() && has_end(
                packet@,
                tcp,
                #[trigger] upstreams@[i].port,
            );
        law_upstream_packets_are_kept(upstreams@, program@, packet@, tcp, i);
    }
}

} // verus!
