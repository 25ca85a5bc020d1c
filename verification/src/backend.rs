//! The packet socket: how it is opened, and what is made of what it reports.

use vstd::prelude::*;

use crate::bpf::{run, SockFilter};
use crate::error::{IoErrorKind, IoFailure, SnifferError};
use crate::filter::{
    build_bpf_filter, carries_tcp, has_end, is_filter_for, law_other_packets_are_dropped,
    law_upstream_packets_are_kept,
};
use crate::net::{IpAddr, SocketAddr};
use crate::platform::{
    af_packet, eth_p_all, eth_p_ip, pollin, ETHERTYPE_ALL, ETHERTYPE_IPV4, FAMILY_PACKET, READABLE,
};

verus! {

/// How long a wait for packets lasts, in milliseconds.
pub const POLL_TIMEOUT_MS: i32 = 100;

/// How long a read of the socket lasts, in microseconds.
pub const RECV_TIMEOUT_US: i64 = 100000;

/// A link-layer address, as the kernel's `struct sockaddr_ll` holds it. The
/// protocol is in network order.
#[derive(Debug, Clone, Copy)]
pub struct LinkAddress {
    pub family: u16,
    pub protocol: [u8; 2],
    pub ifindex: i32,
    pub halen: u8,
    pub addr: [u8; 8],
}

/// The two bytes of a number, the high one first.
pub open spec fn in_network_order(number: u16) -> Seq<u8> {
    seq![(number / 256) as u8, (number % 256) as u8]
}

/// The two bytes of a number, the high one first.
pub fn network_order(number: u16) -> (bytes: [u8; 2])
    ensures
        bytes@ == in_network_order(number),
{
    let bytes = [(number / 256) as u8, (number % 256) as u8];
    assert(bytes@ =~= in_network_order(number));
    bytes
}

/// Whether an address stands for every packet of an interface.
pub open spec fn is_bind_address(address: LinkAddress, ifindex: i32) -> bool {
    &&& address.family == FAMILY_PACKET
    &&& address.protocol@ == in_network_order(ETHERTYPE_ALL)
    &&& address.ifindex == ifindex
    &&& address.halen == 0
    &&& address.addr@ == seq![0u8, 0, 0, 0, 0, 0, 0, 0]
}

/// The address that the socket is bound to: every packet of an interface.
pub fn bind_address(ifindex: i32) -> (address: LinkAddress)
    ensures
        is_bind_address(address, ifindex),
{
    let addr: [u8; 8] = [0, 0, 0, 0, 0, 0, 0, 0];
    assert(addr@ =~= seq![0u8, 0, 0, 0, 0, 0, 0, 0]);
    LinkAddress {
        family: af_packet(),
        protocol: network_order(eth_p_all()),
        ifindex,
        halen: 0,
        addr,
    }
}

/// The address that a frame is sent to: the hardware address that it starts
/// with.
pub fn frame_address(ifindex: i32, frame: &[u8]) -> (address: LinkAddress)
    requires
        frame@.len() >= 6,
    ensures
        address.family == FAMILY_PACKET,
        address.protocol@ == in_network_order(ETHERTYPE_IPV4 as u16),
        address.ifindex == ifindex,
        address.halen == 6,
        address.addr@ == frame@.take(6) + seq![0u8, 0],
{
    let addr: [u8; 8] = [frame[0], frame[1], frame[2], frame[3], frame[4], frame[5], 0, 0];
    assert(addr@ =~= frame@.take(6) + seq![0u8, 0]);
    LinkAddress {
        family: af_packet(),
        protocol: network_order(eth_p_ip() as u16),
        ifindex,
        halen: 6,
        addr,
    }
}

/// What sending a frame came to.
pub fn after_send(result: isize, last_os_error: IoFailure) -> (sent: Result<(), SnifferError>)
    ensures
        result < 0 ==> sent == Err::<(), SnifferError>(SnifferError::Inject(last_os_error)),
        result >= 0 ==> sent is Ok,
{
    if result < 0 {
        Err(SnifferError::Inject(last_os_error))
    } else {
        Ok(())
    }
}

/// What to do after a wait for packets.
#[derive(Debug)]
pub enum RecvStep {
    /// Wait again.
    Poll,
    /// Clear the wake-ups, and report an empty frame.
    DrainWaker,
    /// Read a frame.
    Receive,
    /// Give up.
    Fail(SnifferError),
}

/// Whether a poll reported data to read.
pub open spec fn is_readable(events: i16) -> bool {
    events & READABLE != 0
}

/// Whether a step is what follows a wait: an interrupted wait is taken up again,
/// another failure and a wait without events are reported, and otherwise a
/// wake-up comes before a frame.
pub open spec fn follows_poll(
    step: RecvStep,
    ready: i32,
    socket_events: i16,
    waker_events: i16,
    last_os_error: IoFailure,
) -> bool {
    if ready < 0 {
        step == if last_os_error.kind == IoErrorKind::Interrupted {
            RecvStep::Poll
        } else {
            RecvStep::Fail(SnifferError::Recv(last_os_error))
        }
    } else if ready == 0 {
        is_receive_timeout(step)
    } else {
        step == if is_readable(waker_events) {
            RecvStep::DrainWaker
        } else if is_readable(socket_events) {
            RecvStep::Receive
        } else {
            RecvStep::Poll
        }
    }
}

/// Whether a step reports that no event came in time.
pub open spec fn is_receive_timeout(step: RecvStep) -> bool {
    step matches RecvStep::Fail(SnifferError::Recv(e)) && e.is_custom(
        IoErrorKind::TimedOut,
        "receive timeout"@,
    )
}

/// What to do after a wait: `ready` is what `poll` returned, and the events are
/// those it reported for the socket and for the waker. A wake-up comes before a
/// frame.
pub fn after_poll(
    ready: i32,
    socket_events: i16,
    waker_events: i16,
    last_os_error: IoFailure,
) -> (step: RecvStep)
    ensures
        follows_poll(step, ready, socket_events, waker_events, last_os_error),
{
    if ready < 0 {
        if last_os_error.kind == IoErrorKind::Interrupted {
            RecvStep::Poll
        } else {
            RecvStep::Fail(SnifferError::Recv(last_os_error))
        }
    } else if ready == 0 {
        RecvStep::Fail(
            SnifferError::Recv(IoFailure::new(IoErrorKind::TimedOut, "receive timeout")),
        )
    } else if waker_events & pollin() != 0 {
        RecvStep::DrainWaker
    } else if socket_events & pollin() != 0 {
        RecvStep::Receive
    } else {
        RecvStep::Poll
    }
}

/// What reading a frame came to: its length, or the failure.
pub fn after_receive(result: isize, last_os_error: IoFailure) -> (received: Result<
    usize,
    SnifferError,
>)
    ensures
        result < 0 ==> received == Err::<usize, SnifferError>(SnifferError::Recv(last_os_error)),
        result >= 0 ==> (received matches Ok(n) && n == result),
{
    if result < 0 {
        Err(SnifferError::Recv(last_os_error))
    } else {
        Ok(result as usize)
    }
}

/// Whether a read of the waker calls for another: until a read finds nothing.
pub open spec fn reads_again(result: int) -> bool {
    result >= 0
}

/// Whether to read the waker once more.
pub fn drains_on(result: isize) -> (again: bool)
    ensures
        again == reads_again(result as int),
{
    result >= 0
}

/// What a receive reports once the waker is drained: a frame of no bytes.
pub fn after_wake_up() -> (received: Result<usize, SnifferError>)
    ensures
        received == Ok::<usize, SnifferError>(0),
{
    Ok(0)
}

/// A read of the waker, whose counter holds the wake-ups that were not read yet.
pub struct WakerRead {
    pub before: nat,
    pub result: int,
    pub after: nat,
}

impl WakerRead {
    /// What a counter of wake-ups does: a read of a counter that is not zero
    /// succeeds and clears it, and a read of zero fails and leaves it.
    pub open spec fn clears(self) -> bool {
        if self.before > 0 {
            self.result >= 0 && self.after == 0
        } else {
            self.result < 0 && self.after == 0
        }
    }
}

/// Whether a series of reads, one after the other, drains a waker with so many
/// wake-ups: each read but the last calls for another.
pub open spec fn is_drain(pending: nat, reads: Seq<WakerRead>) -> bool {
    &&& reads.len() > 0
    &&& reads[0].before == pending
    &&& forall|i: int|
        #![trigger reads[i]]
        0 <= i < reads.len() - 1 ==> reads_again(reads[i].result) && reads[i].after == reads[i
            + 1].before
    &&& !reads_again(reads.last().result)
}

/// Draining a waker leaves no wake-up, however many there were, and takes no more
/// than two reads.
pub proof fn law_draining_leaves_no_wake_up(pending: nat, reads: Seq<WakerRead>)
    requires
        is_drain(pending, reads),
        forall|i: int| 0 <= i < reads.len() ==> (#[trigger] reads[i]).clears(),
    ensures
        reads.last().after == 0,
        reads.len() == if pending == 0 {
            1int
        } else {
            2int
        },
{
    assert(reads[0].clears());
    assert(reads[reads.len() - 1].clears());
    if reads.len() > 1 {
        assert(reads[1].clears());
        if reads.len() > 2 {
            assert(reads_again(reads[1].result));
        }
    }
}

/// What a wait reports of a waker that holds so many wake-ups, where no frame
/// comes: that it is readable where there are any, and otherwise nothing in time.
pub open spec fn wait_reports(pending: nat, ready: i32, waker_events: i16) -> bool {
    if pending > 0 {
        ready > 0 && is_readable(waker_events)
    } else {
        ready == 0
    }
}

/// Whether a receive to which no frame comes reports `received` and leaves so many
/// wake-ups, where the waker held `pending`. The last wait, one that was not
/// interrupted, leads to the step that follows it: draining the waker by a series
/// of reads, and the report of an empty frame, or a failure.
pub open spec fn receives_no_frame(
    pending: nat,
    step: RecvStep,
    reads: Seq<WakerRead>,
    received: Result<usize, SnifferError>,
    left: nat,
) -> bool {
    &&& exists|ready: i32, socket_events: i16, waker_events: i16, error: IoFailure| #[trigger]
        follows_poll(step, ready, socket_events, waker_events, error) && wait_reports(
            pending,
            ready,
            waker_events,
        )
    &&& match step {
        RecvStep::DrainWaker => {
            &&& is_drain(pending, reads)
            &&& forall|i: int| 0 <= i < reads.len() ==> (#[trigger] reads[i]).clears()
            &&& received == Ok::<usize, SnifferError>(0)
            &&& left == reads.last().after
        },
        RecvStep::Fail(e) => received == Err::<usize, SnifferError>(e) && left == pending,
        _ => false,
    }
}

/// All wake-ups made before a receive become one, and none is lost: of two receives
/// to which no frame comes, the first reports one empty frame, however many
/// wake-ups there were, and the second, without further wake-ups, that nothing
/// came in time. A receive without wake-ups reports no empty frame.
///
/// What a wait reports of a waker, and what a read does to its counter, is given
/// as `wait_reports` and `WakerRead::clears` say it.
pub proof fn law_wake_ups_become_one(
    pending: nat,
    step1: RecvStep,
    reads1: Seq<WakerRead>,
    received1: Result<usize, SnifferError>,
    between: nat,
    step2: RecvStep,
    reads2: Seq<WakerRead>,
    received2: Result<usize, SnifferError>,
    left: nat,
)
    requires
        receives_no_frame(pending, step1, reads1, received1, between),
        receives_no_frame(between, step2, reads2, received2, left),
    ensures
        pending > 0 ==> received1 == Ok::<usize, SnifferError>(0),
        pending == 0 ==> received1 is Err && is_receive_timeout(step1),
        between == 0,
        is_receive_timeout(step2),
        received2 matches Err(SnifferError::Recv(e)) && e.is_custom(
            IoErrorKind::TimedOut,
            "receive timeout"@,
        ),
        left == 0,
{
    if pending > 0 {
        law_draining_leaves_no_wake_up(pending, reads1);
    }
}

/// What attaching the filter came to.
pub fn after_attach(result: i32, last_os_error: IoFailure) -> (attached: Result<(), SnifferError>)
    ensures
        result < 0 ==> attached == Err::<(), SnifferError>(SnifferError::FilterAttach(last_os_error)),
        result >= 0 ==> attached is Ok,
{
    if result < 0 {
        Err(SnifferError::FilterAttach(last_os_error))
    } else {
        Ok(())
    }
}

/// A socket that is open.
#[derive(Debug, Clone, Copy, PartialEq, Eq, Structural)]
pub struct Opened {
    pub fd: i32,
    pub ifindex: i32,
    pub wake_fd: i32,
}

/// What to do next to open the socket.
#[derive(Debug)]
pub enum OpenStep {
    /// Find the interface that reaches an address.
    FindInterface { ip: IpAddr },
    /// Open a packet socket for every Ethernet type. The protocol is in network
    /// order.
    OpenSocket { protocol: [u8; 2] },
    /// Bind the socket.
    Bind { fd: i32, address: LinkAddress },
    /// Set the time limit for reads of the socket. That this fails does no harm.
    SetTimeout { fd: i32, micros: i64 },
    /// Attach a filter to the socket.
    AttachFilter { fd: i32, filter: Vec<SockFilter> },
    /// Make the descriptor that wakes the sniffer.
    MakeWaker,
    /// Close the socket.
    Close { fd: i32 },
    /// Report a failure.
    Fail(SnifferError),
    /// Report success.
    Done(Opened),
}

/// What came of a step. The numbers are what the system calls returned, which is
/// negative for a failure.
#[derive(Debug)]
pub enum OpenEvent {
    InterfaceFound(Result<i32, SnifferError>),
    SocketOpened { fd: i32, last_os_error: IoFailure },
    Bound { result: i32 },
    TimeoutSet,
    FilterAttached { result: i32, last_os_error: IoFailure },
    WakerMade { wake_fd: i32 },
    Closed { last_os_error: IoFailure },
}

/// How far the opening of the socket has come.
#[derive(Debug, Clone, Copy, PartialEq, Eq, Structural)]
pub enum OpenState {
    /// The interface is looked for.
    Start,
    /// A socket is opened.
    Socket { ifindex: i32 },
    /// The socket is bound.
    Binding { ifindex: i32, fd: i32 },
    /// The time limit is set.
    Timing { ifindex: i32, fd: i32 },
    /// The filter is attached.
    Filtering { ifindex: i32, fd: i32 },
    /// The waker is made.
    Waking { ifindex: i32, fd: i32 },
    /// The socket is closed, as it could not be bound.
    ClosingUnbound { fd: i32 },
    /// The socket is closed, as there is no waker for it.
    ClosingUnwoken { fd: i32 },
    /// The attempt is over.
    Failed,
    /// The socket is ready.
    Ready(Opened),
}

impl OpenState {
    /// Whether an event is the answer to the step that a state stands for.
    pub open spec fn awaits(self, event: OpenEvent) -> bool {
        match self {
            OpenState::Start => event is InterfaceFound,
            OpenState::Socket { .. } => event is SocketOpened,
            OpenState::Binding { .. } => event is Bound,
            OpenState::Timing { .. } => event is TimeoutSet,
            OpenState::Filtering { .. } => event is FilterAttached,
            OpenState::Waking { .. } => event is WakerMade,
            OpenState::ClosingUnbound { .. } => event is Closed,
            OpenState::ClosingUnwoken { .. } => event is Closed,
            OpenState::Failed => false,
            OpenState::Ready(_) => false,
        }
    }

    /// Where an event leads.
    pub open spec fn after(self, event: OpenEvent) -> OpenState {
        match (self, event) {
            (OpenState::Start, OpenEvent::InterfaceFound(Ok(ifindex))) => OpenState::Socket {
                ifindex,
            },
            (OpenState::Socket { ifindex }, OpenEvent::SocketOpened { fd, .. }) => if fd < 0 {
                OpenState::Failed
            } else {
                OpenState::Binding { ifindex, fd }
            },
            (OpenState::Binding { ifindex, fd }, OpenEvent::Bound { result }) => if result < 0 {
                OpenState::ClosingUnbound { fd }
            } else {
                OpenState::Timing { ifindex, fd }
            },
            (OpenState::Timing { ifindex, fd }, _) => OpenState::Filtering { ifindex, fd },
            (
                OpenState::Filtering { ifindex, fd },
                OpenEvent::FilterAttached { result, .. },
            ) => if result < 0 {
                OpenState::Failed
            } else {
                OpenState::Waking { ifindex, fd }
            },
            (OpenState::Waking { ifindex, fd }, OpenEvent::WakerMade { wake_fd }) => if wake_fd
                < 0 {
                OpenState::ClosingUnwoken { fd }
            } else {
                OpenState::Ready(Opened { fd, ifindex, wake_fd })
            },
            _ => OpenState::Failed,
        }
    }

    /// Whether a step is the one that a state stands for.
    pub open spec fn asks_for(self, step: OpenStep, upstreams: Seq<SocketAddr>) -> bool {
        match self {
            OpenState::Start => step == OpenStep::FindInterface { ip: upstreams[0].ip },
            OpenState::Socket { .. } => step matches OpenStep::OpenSocket { protocol } && protocol@
                == in_network_order(ETHERTYPE_ALL),
            OpenState::Binding { ifindex, fd } => step matches OpenStep::Bind { fd: f, address } && f
                == fd && is_bind_address(address, ifindex),
            OpenState::Timing { fd, .. } => step == OpenStep::SetTimeout {
                fd,
                micros: RECV_TIMEOUT_US,
            },
            OpenState::Filtering { fd, .. } => step matches OpenStep::AttachFilter { fd: f, filter }
                && f == fd && is_filter_for(filter@, upstreams) && filter@.len() <= u16::MAX,
            OpenState::Waking { .. } => step is MakeWaker,
            OpenState::ClosingUnbound { fd } => step == OpenStep::Close { fd },
            OpenState::ClosingUnwoken { fd } => step == OpenStep::Close { fd },
            OpenState::Failed => step is Fail,
            OpenState::Ready(opened) => step == OpenStep::Done(opened),
        }
    }

    /// The failure that an event brings, where it leads to one.
    pub open spec fn failure(self, event: OpenEvent) -> Option<SnifferError> {
        match (self, event) {
            (OpenState::Start, OpenEvent::InterfaceFound(Err(e))) => Some(e),
            (
                OpenState::Socket { .. },
                OpenEvent::SocketOpened { fd, last_os_error },
            ) => if fd < 0 {
                Some(SnifferError::SocketOpen(last_os_error))
            } else {
                None
            },
            (
                OpenState::Filtering { .. },
                OpenEvent::FilterAttached { result, last_os_error },
            ) => if result < 0 {
                Some(SnifferError::FilterAttach(last_os_error))
            } else {
                None
            },
            (OpenState::ClosingUnbound { .. }, OpenEvent::Closed { last_os_error }) => Some(
                SnifferError::SocketBind(last_os_error),
            ),
            (OpenState::ClosingUnwoken { .. }, OpenEvent::Closed { last_os_error }) => Some(
                SnifferError::SocketOpen(last_os_error),
            ),
            _ => None,
        }
    }
}

/// The first step: find the interface that reaches the first upstream.
pub fn open_first(upstreams: &[SocketAddr]) -> (first: (OpenState, OpenStep))
    requires
        upstreams@.len() > 0,
    ensures
        first.0 is Start,
        first.0.asks_for(first.1, upstreams@),
        first.1 == (OpenStep::FindInterface { ip: upstreams@[0].ip }),
{
    (OpenState::Start, OpenStep::FindInterface { ip: upstreams[0].ip })
}

/// The step after an event.
pub fn open_next(state: OpenState, event: OpenEvent, upstreams: &[SocketAddr]) -> (next: (
    OpenState,
    OpenStep,
))
    requires
        state.awaits(event),
    ensures
        next.0 == state.after(event),
        next.0.asks_for(next.1, upstreams@),
        match state.failure(event) {
            Some(e) => next.0 is Failed && next.1 == OpenStep::Fail(e),
            None => !(next.0 is Failed),
        },
{
    match (state, event) {
        (OpenState::Start, OpenEvent::InterfaceFound(found)) => match found {
            Ok(ifindex) => (
                OpenState::Socket { ifindex },
                OpenStep::OpenSocket { protocol: network_order(eth_p_all()) },
            ),
            Err(e) => (OpenState::Failed, OpenStep::Fail(e)),
        },
        (OpenState::Socket { ifindex }, OpenEvent::SocketOpened { fd, last_os_error }) => {
            if fd < 0 {
                (OpenState::Failed, OpenStep::Fail(SnifferError::SocketOpen(last_os_error)))
            } else {
                (
                    OpenState::Binding { ifindex, fd },
                    OpenStep::Bind { fd, address: bind_address(ifindex) },
                )
            }
        },
        (OpenState::Binding { ifindex, fd }, OpenEvent::Bound { result }) => {
            if result < 0 {
                (OpenState::ClosingUnbound { fd }, OpenStep::Close { fd })
            } else {
                (
                    OpenState::Timing { ifindex, fd },
                    OpenStep::SetTimeout { fd, micros: RECV_TIMEOUT_US },
                )
            }
        },
        (OpenState::Timing { ifindex, fd }, _) => match build_bpf_filter(upstreams) {
            Ok(filter) => (
                OpenState::Filtering { ifindex, fd },
                OpenStep::AttachFilter { fd, filter },
            ),
            Err(e) => (OpenState::Failed, OpenStep::Fail(e)),
        },
        (
            OpenState::Filtering { ifindex, fd },
            OpenEvent::FilterAttached { result, last_os_error },
        ) => match after_attach(result, last_os_error) {
            Ok(_) => (OpenState::Waking { ifindex, fd }, OpenStep::MakeWaker),
            Err(e) => (OpenState::Failed, OpenStep::Fail(e)),
        },
        (OpenState::Waking { ifindex, fd }, OpenEvent::WakerMade { wake_fd }) => {
            if wake_fd < 0 {
                (OpenState::ClosingUnwoken { fd }, OpenStep::Close { fd })
            } else {
                let opened = Opened { fd, ifindex, wake_fd };
                (OpenState::Ready(opened), OpenStep::Done(opened))
            }
        },
        (OpenState::ClosingUnbound { .. }, OpenEvent::Closed { last_os_error }) => {
            (OpenState::Failed, OpenStep::Fail(SnifferError::SocketBind(last_os_error)))
        },
        (_, OpenEvent::Closed { last_os_error }) => {
            (OpenState::Failed, OpenStep::Fail(SnifferError::SocketOpen(last_os_error)))
        },
        (_, _) => vstd::pervasive::unreached(),
    }
}

/// How far a series of events brings the opening of the socket.
pub open spec fn opening(events: Seq<OpenEvent>) -> OpenState
    decreases events.len(),
{
    if events.len() == 0 {
        OpenState::Start
    } else {
        opening(events.drop_last()).after(events.last())
    }
}

/// Whether each event of a series answers the step before it.
pub open spec fn answers(events: Seq<OpenEvent>) -> bool
    decreases events.len(),
{
    events.len() == 0 || {
        &&& answers(events.drop_last())
        &&& opening(events.drop_last()).awaits(events.last())
    }
}

/// The socket that a series of events opened and did not close.
pub open spec fn open_socket(events: Seq<OpenEvent>) -> Option<i32>
    decreases events.len(),
{
    if events.len() == 0 {
        None
    } else {
        match events.last() {
            OpenEvent::SocketOpened { fd, .. } => if fd < 0 {
                None
            } else {
                Some(fd)
            },
            OpenEvent::Closed { .. } => None,
            _ => open_socket(events.drop_last()),
        }
    }
}

/// The socket that a state works on.
pub open spec fn socket_of(state: OpenState) -> Option<i32> {
    match state {
        OpenState::Binding { fd, .. } => Some(fd),
        OpenState::Timing { fd, .. } => Some(fd),
        OpenState::Filtering { fd, .. } => Some(fd),
        OpenState::Waking { fd, .. } => Some(fd),
        OpenState::ClosingUnbound { fd } => Some(fd),
        OpenState::ClosingUnwoken { fd } => Some(fd),
        OpenState::Ready(opened) => Some(opened.fd),
        _ => None,
    }
}

/// The socket that is worked on, and that is ready in the end, is the one that
/// was opened. An attempt that fails leaves no socket open, unless it fails as
/// the filter cannot be attached: then the socket stays open.
pub proof fn law_failed_attempt_closes_socket(events: Seq<OpenEvent>)
    requires
        answers(events),
    ensures
        !(opening(events) is Failed) ==> open_socket(events) == socket_of(opening(events)),
        opening(events) is Failed && !(events.last() is FilterAttached) ==> open_socket(events) is None,
        opening(events) is Failed && events.last() is FilterAttached ==> open_socket(events)
            == socket_of(opening(events.drop_last())),
        opening(events) matches OpenState::Ready(opened) ==> opened.fd >= 0 && opened.wake_fd >= 0,
    decreases events.len(),
{
    if events.len() > 0 {
        law_failed_attempt_closes_socket(events.drop_last());
        lemma_socket_number(events.drop_last());
    }
}

/// A socket that is worked on has a number that is not negative.
proof fn lemma_socket_number(events: Seq<OpenEvent>)
    requires
        answers(events),
    ensures
        socket_of(opening(events)) matches Some(fd) ==> fd >= 0,
    decreases events.len(),
{
    if events.len() > 0 {
        lemma_socket_number(events.drop_last());
    }
}

/// The interface that is looked for is that of the upstream that stands first, and
/// the upstreams behind it make no difference to it.
pub proof fn law_first_upstream_decides(
    upstreams: &[SocketAddr],
    more: &[SocketAddr],
    first: (OpenState, OpenStep),
    same: (OpenState, OpenStep),
)
    requires
        upstreams@.len() > 0,
        upstreams@.is_prefix_of(more@),
        call_ensures(open_first, (upstreams,), first),
        call_ensures(open_first, (more,), same),
    ensures
        first.1 matches OpenStep::FindInterface { ip } && ip == upstreams@[0].ip,
        same == first,
{
    assert(more@[0] == upstreams@[0]);
}

/// The order in which a socket is opened, where every step succeeds: the interface
/// of the first upstream is looked for, a socket for every Ethernet type is
/// opened, bound to every packet of that interface, limited to reads of 100 ms,
/// given the filter for the upstreams, and a waker is made for it. What is ready in
/// the end is that socket, on that interface, with that waker. That the time limit
/// cannot be set makes no difference.
pub proof fn law_opening_in_order(
    upstreams: &[SocketAddr],
    ifindex: i32,
    fd: i32,
    bound: i32,
    attached: i32,
    wake_fd: i32,
    errors: (IoFailure, IoFailure),
    start: (OpenState, OpenStep),
    socket: (OpenState, OpenStep),
    binding: (OpenState, OpenStep),
    timing: (OpenState, OpenStep),
    filtering: (OpenState, OpenStep),
    waking: (OpenState, OpenStep),
    ready: (OpenState, OpenStep),
    packet: Seq<u8>,
    known: Seq<u16>,
)
    requires
        upstreams@.len() > 0,
        call_ensures(open_first, (upstreams,), start),
        call_ensures(
            open_next,
            (start.0, OpenEvent::InterfaceFound(Ok(ifindex)), upstreams),
            socket,
        ),
        fd >= 0,
        call_ensures(
            open_next,
            (socket.0, OpenEvent::SocketOpened { fd, last_os_error: errors.0 }, upstreams),
            binding,
        ),
        bound >= 0,
        call_ensures(
            open_next,
            (binding.0, OpenEvent::Bound { result: bound }, upstreams),
            timing,
        ),
        call_ensures(open_next, (timing.0, OpenEvent::TimeoutSet, upstreams), filtering),
        attached >= 0,
        call_ensures(
            open_next,
            (
                filtering.0,
                OpenEvent::FilterAttached { result: attached, last_os_error: errors.1 },
                upstreams,
            ),
            waking,
        ),
        wake_fd >= 0,
        call_ensures(open_next, (waking.0, OpenEvent::WakerMade { wake_fd }, upstreams), ready),
        packet.len() <= u32::MAX,
    ensures
        start.1 matches OpenStep::FindInterface { ip } && ip == upstreams@[0].ip,
        socket.1 matches OpenStep::OpenSocket { protocol } && protocol@ == seq![0u8, 3u8],
        binding.1 matches OpenStep::Bind { fd: f, address } && f == fd && address.family == 17
            && address.protocol@ == seq![0u8, 3u8] && address.ifindex == ifindex && address.halen
            == 0 && address.addr@ == seq![0u8, 0, 0, 0, 0, 0, 0, 0],
        timing.1 matches OpenStep::SetTimeout { fd: f, micros } && f == fd && micros == 100000,
        filtering.1 is AttachFilter && filtering.1->AttachFilter_fd == fd,
        filtering.1->filter@.len() <= u16::MAX,
        forall|tcp: int, i: int|
            packet.len() <= 256 && #[trigger] carries_tcp(packet, tcp) && 0 <= i < upstreams@.len()
                && has_end(packet, tcp, #[trigger] upstreams@[i].port) ==> run(
                filtering.1->filter@,
                packet,
            ) == Some(256u32),
        known.len() <= 32 && (forall|i: int|
            0 <= i < upstreams@.len() ==> known.contains((#[trigger] upstreams@[i]).port)) && run(
            filtering.1->filter@,
            packet,
        ) == Some(256u32) ==> packet.len() <= 256 && exists|tcp: int, i: int|
            #[trigger] carries_tcp(packet, tcp) && 0 <= i < upstreams@.len() && has_end(
                packet,
                tcp,
                #[trigger] upstreams@[i].port,
            ),
        waking.1 is MakeWaker,
        ready.1 matches OpenStep::Done(opened) && opened.fd == fd && opened.ifindex == ifindex
            && opened.wake_fd == wake_fd,
{
    let filter = filtering.1->filter@;
    assert(in_network_order(3) =~= seq![0u8, 3u8]);
    assert forall|tcp: int, i: int|
        packet.len() <= 256 && #[trigger] carries_tcp(packet, tcp) && 0 <= i < upstreams@.len()
            && has_end(packet, tcp, #[trigger] upstreams@[i].port) implies run(filter, packet)
        == Some(256u32) by {
        law_upstream_packets_are_kept(upstreams@, filter, packet, tcp, i);
    }
    if known.len() <= 32 && (forall|i: int|
        0 <= i < upstreams@.len() ==> known.contains((#[trigger] upstreams@[i]).port)) {
        law_other_packets_are_dropped(upstreams@, filter, packet, known);
    }
}

/// A socket that cannot be opened fails as such, with what the system reports, and
/// so does an interface that cannot be found, with its own failure; there is
/// nothing to close. A socket that cannot be bound is closed, and then it fails
/// as one that could not be bound.
pub proof fn law_opening_fails_early(
    upstreams: &[SocketAddr],
    unfound: SnifferError,
    ifindex: i32,
    fd: i32,
    bound: i32,
    errors: (IoFailure, IoFailure),
    start: (OpenState, OpenStep),
    no_interface: (OpenState, OpenStep),
    socket: (OpenState, OpenStep),
    after_socket: (OpenState, OpenStep),
    after_bind: (OpenState, OpenStep),
    after_close: (OpenState, OpenStep),
)
    requires
        upstreams@.len() > 0,
        call_ensures(open_first, (upstreams,), start),
        call_ensures(
            open_next,
            (start.0, OpenEvent::InterfaceFound(Err(unfound)), upstreams),
            no_interface,
        ),
        call_ensures(
            open_next,
            (start.0, OpenEvent::InterfaceFound(Ok(ifindex)), upstreams),
            socket,
        ),
        call_ensures(
            open_next,
            (socket.0, OpenEvent::SocketOpened { fd, last_os_error: errors.0 }, upstreams),
            after_socket,
        ),
        fd >= 0 ==> call_ensures(
            open_next,
            (after_socket.0, OpenEvent::Bound { result: bound }, upstreams),
            after_bind,
        ),
        fd >= 0 && bound < 0 ==> call_ensures(
            open_next,
            (after_bind.0, OpenEvent::Closed { last_os_error: errors.1 }, upstreams),
            after_close,
        ),
    ensures
        no_interface.1 == OpenStep::Fail(unfound),
        fd < 0 ==> after_socket.1 == OpenStep::Fail(SnifferError::SocketOpen(errors.0)),
        fd >= 0 && bound < 0 ==> (after_bind.1 matches OpenStep::Close { fd: closed } && closed
            == fd) && after_close.1 == OpenStep::Fail(SnifferError::SocketBind(errors.1)),
{
}

/// A socket to which the filter cannot be attached fails as such, and is not
/// closed. One for which there is no waker is closed, and then it fails as one
/// that could not be opened.
pub proof fn law_opening_fails_late(
    upstreams: &[SocketAddr],
    ifindex: i32,
    fd: i32,
    bound: i32,
    attached: i32,
    wake_fd: i32,
    errors: (IoFailure, IoFailure, IoFailure),
    start: (OpenState, OpenStep),
    socket: (OpenState, OpenStep),
    binding: (OpenState, OpenStep),
    timing: (OpenState, OpenStep),
    filtering: (OpenState, OpenStep),
    after_filter: (OpenState, OpenStep),
    after_waker: (OpenState, OpenStep),
    after_close: (OpenState, OpenStep),
)
    requires
        upstreams@.len() > 0,
        call_ensures(open_first, (upstreams,), start),
        call_ensures(
            open_next,
            (start.0, OpenEvent::InterfaceFound(Ok(ifindex)), upstreams),
            socket,
        ),
        fd >= 0,
        call_ensures(
            open_next,
            (socket.0, OpenEvent::SocketOpened { fd, last_os_error: errors.0 }, upstreams),
            binding,
        ),
        bound >= 0,
        call_ensures(
            open_next,
            (binding.0, OpenEvent::Bound { result: bound }, upstreams),
            timing,
        ),
        call_ensures(open_next, (timing.0, OpenEvent::TimeoutSet, upstreams), filtering),
        call_ensures(
            open_next,
            (
                filtering.0,
                OpenEvent::FilterAttached { result: attached, last_os_error: errors.1 },
                upstreams,
            ),
            after_filter,
        ),
        attached >= 0 ==> call_ensures(
            open_next,
            (after_filter.0, OpenEvent::WakerMade { wake_fd }, upstreams),
            after_waker,
        ),
        attached >= 0 && wake_fd < 0 ==> call_ensures(
            open_next,
            (after_waker.0, OpenEvent::Closed { last_os_error: errors.2 }, upstreams),
            after_close,
        ),
    ensures
        attached < 0 ==> after_filter.1 == OpenStep::Fail(SnifferError::FilterAttach(errors.1)),
        attached >= 0 && wake_fd < 0 ==> (after_waker.1 matches OpenStep::Close { fd: closed }
            && closed == fd) && after_close.1 == OpenStep::Fail(
            SnifferError::SocketOpen(errors.2),
        ),
{
}

/// A number in network order reads back as the number, the first byte counting
/// 256-fold.
pub proof fn law_network_order_reads_back(number: u16, bytes: [u8; 2])
    requires
        call_ensures(network_order, (number,), bytes),
    ensures
        bytes@.len() == 2,
        bytes@[0] * 256 + bytes@[1] == number,
{
}

/// The socket is bound to every Ethernet type of an interface. A frame goes out on
/// the interface that is given, as IPv4, to the six bytes that it starts with.
pub proof fn law_link_addresses(
    ifindex: i32,
    frame: &[u8],
    bound: LinkAddress,
    sent: LinkAddress,
)
    requires
        frame@.len() >= 6,
        call_ensures(bind_address, (ifindex,), bound),
        call_ensures(frame_address, (ifindex, frame), sent),
    ensures
        bound.family == 17 && sent.family == 17,
        bound.ifindex == ifindex && sent.ifindex == ifindex,
        bound.protocol@ == seq![0u8, 3u8],
        sent.protocol@ == seq![8u8, 0u8],
        bound.halen == 0,
        forall|i: int| 0 <= i < 8 ==> #[trigger] bound.addr@[i] == 0,
        sent.halen == 6,
        forall|i: int| 0 <= i < 6 ==> #[trigger] sent.addr@[i] == frame@[i],
        sent.addr@[6] == 0 && sent.addr@[7] == 0,
{
    assert(in_network_order(3) =~= seq![0u8, 3u8]);
    assert(in_network_order(0x0800) =~= seq![8u8, 0u8]);
}

/// What follows a wait. One that failed is taken up again where it was interrupted,
/// and otherwise its failure is reported; one without events is reported as a
/// failure by time. Of the events, the waker's comes first, whatever the socket
/// reports, then the socket's; with neither, the wait is taken up again.
pub proof fn law_steps_after_a_wait(
    ready: i32,
    socket_events: i16,
    waker_events: i16,
    reported: IoFailure,
    step: RecvStep,
)
    requires
        call_ensures(after_poll, (ready, socket_events, waker_events, reported), step),
    ensures
        ready < 0 && reported.kind == IoErrorKind::Interrupted ==> step is Poll,
        ready < 0 && reported.kind != IoErrorKind::Interrupted ==> step == RecvStep::Fail(
            SnifferError::Recv(reported),
        ),
        ready == 0 ==> (step matches RecvStep::Fail(SnifferError::Recv(e)) && e.raw_os_error is None
            && e.kind == IoErrorKind::TimedOut && e.message@ == "receive timeout"@),
        ready > 0 && waker_events & 1 != 0 ==> step is DrainWaker,
        ready > 0 && waker_events & 1 == 0 && socket_events & 1 != 0 ==> step is Receive,
        ready > 0 && waker_events & 1 == 0 && socket_events & 1 == 0 ==> step is Poll,
{
}

/// A frame has the length that the system returned for it, and a negative number is
/// a failure, with what the system reports. So it is for a frame that is sent and a
/// filter that is attached; each failure is told by the step at which it came.
pub proof fn law_results_of_the_socket(
    returned: isize,
    attached_with: i32,
    reported: IoFailure,
    received: Result<usize, SnifferError>,
    sent: Result<(), SnifferError>,
    attached: Result<(), SnifferError>,
)
    requires
        call_ensures(after_receive, (returned, reported), received),
        call_ensures(after_send, (returned, reported), sent),
        call_ensures(after_attach, (attached_with, reported), attached),
    ensures
        match received {
            Ok(n) => n == returned,
            Err(e) => returned < 0 && e == SnifferError::Recv(reported),
        },
        match sent {
            Ok(_) => returned >= 0,
            Err(e) => returned < 0 && e == SnifferError::Inject(reported),
        },
        match attached {
            Ok(_) => attached_with >= 0,
            Err(e) => attached_with < 0 && e == SnifferError::FilterAttach(reported),
        },
{
}

/// The waker is read until a read fails, and a wake-up is then reported as a frame
/// of no bytes.
pub proof fn law_drained_until_a_read_fails(
    returned: isize,
    again: bool,
    received: Result<usize, SnifferError>,
)
    requires
        call_ensures(drains_on, (returned,), again),
        call_ensures(after_wake_up, (), received),
    ensures
        again <==> returned >= 0,
        received matches Ok(n) && n == 0,
{
}

/// A wait for packets and a read of the socket last a tenth of a second each.
pub proof fn law_waits_are_a_tenth_of_a_second()
    ensures
        POLL_TIMEOUT_MS == 100,
        RECV_TIMEOUT_US == 1000 * POLL_TIMEOUT_MS,
{
}

} // verus!
