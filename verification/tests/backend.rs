use sniffer_core::backend::{
    after_attach, after_poll, after_receive, after_send, after_wake_up, bind_address, drains_on, frame_address,
    network_order, open_first, open_next, OpenEvent, OpenState, OpenStep, Opened, RecvStep,
};
use sniffer_core::error::{IoErrorKind, IoFailure, SnifferError};
use sniffer_core::filter::build_bpf_filter;
use sniffer_core::net::{IpAddr, SocketAddr};

fn os_error(code: i32) -> IoFailure {
    IoFailure { raw_os_error: Some(code), kind: IoErrorKind::Other, message: String::from("os") }
}

fn upstreams() -> Vec<SocketAddr> {
    vec![
        SocketAddr { ip: IpAddr::V4(0xc000_0201), port: 443 },
        SocketAddr { ip: IpAddr::V6(1), port: 8443 },
    ]
}

#[test]
fn addresses_are_in_network_order() {
    assert_eq!(network_order(0x1234), [0x12, 0x34]);
    let address = bind_address(3);
    assert_eq!(address.family, libc::AF_PACKET as u16);
    assert_eq!(address.ifindex, 3);
    assert_eq!(u16::from_ne_bytes(address.protocol), (libc::ETH_P_ALL as u16).to_be());
    assert_eq!(address.halen, 0);
    assert_eq!(address.addr, [0; 8]);
}

#[test]
fn frames_go_to_the_address_they_start_with() {
    let frame = [1, 2, 3, 4, 5, 6, 7, 8, 9];
    let address = frame_address(-4, &frame);
    assert_eq!(address.family, libc::AF_PACKET as u16);
    assert_eq!(address.ifindex, -4);
    assert_eq!(u16::from_ne_bytes(address.protocol), (libc::ETH_P_IP as u16).to_be());
    assert_eq!(address.halen, 6);
    assert_eq!(address.addr, [1, 2, 3, 4, 5, 6, 0, 0]);
}

#[test]
fn results_of_system_calls() {
    assert!(after_send(0, os_error(1)).is_ok());
    assert!(matches!(after_send(-1, os_error(1)), Err(SnifferError::Inject(e)) if e.raw_os_error == Some(1)));
    assert_eq!(after_receive(60, os_error(1)).unwrap(), 60);
    assert!(matches!(after_receive(-1, os_error(2)), Err(SnifferError::Recv(e)) if e.raw_os_error == Some(2)));
    assert!(after_attach(0, os_error(1)).is_ok());
    assert!(matches!(after_attach(-1, os_error(3)), Err(SnifferError::FilterAttach(e)) if e.raw_os_error == Some(3)));
    assert!(drains_on(8));
    assert!(drains_on(0));
    assert!(!drains_on(-1));
}

#[test]
fn wake_ups_come_before_frames() {
    let readable = libc::POLLIN;
    assert!(matches!(after_poll(2, readable, readable, os_error(0)), RecvStep::DrainWaker));
    assert!(matches!(after_poll(1, 0, readable, os_error(0)), RecvStep::DrainWaker));
    assert!(matches!(after_poll(1, readable, 0, os_error(0)), RecvStep::Receive));
    assert!(matches!(after_poll(1, libc::POLLERR, libc::POLLERR, os_error(0)), RecvStep::Poll));
}

#[test]
fn failed_polls() {
    let interrupted = IoFailure { kind: IoErrorKind::Interrupted, ..os_error(4) };
    assert!(matches!(after_poll(-1, 0, 0, interrupted), RecvStep::Poll));
    assert!(matches!(
        after_poll(-1, 0, 0, os_error(9)),
        RecvStep::Fail(SnifferError::Recv(e)) if e.raw_os_error == Some(9)
    ));
    match after_poll(0, 1, 1, os_error(0)) {
        RecvStep::Fail(SnifferError::Recv(e)) => {
            assert_eq!(e.kind, IoErrorKind::TimedOut);
            assert_eq!(e.message, "receive timeout");
            assert_eq!(e.raw_os_error, None);
        }
        other => panic!("{other:?}"),
    }
}

/// Opens the socket up to the bind.
fn socket_open(upstreams: &[SocketAddr]) -> (OpenState, OpenStep) {
    let (state, step) = open_first(upstreams);
    assert!(matches!(step, OpenStep::FindInterface { ip: IpAddr::V4(0xc000_0201) }));
    let (state, step) = open_next(state, OpenEvent::InterfaceFound(Ok(3)), upstreams);
    match step {
        OpenStep::OpenSocket { protocol } => assert_eq!(protocol, [0, 3]),
        other => panic!("{other:?}"),
    }
    open_next(state, OpenEvent::SocketOpened { fd: 7, last_os_error: os_error(0) }, upstreams)
}

/// Opens the socket up to the waker.
fn filter_attached(upstreams: &[SocketAddr], result: i32) -> (OpenState, OpenStep) {
    let (state, step) = socket_open(upstreams);
    match step {
        OpenStep::Bind { fd: 7, address } => assert_eq!(address.ifindex, 3),
        other => panic!("{other:?}"),
    }
    let (state, step) = open_next(state, OpenEvent::Bound { result: 0 }, upstreams);
    assert!(matches!(step, OpenStep::SetTimeout { fd: 7, micros: 100_000 }));
    let (state, step) = open_next(state, OpenEvent::TimeoutSet, upstreams);
    match step {
        OpenStep::AttachFilter { fd: 7, filter } => {
            assert_eq!(filter, build_bpf_filter(upstreams).unwrap())
        }
        other => panic!("{other:?}"),
    }
    open_next(
        state,
        OpenEvent::FilterAttached { result, last_os_error: os_error(22) },
        upstreams,
    )
}

#[test]
fn socket_opens_step_by_step() {
    let upstreams = upstreams();
    let (state, step) = filter_attached(&upstreams, 0);
    assert!(matches!(step, OpenStep::MakeWaker));
    let (state, step) = open_next(state, OpenEvent::WakerMade { wake_fd: 8 }, &upstreams);
    let opened = Opened { fd: 7, ifindex: 3, wake_fd: 8 };
    assert_eq!(state, OpenState::Ready(opened));
    assert!(matches!(step, OpenStep::Done(done) if done == opened));
}

#[test]
fn interface_and_socket_failures_end_the_attempt() {
    let upstreams = upstreams();
    let (state, _) = open_first(&upstreams);
    let missing = SnifferError::Other(String::from("none"));
    let (failed, step) = open_next(state, OpenEvent::InterfaceFound(Err(missing)), &upstreams);
    assert_eq!(failed, OpenState::Failed);
    assert!(matches!(step, OpenStep::Fail(SnifferError::Other(text)) if text == "none"));

    let (state, _) = open_next(state, OpenEvent::InterfaceFound(Ok(3)), &upstreams);
    let refused = OpenEvent::SocketOpened { fd: -1, last_os_error: os_error(1) };
    let (failed, step) = open_next(state, refused, &upstreams);
    assert_eq!(failed, OpenState::Failed);
    assert!(matches!(step, OpenStep::Fail(SnifferError::SocketOpen(e)) if e.raw_os_error == Some(1)));
}

#[test]
fn socket_is_closed_where_bind_or_waker_fails() {
    let upstreams = upstreams();
    let (state, _) = socket_open(&upstreams);
    let (state, step) = open_next(state, OpenEvent::Bound { result: -1 }, &upstreams);
    assert!(matches!(step, OpenStep::Close { fd: 7 }));
    let closed = OpenEvent::Closed { last_os_error: os_error(19) };
    let (state, step) = open_next(state, closed, &upstreams);
    assert_eq!(state, OpenState::Failed);
    assert!(matches!(step, OpenStep::Fail(SnifferError::SocketBind(e)) if e.raw_os_error == Some(19)));

    let (state, _) = filter_attached(&upstreams, 0);
    let (state, step) = open_next(state, OpenEvent::WakerMade { wake_fd: -1 }, &upstreams);
    assert!(matches!(step, OpenStep::Close { fd: 7 }));
    let closed = OpenEvent::Closed { last_os_error: os_error(24) };
    let (state, step) = open_next(state, closed, &upstreams);
    assert_eq!(state, OpenState::Failed);
    assert!(matches!(step, OpenStep::Fail(SnifferError::SocketOpen(e)) if e.raw_os_error == Some(24)));
}

#[test]
fn filter_that_cannot_be_attached_fails_at_once() {
    let upstreams = upstreams();
    let (state, step) = filter_attached(&upstreams, -1);
    assert_eq!(state, OpenState::Failed);
    assert!(matches!(step, OpenStep::Fail(SnifferError::FilterAttach(e)) if e.raw_os_error == Some(22)));
}

#[test]
fn wake_up_is_an_empty_frame() {
    assert_eq!(after_wake_up().unwrap(), 0);
}

#[test]
fn many_wake_ups_become_one() {
    // A counter that a read clears, and that cannot be read while it is zero.
    let mut counter = 5u64;
    let mut read = || {
        if counter > 0 {
            counter = 0;
            8
        } else {
            -1
        }
    };
    assert!(matches!(after_poll(1, 0, libc::POLLIN, os_error(0)), RecvStep::DrainWaker));
    let mut reads = 1;
    while drains_on(read()) {
        reads += 1;
    }
    assert_eq!(reads, 2);
    assert_eq!(counter, 0);
    assert!(matches!(
        after_poll(0, 0, 0, os_error(0)),
        RecvStep::Fail(SnifferError::Recv(e)) if e.kind == IoErrorKind::TimedOut
    ));
}
