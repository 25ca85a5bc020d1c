use std::sync::atomic::{AtomicUsize, Ordering};
use std::sync::{Arc, Mutex};

use sniffer_core::net::IpAddr;
use sniffer_core::proto::{
    ConnId, Deregistration, Registration, SnifferCommand, SnifferCommandSender, SnifferResult,
    SnifferWaker,
};

struct CountingWaker(AtomicUsize);

impl SnifferWaker for CountingWaker {
    fn wake(&self) {
        self.0.fetch_add(1, Ordering::Relaxed);
    }
}

fn ip(text: &str) -> IpAddr {
    let octets: Vec<u8> = text.split('.').map(|octet| octet.parse().unwrap()).collect();
    IpAddr::V4(u32::from_be_bytes([octets[0], octets[1], octets[2], octets[3]]))
}

fn conn_id() -> ConnId {
    ConnId { src_ip: ip("127.0.0.1"), src_port: 12345, dst_ip: ip("127.0.0.2"), dst_port: 443 }
}

#[test]
fn command_sender_wakes_after_enqueuing() {
    let (inner, receiver) = std::sync::mpsc::channel();
    let waker = Arc::new(CountingWaker(AtomicUsize::new(0)));
    let sender = SnifferCommandSender::new(inner, Some(waker.clone()));
    let conn_id = ConnId {
        src_ip: ip("127.0.0.1"),
        src_port: 12345,
        dst_ip: ip("127.0.0.2"),
        dst_port: 443,
    };

    sender
        .send(SnifferCommand::Deregister(Deregistration { conn_id }))
        .unwrap();

    assert!(matches!(
        receiver.try_recv(),
        Ok(SnifferCommand::Deregister(Deregistration { conn_id: received })) if received == conn_id
    ));
    assert_eq!(waker.0.load(Ordering::Relaxed), 1);
}

#[test]
fn sender_without_waker_still_enqueues() {
    let (inner, receiver) = std::sync::mpsc::channel();
    let sender = SnifferCommandSender::new(inner, None);

    let outcome = sender.settle(Ok(()));
    assert!(outcome.result.is_ok());
    assert!(!outcome.wake);

    sender
        .send(SnifferCommand::Deregister(Deregistration { conn_id: conn_id() }))
        .unwrap();
    assert!(receiver.try_recv().is_ok());
    assert!(receiver.try_recv().is_err());
}

#[test]
fn refused_command_comes_back_and_wakes_nobody() {
    let (inner, receiver) = std::sync::mpsc::channel();
    let waker = Arc::new(CountingWaker(AtomicUsize::new(0)));
    let sender = SnifferCommandSender::new(inner, Some(waker.clone()));
    drop(receiver);

    let refused = sender
        .send(SnifferCommand::Deregister(Deregistration { conn_id: conn_id() }))
        .unwrap_err();

    assert!(matches!(
        refused.0,
        SnifferCommand::Deregister(Deregistration { conn_id: returned }) if returned == conn_id()
    ));
    assert_eq!(waker.0.load(Ordering::Relaxed), 0);
}

#[test]
fn settling_tells_whom_to_wake() {
    let (inner, _receiver) = std::sync::mpsc::channel();
    let waker = Arc::new(CountingWaker(AtomicUsize::new(0)));
    let sender = SnifferCommandSender::new(inner, Some(waker));

    let taken = sender.settle(Ok(()));
    assert!(taken.wake);
    assert!(taken.result.is_ok());

    let refused =
        sender.settle(Err(SnifferCommand::Deregister(Deregistration { conn_id: conn_id() })));
    assert!(!refused.wake);
    assert!(matches!(
        refused.result.unwrap_err().0,
        SnifferCommand::Deregister(Deregistration { conn_id: returned }) if returned == conn_id()
    ));
}

#[test]
fn cloned_sender_shares_channel_and_waker() {
    let (inner, receiver) = std::sync::mpsc::channel();
    let waker = Arc::new(CountingWaker(AtomicUsize::new(0)));
    let sender = SnifferCommandSender::new(inner, Some(waker.clone()));
    let copy = sender.clone();
    drop(sender);

    copy.send(SnifferCommand::Deregister(Deregistration { conn_id: conn_id() })).unwrap();

    assert!(receiver.try_recv().is_ok());
    assert_eq!(waker.0.load(Ordering::Relaxed), 1);
}

#[test]
fn registration_arrives_with_its_channels() {
    let (inner, receiver) = std::sync::mpsc::channel();
    let sender = SnifferCommandSender::new(inner, None);
    let (result_tx, mut result_rx) = tokio::sync::mpsc::channel(1);
    let (registered_tx, mut registered_rx) = tokio::sync::oneshot::channel();
    let fake_payload: Arc<[u8]> = vec![22, 3, 1].into();

    sender
        .send(SnifferCommand::Register(Registration {
            conn_id: conn_id(),
            fake_payload,
            result_tx,
            registered_tx,
        }))
        .unwrap();

    match receiver.try_recv().unwrap() {
        SnifferCommand::Register(registration) => {
            assert_eq!(registration.conn_id, conn_id());
            assert_eq!(&registration.fake_payload[..], &[22, 3, 1]);
            registration.registered_tx.send(()).unwrap();
            registration.result_tx.try_send(SnifferResult::FakeConfirmed).unwrap();
        }
        SnifferCommand::Deregister(_) => panic!("not what was sent"),
    }
    assert_eq!(registered_rx.try_recv(), Ok(()));
    assert!(matches!(result_rx.try_recv(), Ok(SnifferResult::FakeConfirmed)));
}

/// Looks into the channel each time it is called.
struct PeekingWaker {
    receiver: Mutex<std::sync::mpsc::Receiver<SnifferCommand>>,
    found: AtomicUsize,
    called: AtomicUsize,
}

impl SnifferWaker for PeekingWaker {
    fn wake(&self) {
        self.called.fetch_add(1, Ordering::Relaxed);
        if self.receiver.lock().unwrap().try_recv().is_ok() {
            self.found.fetch_add(1, Ordering::Relaxed);
        }
    }
}

#[test]
fn waker_finds_the_command_in_the_channel() {
    let (inner, receiver) = std::sync::mpsc::channel();
    let waker = Arc::new(PeekingWaker {
        receiver: Mutex::new(receiver),
        found: AtomicUsize::new(0),
        called: AtomicUsize::new(0),
    });
    let sender = SnifferCommandSender::new(inner, Some(waker.clone()));

    sender.send(SnifferCommand::Deregister(Deregistration { conn_id: conn_id() })).unwrap();

    assert_eq!(waker.called.load(Ordering::Relaxed), 1);
    assert_eq!(waker.found.load(Ordering::Relaxed), 1);
}

#[test]
fn each_command_wakes_once_also_through_clones() {
    let (inner, receiver) = std::sync::mpsc::channel();
    let waker = Arc::new(CountingWaker(AtomicUsize::new(0)));
    let sender = SnifferCommandSender::new(inner, Some(waker.clone()));
    let senders = [sender.clone(), sender.clone(), sender];

    for round in 0..6u16 {
        let conn_id = ConnId { src_port: round, ..conn_id() };
        senders[usize::from(round) % 3]
            .send(SnifferCommand::Deregister(Deregistration { conn_id }))
            .unwrap();
        assert_eq!(waker.0.load(Ordering::Relaxed), usize::from(round) + 1);
    }

    for round in 0..6u16 {
        assert!(matches!(
            receiver.try_recv(),
            Ok(SnifferCommand::Deregister(Deregistration { conn_id })) if conn_id.src_port == round
        ));
    }
    assert!(receiver.try_recv().is_err());
}
