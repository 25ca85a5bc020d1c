use sniffer_core::error::{IoErrorKind, IoFailure};
use sniffer_core::relay::{
    after_pipe, clamp_pipe_size, copy_buffer_size, pipe_size, splice_result, with_idle_timeout,
    SpliceAction, SpliceOneWay, Waited,
};

fn os_error(code: i32) -> IoFailure {
    IoFailure { raw_os_error: Some(code), kind: IoErrorKind::Other, message: String::from("os") }
}

#[test]
fn pipe_sizes_stay_between_bounds() {
    assert_eq!(clamp_pipe_size(0), 4096);
    assert_eq!(clamp_pipe_size(4097), 4097);
    assert_eq!(clamp_pipe_size(usize::MAX), 1_048_576);
    assert_eq!(pipe_size(0), 4096);
    assert_eq!(pipe_size(64), 65_536);
    assert_eq!(pipe_size(1025), 1_048_576);
    assert_eq!(pipe_size(usize::MAX), 1_048_576);
    for kib in [0, 1, 4, 5, 1024, 5000] {
        assert_eq!(clamp_pipe_size(pipe_size(kib)), pipe_size(kib));
    }
}

#[test]
fn copy_buffers_are_counted_in_kib() {
    assert_eq!(copy_buffer_size(0), 0);
    assert_eq!(copy_buffer_size(16), 16_384);
}

#[test]
fn negative_splice_is_the_last_error() {
    assert_eq!(splice_result(0, os_error(5)).unwrap(), 0);
    assert_eq!(splice_result(17, os_error(5)).unwrap(), 17);
    assert_eq!(splice_result(-1, os_error(11)).unwrap_err().raw_os_error, Some(11));
}

#[test]
fn elapsed_wait_is_a_timeout() {
    let elapsed: Waited<usize> = Waited::Elapsed;
    let failure = with_idle_timeout(elapsed).unwrap_err();
    assert_eq!(failure.raw_os_error, None);
    assert_eq!(failure.kind, IoErrorKind::TimedOut);
    assert_eq!(failure.message, "relay idle timeout");
    assert_eq!(with_idle_timeout(Waited::Completed(Ok(3))).unwrap(), 3);
    let failed: Waited<usize> = Waited::Completed(Err(os_error(104)));
    assert_eq!(with_idle_timeout(failed).unwrap_err().raw_os_error, Some(104));
}

#[test]
fn every_byte_taken_is_delivered() {
    let mut relay = SpliceOneWay::new(8192);
    assert!(matches!(relay.next(), SpliceAction::Fill { limit: 8192 }));
    assert!(matches!(relay.after_fill(Ok(100)), SpliceAction::Drain { limit: 100 }));
    assert!(matches!(relay.next(), SpliceAction::Drain { limit: 100 }));
    assert!(matches!(relay.after_drain(Ok(30)), SpliceAction::Drain { limit: 70 }));
    assert_eq!(relay.delivered(), 30);
    assert!(matches!(relay.after_drain(Ok(70)), SpliceAction::Fill { limit: 8192 }));
    assert!(matches!(relay.after_fill(Ok(5)), SpliceAction::Drain { limit: 5 }));
    assert!(matches!(relay.after_drain(Ok(5)), SpliceAction::Fill { limit: 8192 }));
    assert!(matches!(relay.after_fill(Ok(0)), SpliceAction::Finish { total: 105 }));
}

#[test]
fn zero_bytes_written_is_a_failure() {
    let mut relay = SpliceOneWay::new(4096);
    relay.after_fill(Ok(10));
    match relay.after_drain(Ok(0)) {
        SpliceAction::Fail(failure) => {
            assert_eq!(failure.kind, IoErrorKind::WriteZero);
            assert_eq!(failure.message, "splice wrote zero bytes");
            assert_eq!(failure.raw_os_error, None);
        }
        other => panic!("{other:?}"),
    }
}

#[test]
fn failures_end_the_relay() {
    let mut relay = SpliceOneWay::new(4096);
    assert!(matches!(
        relay.after_fill(Err(os_error(104))),
        SpliceAction::Fail(IoFailure { raw_os_error: Some(104), .. })
    ));
    relay.after_fill(Ok(10));
    assert!(matches!(
        relay.after_drain(Err(os_error(32))),
        SpliceAction::Fail(IoFailure { raw_os_error: Some(32), .. })
    ));
    assert_eq!(relay.delivered(), 0);
}

#[test]
fn failed_pipe_is_the_last_error() {
    assert!(after_pipe(0, os_error(24)).is_ok());
    assert_eq!(after_pipe(-1, os_error(24)).unwrap_err().raw_os_error, Some(24));
}

#[test]
fn only_the_wait_for_the_source_has_the_idle_limit() {
    assert!(SpliceAction::Fill { limit: 1 }.has_idle_limit());
    assert!(!SpliceAction::Drain { limit: 1 }.has_idle_limit());
    assert!(!SpliceAction::Finish { total: 0 }.has_idle_limit());
    assert!(!SpliceAction::Fail(os_error(1)).has_idle_limit());
}

#[test]
fn bytes_arrive_in_order() {
    let source: Vec<u8> = (0..100).collect();
    let mut relay = SpliceOneWay::new(32);
    let mut pipe: Vec<u8> = Vec::new();
    let mut given: Vec<u8> = Vec::new();
    let mut taken = 0;
    let mut action = relay.next();
    let total = loop {
        action = match action {
            SpliceAction::Fill { limit } => {
                let n = limit.min(source.len() - taken);
                pipe.extend_from_slice(&source[taken..taken + n]);
                taken += n;
                relay.after_fill(Ok(n))
            }
            SpliceAction::Drain { limit } => {
                assert_eq!(limit, pipe.len());
                let n = limit.min(7);
                given.extend(pipe.drain(..n));
                relay.after_drain(Ok(n))
            }
            SpliceAction::Finish { total } => break total,
            SpliceAction::Fail(failure) => panic!("{failure:?}"),
        };
    };
    assert_eq!(total, 100);
    assert_eq!(given, source);
}
