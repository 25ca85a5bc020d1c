use sniffer_core::error::{IoErrorKind, IoFailure};
use sniffer_core::listener::{
    is_fd_exhausted, log_task_result, ListenerAction, ListenerEvent, ListenerPhase, ListenerState,
    LogLevel, TaskFailure,
};

fn failure(raw_os_error: Option<i32>) -> IoFailure {
    IoFailure { raw_os_error, kind: IoErrorKind::Other, message: String::from("why") }
}

fn task_failure(panicked: bool) -> TaskFailure {
    TaskFailure { panicked, message: String::from("task 7") }
}

#[test]
fn only_full_file_tables_exhaust() {
    assert!(is_fd_exhausted(&failure(Some(libc::EMFILE))));
    assert!(is_fd_exhausted(&failure(Some(libc::ENFILE))));
    assert!(!is_fd_exhausted(&failure(Some(libc::ECONNABORTED))));
    assert!(!is_fd_exhausted(&failure(None)));
}

#[test]
fn task_results_are_logged_by_kind() {
    assert!(log_task_result(Ok(())).is_none());

    let panicked = log_task_result(Err(task_failure(true))).unwrap();
    assert_eq!(panicked.level, LogLevel::Error);
    assert_eq!(panicked.message, "connection task panicked: task 7");

    let ended = log_task_result(Err(task_failure(false))).unwrap();
    assert_eq!(ended.level, LogLevel::Warn);
    assert_eq!(ended.message, "connection task ended unexpectedly: task 7");
}

#[test]
fn failed_bind_leaves_no_listener() {
    let record = match ListenerState::after_bind(Err(failure(Some(98)))) {
        Err(record) => record,
        Ok(_) => panic!("bound"),
    };
    assert_eq!(record.level, LogLevel::Error);
    assert_eq!(record.message, "failed to bind: why");

    let state = match ListenerState::after_bind(Ok(())) {
        Ok(state) => state,
        Err(record) => panic!("{record:?}"),
    };
    assert_eq!(state.phase(), ListenerPhase::Accepting);
    assert_eq!(state.active(), 0);
    assert!(!state.awaits_tasks());
}

#[test]
fn accept_failures_rest_by_kind() {
    let mut state = ListenerState::new();
    let reaction = state.react(ListenerEvent::AcceptFailed(failure(Some(libc::EMFILE))));
    assert!(matches!(reaction.action, ListenerAction::Rest { millis: 500 }));
    let record = reaction.record.unwrap();
    assert_eq!(record.level, LogLevel::Warn);
    assert_eq!(record.message, "accept error (fd exhausted, backing off 500ms): why");

    let reaction = state.react(ListenerEvent::AcceptFailed(failure(None)));
    assert!(matches!(reaction.action, ListenerAction::Rest { millis: 10 }));
    let record = reaction.record.unwrap();
    assert_eq!(record.level, LogLevel::Error);
    assert_eq!(record.message, "accept error: why");
    assert_eq!(state.phase(), ListenerPhase::Accepting);
}

#[test]
fn cancelled_listener_drains_its_tasks() {
    let mut state = ListenerState::new();
    for _ in 0..3 {
        let reaction = state.react(ListenerEvent::Accepted);
        assert!(matches!(reaction.action, ListenerAction::Serve));
        assert!(reaction.record.is_none());
    }
    assert!(state.awaits_tasks());
    let reaction = state.react(ListenerEvent::TaskEnded(Ok(())));
    assert!(matches!(reaction.action, ListenerAction::Wait));
    assert_eq!(state.active(), 2);

    let reaction = state.react(ListenerEvent::Cancelled);
    assert!(matches!(reaction.action, ListenerAction::Wait));
    assert_eq!(state.phase(), ListenerPhase::Draining);

    let reaction = state.react(ListenerEvent::TaskEnded(Err(task_failure(true))));
    assert!(matches!(reaction.action, ListenerAction::Wait));
    assert_eq!(reaction.record.unwrap().level, LogLevel::Error);

    let reaction = state.react(ListenerEvent::TaskEnded(Ok(())));
    assert!(matches!(reaction.action, ListenerAction::Stop));
    assert_eq!(state.phase(), ListenerPhase::Stopped);
    assert_eq!(state.active(), 0);
}

#[test]
fn idle_listener_stops_at_once() {
    let mut state = ListenerState::new();
    let reaction = state.react(ListenerEvent::Cancelled);
    assert!(matches!(reaction.action, ListenerAction::Stop));
    assert_eq!(state.phase(), ListenerPhase::Stopped);
}

#[test]
fn listener_goes_on_until_it_is_told_to_stop() {
    let mut state = ListenerState::new();
    state.react(ListenerEvent::Accepted);
    state.react(ListenerEvent::AcceptFailed(failure(None)));
    state.react(ListenerEvent::TaskEnded(Err(task_failure(false))));
    assert_eq!(state.phase(), ListenerPhase::Accepting);
    assert_eq!(state.active(), 0);
}
