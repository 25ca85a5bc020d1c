//! The listener: what is done with each connection that comes in, with each that
//! fails to, and with the tasks that serve them.

use vstd::prelude::*;

use crate::error::IoFailure;
use crate::platform::{emfile, enfile, FILE_TABLE_FULL, TOO_MANY_FILES};
use crate::text::join2;

verus! {

/// How loud a message is.
#[derive(Debug, Clone, Copy, PartialEq, Eq, Structural)]
pub enum LogLevel {
    Error,
    Warn,
}

/// A message for the log.
#[derive(Debug)]
pub struct LogRecord {
    pub level: LogLevel,
    pub message: String,
}

impl LogRecord {
    /// Whether this record has the level given, and a text of two parts.
    pub open spec fn says(self, level: LogLevel, what: Seq<char>, why: Seq<char>) -> bool {
        &&& self.level == level
        &&& self.message@ == what + why
    }
}

/// Why a task did not run to its end.
#[derive(Debug)]
pub struct TaskFailure {
    pub panicked: bool,
    pub message: String,
}

/// Whether an error says that no more files can be opened.
pub open spec fn fd_exhausted(error: IoFailure) -> bool {
    error.raw_os_error == Some(TOO_MANY_FILES) || error.raw_os_error == Some(FILE_TABLE_FULL)
}

/// Whether an error says that no more files can be opened.
pub fn is_fd_exhausted(error: &IoFailure) -> (exhausted: bool)
    ensures
        exhausted == fd_exhausted(*error),
        exhausted <==> error.raw_os_error == Some(24i32) || error.raw_os_error == Some(23i32),
{
    match error.raw_os_error {
        Some(code) => code == emfile() || code == enfile(),
        None => false,
    }
}

/// Whether a record, or none, is what is to be logged of a task's end: nothing
/// where it ran to its end, an error where it panicked, and otherwise a warning.
pub open spec fn reports_task(result: Result<(), TaskFailure>, record: Option<LogRecord>) -> bool {
    match result {
        Ok(_) => record is None,
        Err(e) => record matches Some(r) && if e.panicked {
            r.says(LogLevel::Error, "connection task panicked: "@, e.message@)
        } else {
            r.says(LogLevel::Warn, "connection task ended unexpectedly: "@, e.message@)
        },
    }
}

/// What is to be logged of a task's end.
pub fn log_task_result(result: Result<(), TaskFailure>) -> (record: Option<LogRecord>)
    ensures
        reports_task(result, record),
{
    match result {
        Ok(_) => None,
        Err(e) => {
            if e.panicked {
                Some(
                    LogRecord {
                        level: LogLevel::Error,
                        message: join2("connection task panicked: ", e.message.as_str()),
                    },
                )
            } else {
                Some(
                    LogRecord {
                        level: LogLevel::Warn,
                        message: join2("connection task ended unexpectedly: ", e.message.as_str()),
                    },
                )
            }
        },
    }
}

/// How long the listener rests when no more files can be opened, in milliseconds.
pub const EXHAUSTED_BACKOFF_MS: u64 = 500;

/// How long the listener rests after another failure, in milliseconds.
pub const FAILURE_BACKOFF_MS: u64 = 10;

/// What a listener is at.
#[derive(Debug, Clone, Copy, PartialEq, Eq, Structural)]
pub enum ListenerPhase {
    /// It takes connections.
    Accepting,
    /// It takes no more, and waits for the tasks that still run.
    Draining,
    /// It is done.
    Stopped,
}

/// What happens to a listener.
#[derive(Debug)]
pub enum ListenerEvent {
    /// A connection came in.
    Accepted,
    /// A connection failed to come in.
    AcceptFailed(IoFailure),
    /// A task ended.
    TaskEnded(Result<(), TaskFailure>),
    /// The listener was told to stop.
    Cancelled,
}

/// What a listener does next.
#[derive(Debug)]
pub enum ListenerAction {
    /// Start a task for the connection, then wait.
    Serve,
    /// Rest for so many milliseconds, then wait.
    Rest { millis: u64 },
    /// Wait for what happens next.
    Wait,
    /// Return.
    Stop,
}

/// What a listener does, and what it logs.
#[derive(Debug)]
pub struct Reaction {
    pub action: ListenerAction,
    pub record: Option<LogRecord>,
}

/// Where a listener stands: what it is at, and how many tasks run.
pub struct ListenerModel {
    pub phase: ListenerPhase,
    pub active: nat,
}

impl ListenerModel {
    /// A listener that was told to stop waits for the tasks that still run, if
    /// any.
    pub open spec fn winding_down(active: nat) -> ListenerModel {
        ListenerModel {
            phase: if active == 0 {
                ListenerPhase::Stopped
            } else {
                ListenerPhase::Draining
            },
            active,
        }
    }

    /// Where an event leaves a listener.
    pub open spec fn after(self, event: ListenerEvent) -> ListenerModel {
        match event {
            ListenerEvent::Accepted => ListenerModel { active: self.active + 1, ..self },
            ListenerEvent::AcceptFailed(_) => self,
            ListenerEvent::TaskEnded(_) => if self.phase == ListenerPhase::Accepting {
                ListenerModel { active: (self.active - 1) as nat, ..self }
            } else {
                Self::winding_down((self.active - 1) as nat)
            },
            ListenerEvent::Cancelled => Self::winding_down(self.active),
        }
    }

    /// Whether an event can happen to a listener: connections, failures and the
    /// order to stop while it takes connections, and the end of a task while one
    /// runs.
    pub open spec fn can_meet(self, event: ListenerEvent) -> bool {
        match event {
            ListenerEvent::TaskEnded(_) => self.phase != ListenerPhase::Stopped && self.active > 0,
            _ => self.phase == ListenerPhase::Accepting,
        }
    }

    /// Only a listener without tasks has stopped.
    pub open spec fn wf(self) -> bool {
        match self.phase {
            ListenerPhase::Accepting => true,
            ListenerPhase::Draining => self.active > 0,
            ListenerPhase::Stopped => self.active == 0,
        }
    }
}

/// A listener.
pub struct ListenerState {
    phase: ListenerPhase,
    active: usize,
}

impl View for ListenerState {
    type V = ListenerModel;

    closed spec fn view(&self) -> ListenerModel {
        ListenerModel { phase: self.phase, active: self.active as nat }
    }
}

impl ListenerState {
    /// A listener that was bound to its address, and that takes connections.
    pub fn new() -> (state: Self)
        ensures
            state@ == (ListenerModel { phase: ListenerPhase::Accepting, active: 0 }),
            state@.wf(),
    {
        ListenerState { phase: ListenerPhase::Accepting, active: 0 }
    }

    /// What follows from the attempt to bind to the address: a listener, or, where
    /// the attempt failed, an error for the log and no listener.
    pub fn after_bind(bound: Result<(), IoFailure>) -> (state: Result<Self, LogRecord>)
        ensures
            match bound {
                Ok(_) => state matches Ok(s) && s@ == (ListenerModel {
                    phase: ListenerPhase::Accepting,
                    active: 0,
                }) && s@.wf(),
                Err(e) => state matches Err(r) && r.says(
                    LogLevel::Error,
                    "failed to bind: "@,
                    e.message@,
                ),
            },
    {
        match bound {
            Ok(_) => Ok(Self::new()),
            Err(e) => Err(
                LogRecord {
                    level: LogLevel::Error,
                    message: join2("failed to bind: ", e.message.as_str()),
                },
            ),
        }
    }

    /// What the listener is at.
    pub fn phase(&self) -> (phase: ListenerPhase)
        ensures
            phase == self@.phase,
    {
        self.phase
    }

    /// How many tasks run.
    pub fn active(&self) -> (active: usize)
        ensures
            active == self@.active,
    {
        self.active
    }

    /// Whether the end of a task is among the things to wait for.
    pub fn awaits_tasks(&self) -> (awaits: bool)
        ensures
            awaits == (self@.active > 0),
    {
        self.active > 0
    }

    /// What the listener does about an event.
    pub fn react(&mut self, event: ListenerEvent) -> (reaction: Reaction)
        requires
            old(self)@.wf(),
            old(self)@.can_meet(event),
            event is Accepted ==> old(self)@.active < usize::MAX,
        ensures
            final(self)@ == old(self)@.after(event),
            final(self)@.wf(),
            match event {
                ListenerEvent::Accepted => reaction.action is Serve && reaction.record is None,
                ListenerEvent::AcceptFailed(e) => reaction.record matches Some(r) && (
                reaction.action matches ListenerAction::Rest { millis } && if fd_exhausted(e) {
                    millis == EXHAUSTED_BACKOFF_MS && r.says(
                        LogLevel::Warn,
                        "accept error (fd exhausted, backing off 500ms): "@,
                        e.message@,
                    )
                } else {
                    millis == FAILURE_BACKOFF_MS && r.says(
                        LogLevel::Error,
                        "accept error: "@,
                        e.message@,
                    )
                }),
                ListenerEvent::TaskEnded(result) => {
                    &&& reports_task(result, reaction.record)
                    &&& if final(self)@.phase == ListenerPhase::Stopped {
                        reaction.action is Stop
                    } else {
                        reaction.action is Wait
                    }
                },
                ListenerEvent::Cancelled => reaction.record is None && if final(self)@.phase
                    == ListenerPhase::Stopped {
                    reaction.action is Stop
                } else {
                    reaction.action is Wait
                },
            },
    {
        match event {
            ListenerEvent::Accepted => {
                self.active = self.active + 1;
                Reaction { action: ListenerAction::Serve, record: None }
            },
            ListenerEvent::AcceptFailed(e) => {
                if is_fd_exhausted(&e) {
                    let message = join2(
                        "accept error (fd exhausted, backing off 500ms): ",
                        e.message.as_str(),
                    );
                    Reaction {
                        action: ListenerAction::Rest { millis: EXHAUSTED_BACKOFF_MS },
                        record: Some(LogRecord { level: LogLevel::Warn, message }),
                    }
                } else {
                    let message = join2("accept error: ", e.message.as_str());
                    Reaction {
                        action: ListenerAction::Rest { millis: FAILURE_BACKOFF_MS },
                        record: Some(LogRecord { level: LogLevel::Error, message }),
                    }
                }
            },
            ListenerEvent::TaskEnded(result) => {
                self.active = self.active - 1;
                let record = log_task_result(result);
                let action = match self.phase {
                    ListenerPhase::Accepting => ListenerAction::Wait,
                    _ => self.wind_down(),
                };
                Reaction { action, record }
            },
            ListenerEvent::Cancelled => {
                let action = self.wind_down();
                Reaction { action, record: None }
            },
        }
    }

    fn wind_down(&mut self) -> (action: ListenerAction)
        ensures
            final(self)@ == ListenerModel::winding_down(old(self)@.active),
            old(self)@.active == 0 ==> action is Stop,
            old(self)@.active > 0 ==> action is Wait,
    {
        if self.active == 0 {
            self.phase = ListenerPhase::Stopped;
            ListenerAction::Stop
        } else {
            self.phase = ListenerPhase::Draining;
            ListenerAction::Wait
        }
    }
}

/// Where a series of events leaves a new listener.
pub open spec fn history(events: Seq<ListenerEvent>) -> ListenerModel
    decreases events.len(),
{
    if events.len() == 0 {
        ListenerModel { phase: ListenerPhase::Accepting, active: 0 }
    } else {
        history(events.drop_last()).after(events.last())
    }
}

/// Whether each event of a series could happen when it did.
pub open spec fn can_happen(events: Seq<ListenerEvent>) -> bool
    decreases events.len(),
{
    events.len() == 0 || {
        &&& can_happen(events.drop_last())
        &&& history(events.drop_last()).can_meet(events.last())
    }
}

/// How many connections came in.
pub open spec fn count_accepted(events: Seq<ListenerEvent>) -> nat
    decreases events.len(),
{
    if events.len() == 0 {
        0
    } else {
        count_accepted(events.drop_last()) + if events.last() is Accepted {
            1nat
        } else {
            0nat
        }
    }
}

/// How many tasks ended.
pub open spec fn count_ended(events: Seq<ListenerEvent>) -> nat
    decreases events.len(),
{
    if events.len() == 0 {
        0
    } else {
        count_ended(events.drop_last()) + if events.last() is TaskEnded {
            1nat
        } else {
            0nat
        }
    }
}

/// The tasks that run are those for the connections that came in, without those
/// that ended. So a listener stops only once every connection that it took has
/// been served to its end.
pub proof fn law_every_connection_is_drained(events: Seq<ListenerEvent>)
    requires
        can_happen(events),
    ensures
        history(events).wf(),
        count_accepted(events) == count_ended(events) + history(events).active,
        history(events).phase == ListenerPhase::Stopped ==> count_accepted(events) == count_ended(
            events,
        ),
    decreases events.len(),
{
    if events.len() > 0 {
        law_every_connection_is_drained(events.drop_last());
    }
}

/// Once it was told to stop, a listener takes no connection any more, and it has
/// stopped as soon as no task runs.
pub proof fn law_no_connection_after_cancellation(events: Seq<ListenerEvent>, told: int)
    requires
        can_happen(events),
        0 <= told < events.len(),
        events[told] is Cancelled,
    ensures
        history(events).phase != ListenerPhase::Accepting,
        history(events).active == 0 <==> history(events).phase == ListenerPhase::Stopped,
        forall|i: int| told < i < events.len() ==> (#[trigger] events[i]) is TaskEnded,
    decreases events.len(),
{
    law_every_connection_is_drained(events);
    if told < events.len() - 1 {
        law_no_connection_after_cancellation(events.drop_last(), told);
        assert forall|i: int| told < i < events.len() implies (
        #[trigger] events[i]) is TaskEnded by {
            if i < events.len() - 1 {
                assert(events.drop_last()[i] == events[i]);
            }
        }
    }
}

/// A listener takes connections until it is told to stop.
pub proof fn law_stops_only_when_told(events: Seq<ListenerEvent>)
    requires
        can_happen(events),
    ensures
        history(events).phase != ListenerPhase::Accepting ==> exists|i: int|
            0 <= i < events.len() && (#[trigger] events[i]) is Cancelled,
    decreases events.len(),
{
    if events.len() > 0 && history(events).phase != ListenerPhase::Accepting {
        let before = events.drop_last();
        law_stops_only_when_told(before);
        if history(before).phase != ListenerPhase::Accepting {
            let i = choose|i: int| 0 <= i < before.len() && (#[trigger] before[i]) is Cancelled;
            assert(events[i] is Cancelled);
        } else {
            assert(events[events.len() - 1] is Cancelled);
        }
    }
}

/// No more files can be opened where the system says so of this process or of
/// itself, and nowhere else; the kind and the text of an error do not count.
pub proof fn law_exhaustion_is_told_by_code(error: IoFailure, exhausted: bool)
    requires
        call_ensures(is_fd_exhausted, (&error,), exhausted),
    ensures
        error.raw_os_error is None ==> !exhausted,
        error.raw_os_error matches Some(code) ==> (exhausted <==> code == 23 || code == 24),
{
}

/// The end of a task is logged where it did not run to its end: as an error where it
/// panicked, and otherwise as a warning, with what is known of it.
pub proof fn law_task_ends_in_the_log(result: Result<(), TaskFailure>, record: Option<LogRecord>)
    requires
        call_ensures(log_task_result, (result,), record),
    ensures
        record is None <==> result is Ok,
        result matches Err(e) ==> {
            &&& e.panicked ==> record->0.level == LogLevel::Error && record->0.message@
                == "connection task panicked: "@ + e.message@
            &&& !e.panicked ==> record->0.level == LogLevel::Warn && record->0.message@
                == "connection task ended unexpectedly: "@ + e.message@
        },
{
}

/// A listener that was bound begins without tasks and takes connections; where it
/// cannot be bound, there is none, and the log says why, as an error.
pub proof fn law_listener_begins_bound(
    fresh: ListenerState,
    bound: Result<(), IoFailure>,
    begun: Result<ListenerState, LogRecord>,
    phase: ListenerPhase,
    active: usize,
    awaits: bool,
)
    requires
        call_ensures(ListenerState::new, (), fresh),
        call_ensures(ListenerState::after_bind, (bound,), begun),
        call_ensures(ListenerState::phase, (&fresh,), phase),
        call_ensures(ListenerState::active, (&fresh,), active),
        call_ensures(ListenerState::awaits_tasks, (&fresh,), awaits),
    ensures
        phase == ListenerPhase::Accepting && active == 0 && !awaits,
        begun is Ok <==> bound is Ok,
        begun matches Ok(state) ==> state@ == fresh@,
        bound matches Err(e) ==> begun->Err_0.level == LogLevel::Error && begun->Err_0.message@
            == "failed to bind: "@ + e.message@,
{
}

/// The end of a task is waited for exactly while tasks run, and what is said of the
/// number of tasks and of the phase is what they are.
pub proof fn law_tasks_are_awaited_while_they_run(
    state: ListenerState,
    phase: ListenerPhase,
    active: usize,
    awaits: bool,
)
    requires
        call_ensures(ListenerState::phase, (&state,), phase),
        call_ensures(ListenerState::active, (&state,), active),
        call_ensures(ListenerState::awaits_tasks, (&state,), awaits),
    ensures
        phase == state@.phase,
        active == state@.active,
        awaits <==> active > 0,
{
}

/// A connection is served, and nothing is logged of it. One that fails to come in
/// changes nothing; the listener rests for half a second where no more files can
/// be opened, with a warning, and for ten milliseconds otherwise, with an error.
pub proof fn law_connections_and_failures(
    accepting: &mut ListenerState,
    failing: &mut ListenerState,
    e: IoFailure,
    served: Reaction,
    rested: Reaction,
)
    requires
        call_ensures(ListenerState::react, (accepting, ListenerEvent::Accepted), served),
        call_ensures(ListenerState::react, (failing, ListenerEvent::AcceptFailed(e)), rested),
    ensures
        served.action is Serve && served.record is None,
        final(accepting)@.active == old(accepting)@.active + 1,
        final(accepting)@.phase == old(accepting)@.phase,
        final(failing)@ == old(failing)@,
        rested.action is Rest && rested.record is Some,
        e.raw_os_error == Some(23i32) || e.raw_os_error == Some(24i32) ==> {
            &&& rested.action->millis == 500
            &&& rested.record->0.level == LogLevel::Warn
            &&& rested.record->0.message@ == "accept error (fd exhausted, backing off 500ms): "@
                + e.message@
        },
        e.raw_os_error != Some(23i32) && e.raw_os_error != Some(24i32) ==> {
            &&& rested.action->millis == 10
            &&& rested.record->0.level == LogLevel::Error
            &&& rested.record->0.message@ == "accept error: "@ + e.message@
        },
{
}

/// Whether an event could happen after others, to a listener that was told of each:
/// tasks end that were started and have not ended yet, and all else happens only
/// before the order to stop. After the order, nothing happens once no task runs.
pub open spec fn could_happen_next(before: Seq<ListenerEvent>, event: ListenerEvent) -> bool {
    match event {
        ListenerEvent::TaskEnded(_) => count_ended(before) < count_accepted(before),
        _ => forall|i: int| 0 <= i < before.len() ==> !((#[trigger] before[i]) is Cancelled),
    }
}

/// A listener that is told of each thing that happens to it. Its tasks are those
/// for the connections that came in, without those that ended. It starts a task
/// for each connection, and for nothing else, and rests after a failure, and for
/// nothing else. It stops as soon as it was told to and every connection that came
/// in has been served to its end, and not before. The end of each task is in the
/// log where the task failed.
pub proof fn law_listener_serves_then_stops(
    listeners: Seq<ListenerModel>,
    events: Seq<ListenerEvent>,
    reactions: Seq<Reaction>,
)
    requires
        listeners.len() == events.len() + 1,
        reactions.len() == events.len(),
        exists|fresh: ListenerState|
            fresh@ == listeners[0] && #[trigger] call_ensures(ListenerState::new, (), fresh),
        forall|i: int|
            #![trigger events[i]]
            0 <= i < events.len() ==> could_happen_next(events.take(i), events[i]) && exists|
                listener: &mut ListenerState,
            |
                (*listener)@ == listeners[i] && final(listener)@ == listeners[i + 1]
                    && #[trigger] call_ensures(
                    ListenerState::react,
                    (listener, events[i]),
                    reactions[i],
                ),
    ensures
        count_accepted(events) == count_ended(events) + listeners.last().active,
        listeners.last().phase == ListenerPhase::Accepting <==> forall|i: int|
            0 <= i < events.len() ==> !((#[trigger] events[i]) is Cancelled),
        listeners.last().phase == ListenerPhase::Stopped <==> (exists|i: int|
            0 <= i < events.len() && (#[trigger] events[i]) is Cancelled) && count_accepted(events)
            == count_ended(events),
        events.len() > 0 ==> {
            let event = events.last();
            let reaction = reactions.last();
            &&& reaction.action is Serve <==> event is Accepted
            &&& reaction.action is Rest <==> event is AcceptFailed
            &&& reaction.action is Stop <==> (exists|i: int|
                0 <= i < events.len() && (#[trigger] events[i]) is Cancelled) && count_accepted(
                events,
            ) == count_ended(events)
            &&& event matches ListenerEvent::TaskEnded(result) ==> (reaction.record is Some
                <==> result is Err)
            &&& event matches ListenerEvent::TaskEnded(Err(e)) ==> {
                &&& e.panicked ==> reaction.record->0.level == LogLevel::Error
                    && reaction.record->0.message@ == "connection task panicked: "@ + e.message@
                &&& !e.panicked ==> reaction.record->0.level == LogLevel::Warn
                    && reaction.record->0.message@ == "connection task ended unexpectedly: "@
                    + e.message@
            }
            &&& event is Accepted || event is Cancelled ==> reaction.record is None
        },
    decreases events.len(),
{
    if events.len() > 0 {
        let n = events.len() - 1;
        let fewer = events.drop_last();
        let stood = listeners.drop_last();
        let earlier = reactions.drop_last();
        assert forall|i: int| #![trigger fewer[i]] 0 <= i < fewer.len() implies could_happen_next(
            fewer.take(i),
            fewer[i],
        ) && exists|listener: &mut ListenerState|
            (*listener)@ == stood[i] && final(listener)@ == stood[i + 1]
                && #[trigger] call_ensures(
                ListenerState::react,
                (listener, fewer[i]),
                earlier[i],
            ) by {
            assert(events[i] == fewer[i]);
            assert(fewer.take(i) =~= events.take(i));
            assert(reactions[i] == earlier[i]);
            assert(listeners[i] == stood[i] && listeners[i + 1] == stood[i + 1]);
        }
        law_listener_serves_then_stops(stood, fewer, earlier);
        assert(events.take(n) =~= fewer);
        assert(events[n] == events.last());
        assert(could_happen_next(fewer, events[n]));
        assert(stood.last() == listeners[n]);
        assert(listeners.last() == listeners[n + 1]);
        if exists|i: int| 0 <= i < fewer.len() && (#[trigger] fewer[i]) is Cancelled {
            let i = choose|i: int| 0 <= i < fewer.len() && (#[trigger] fewer[i]) is Cancelled;
            assert(events[i] is Cancelled);
        } else {
            assert forall|i: int| 0 <= i < events.len() && !(events[n] is Cancelled) implies !((
            #[trigger] events[i]) is Cancelled) by {
                if i < n {
                    assert(fewer[i] == events[i]);
                }
            }
        }
    }
}

} // verus!
