//! The relay between a client and its upstream: how much is moved at a time, and
//! what is done next.

use vstd::prelude::*;

use crate::error::{IoErrorKind, IoFailure};

verus! {

/// The smallest pipe that is asked for, in bytes.
pub const MIN_PIPE_SIZE: usize = 4096;

/// The largest pipe that is asked for, in bytes.
pub const MAX_PIPE_SIZE: usize = 1048576;

/// A size brought between the smallest and the largest pipe.
pub open spec fn clamped(size: int) -> int {
    if size < MIN_PIPE_SIZE {
        MIN_PIPE_SIZE as int
    } else if size > MAX_PIPE_SIZE {
        MAX_PIPE_SIZE as int
    } else {
        size
    }
}

/// The size of pipe to ask for, where `requested_size` bytes are wanted.
pub fn clamp_pipe_size(requested_size: usize) -> (size: usize)
    ensures
        size == clamped(requested_size as int),
        requested_size < 4096 ==> size == 4096,
        4096 <= requested_size <= 1048576 ==> size == requested_size,
        requested_size > 1048576 ==> size == 1048576,
{
    if requested_size < MIN_PIPE_SIZE {
        MIN_PIPE_SIZE
    } else if requested_size > MAX_PIPE_SIZE {
        MAX_PIPE_SIZE
    } else {
        requested_size
    }
}

/// The size of pipe for a buffer of so many KiB. A buffer too large to count is
/// as good as the largest pipe.
pub fn pipe_size(buffer_size: usize) -> (size: usize)
    ensures
        size == clamped(buffer_size * 1024),
        buffer_size < 4 ==> size == 4096,
        4 <= buffer_size <= 1024 ==> size == buffer_size * 1024,
        buffer_size > 1024 ==> size == 1048576,
{
    match buffer_size.checked_mul(1024) {
        Some(size) => clamp_pipe_size(size),
        None => MAX_PIPE_SIZE,
    }
}

/// The size of buffer, in bytes, for a relay that copies: so many KiB.
pub fn copy_buffer_size(buffer_size: usize) -> (size: usize)
    requires
        buffer_size * 1024 <= usize::MAX,
    ensures
        size == buffer_size * 1024,
{
    buffer_size * 1024
}

/// What making a pipe came to.
pub fn after_pipe(result: i32, last_os_error: IoFailure) -> (made: Result<(), IoFailure>)
    ensures
        result < 0 ==> made == Err::<(), IoFailure>(last_os_error),
        result >= 0 ==> made is Ok,
{
    if result < 0 {
        Err(last_os_error)
    } else {
        Ok(())
    }
}

/// What a call of `splice` came to: the number of bytes moved, or, where it
/// returned a negative number, the failure that the system reports for it.
pub fn splice_result(result: isize, last_os_error: IoFailure) -> (moved: Result<usize, IoFailure>)
    ensures
        result < 0 ==> moved == Err::<usize, IoFailure>(last_os_error),
        result >= 0 ==> (moved matches Ok(n) && n == result),
{
    if result < 0 {
        Err(last_os_error)
    } else {
        Ok(result as usize)
    }
}

/// What came of a wait that may have a time limit.
#[derive(Debug)]
pub enum Waited<T> {
    /// The time limit passed first.
    Elapsed,
    Completed(Result<T, IoFailure>),
}

/// What a wait came to: a time limit that passed is a failure of its own.
pub fn with_idle_timeout<T>(waited: Waited<T>) -> (result: Result<T, IoFailure>)
    ensures
        match waited {
            Waited::Elapsed => result matches Err(e) && e.is_custom(
                IoErrorKind::TimedOut,
                "relay idle timeout"@,
            ),
            Waited::Completed(completed) => result == completed,
        },
{
    match waited {
        Waited::Elapsed => Err(IoFailure::new(IoErrorKind::TimedOut, "relay idle timeout")),
        Waited::Completed(completed) => completed,
    }
}

/// What to do next for one direction of a relay.
#[derive(Debug)]
pub enum SpliceAction {
    /// Move up to `limit` bytes from the source into the pipe.
    Fill { limit: usize },
    /// Move up to `limit` bytes from the pipe to the destination.
    Drain { limit: usize },
    /// The source has ended: end the writing side of the destination, and report
    /// how many bytes were relayed.
    Finish { total: u64 },
    /// Give up.
    Fail(IoFailure),
}

impl SpliceAction {
    /// Whether the wait for this action has the idle limit: that for the source
    /// does, that for the destination does not.
    pub fn has_idle_limit(&self) -> (limited: bool)
        ensures
            limited == (self is Fill),
    {
        match self {
            SpliceAction::Fill { .. } => true,
            _ => false,
        }
    }
}

/// Where one direction of a relay stands.
pub struct SpliceModel {
    /// How much is moved into the pipe at a time.
    pub pipe_size: usize,
    /// How many bytes the destination has taken.
    pub delivered: nat,
    /// How many bytes stand in the pipe.
    pub in_pipe: nat,
}

impl SpliceModel {
    /// After `n` bytes went into an empty pipe.
    pub open spec fn filled(self, n: nat) -> SpliceModel {
        SpliceModel { in_pipe: n, ..self }
    }

    /// After `n` bytes went from the pipe to the destination.
    pub open spec fn drained(self, n: nat) -> SpliceModel {
        SpliceModel {
            delivered: self.delivered + n,
            in_pipe: (self.in_pipe - n) as nat,
            ..self
        }
    }

    /// Whether an action is the next step: an empty pipe is filled, another is
    /// drained.
    pub open spec fn goes_on_with(self, action: SpliceAction) -> bool {
        if self.in_pipe == 0 {
            action matches SpliceAction::Fill { limit } && limit == self.pipe_size
        } else {
            action matches SpliceAction::Drain { limit } && limit == self.in_pipe
        }
    }
}

/// One direction of a relay, which moves bytes from a source into a pipe and from
/// the pipe to a destination.
pub struct SpliceOneWay {
    pipe_size: usize,
    total: u64,
    remaining: usize,
}

impl View for SpliceOneWay {
    type V = SpliceModel;

    closed spec fn view(&self) -> SpliceModel {
        SpliceModel {
            pipe_size: self.pipe_size,
            delivered: self.total as nat,
            in_pipe: self.remaining as nat,
        }
    }
}

impl SpliceOneWay {
    /// A relay that has moved nothing yet.
    pub fn new(pipe_size: usize) -> (relay: Self)
        ensures
            relay@ == (SpliceModel { pipe_size, delivered: 0, in_pipe: 0 }),
    {
        SpliceOneWay { pipe_size, total: 0, remaining: 0 }
    }

    /// How many bytes the destination has taken.
    pub fn delivered(&self) -> (total: u64)
        ensures
            total == self@.delivered,
    {
        self.total
    }

    /// What to do next.
    pub fn next(&self) -> (action: SpliceAction)
        ensures
            self@.goes_on_with(action),
            self@.in_pipe == 0 ==> (action matches SpliceAction::Fill { limit } && limit
                == self@.pipe_size),
            self@.in_pipe > 0 ==> (action matches SpliceAction::Drain { limit } && limit
                == self@.in_pipe),
    {
        if self.remaining == 0 {
            SpliceAction::Fill { limit: self.pipe_size }
        } else {
            SpliceAction::Drain { limit: self.remaining }
        }
    }

    /// What to do after the pipe was filled from the source. No bytes at all mean
    /// that the source has ended.
    pub fn after_fill(&mut self, moved: Result<usize, IoFailure>) -> (action: SpliceAction)
        requires
            old(self)@.in_pipe == 0,
        ensures
            match moved {
                Err(e) => action == SpliceAction::Fail(e) && final(self)@ == old(self)@,
                Ok(n) => {
                    &&& final(self)@ == old(self)@.filled(n as nat)
                    &&& if n == 0 {
                        action matches SpliceAction::Finish { total } && total
                            == old(self)@.delivered
                    } else {
                        final(self)@.goes_on_with(action)
                    }
                },
            },
            action is Finish <==> (moved matches Ok(n) && n == 0),
            moved matches Ok(n) ==> (n > 0 ==> (action matches SpliceAction::Drain { limit }
                && limit == n)),
    {
        match moved {
            Err(e) => SpliceAction::Fail(e),
            Ok(n) => {
                if n == 0 {
                    SpliceAction::Finish { total: self.total }
                } else {
                    self.remaining = n;
                    self.next()
                }
            },
        }
    }

    /// What to do after the pipe was drained into the destination. A destination
    /// that takes nothing is a failure.
    pub fn after_drain(&mut self, moved: Result<usize, IoFailure>) -> (action: SpliceAction)
        requires
            old(self)@.in_pipe > 0,
            moved matches Ok(n) ==> n <= old(self)@.in_pipe && old(self)@.delivered + n
                <= u64::MAX,
        ensures
            match moved {
                Err(e) => action == SpliceAction::Fail(e) && final(self)@ == old(self)@,
                Ok(n) => {
                    &&& final(self)@ == old(self)@.drained(n as nat)
                    &&& if n == 0 {
                        action matches SpliceAction::Fail(e) && e.is_custom(
                            IoErrorKind::WriteZero,
                            "splice wrote zero bytes"@,
                        )
                    } else {
                        final(self)@.goes_on_with(action)
                    }
                },
            },
            !(action is Finish),
            moved matches Ok(n) ==> (0 < n < old(self)@.in_pipe ==> (
            action matches SpliceAction::Drain { limit } && limit == old(self)@.in_pipe - n)),
            moved matches Ok(n) ==> (n == old(self)@.in_pipe ==> (
            action matches SpliceAction::Fill { limit } && limit == old(self)@.pipe_size)),
    {
        match moved {
            Err(e) => SpliceAction::Fail(e),
            Ok(n) => {
                if n == 0 {
                    SpliceAction::Fail(
                        IoFailure::new(IoErrorKind::WriteZero, "splice wrote zero bytes"),
                    )
                } else {
                    self.remaining = self.remaining - n;
                    self.total = self.total + n as u64;
                    self.next()
                }
            },
        }
    }
}

/// A move of bytes that succeeded.
pub enum SpliceMove {
    Filled(nat),
    Drained(nat),
}

/// Where a relay stands after a series of moves.
pub open spec fn replay(pipe_size: usize, moves: Seq<SpliceMove>) -> SpliceModel
    decreases moves.len(),
{
    if moves.len() == 0 {
        SpliceModel { pipe_size, delivered: 0, in_pipe: 0 }
    } else {
        let before = replay(pipe_size, moves.drop_last());
        match moves.last() {
            SpliceMove::Filled(n) => before.filled(n),
            SpliceMove::Drained(n) => before.drained(n),
        }
    }
}

/// Whether each move of a series is the one that was due: only an empty pipe is
/// filled, and no more is drained than the pipe holds.
pub open spec fn is_due(pipe_size: usize, moves: Seq<SpliceMove>) -> bool
    decreases moves.len(),
{
    moves.len() == 0 || {
        let before = replay(pipe_size, moves.drop_last());
        &&& is_due(pipe_size, moves.drop_last())
        &&& match moves.last() {
            SpliceMove::Filled(n) => before.in_pipe == 0,
            SpliceMove::Drained(n) => n <= before.in_pipe,
        }
    }
}

/// How many bytes a series of moves took from the source.
pub open spec fn bytes_taken(moves: Seq<SpliceMove>) -> nat
    decreases moves.len(),
{
    if moves.len() == 0 {
        0
    } else {
        bytes_taken(moves.drop_last()) + match moves.last() {
            SpliceMove::Filled(n) => n,
            SpliceMove::Drained(_) => 0,
        }
    }
}

/// How many bytes a series of moves gave to the destination.
pub open spec fn bytes_given(moves: Seq<SpliceMove>) -> nat
    decreases moves.len(),
{
    if moves.len() == 0 {
        0
    } else {
        bytes_given(moves.drop_last()) + match moves.last() {
            SpliceMove::Filled(_) => 0,
            SpliceMove::Drained(n) => n,
        }
    }
}

/// No byte is lost and none is made up: what was taken from the source is what
/// was given to the destination and what stands in the pipe, and the count of
/// delivered bytes is what the destination was given. So a relay that finishes,
/// with an empty pipe, has delivered all that it took.
pub proof fn law_no_byte_is_lost(pipe_size: usize, moves: Seq<SpliceMove>)
    requires
        is_due(pipe_size, moves),
    ensures
        replay(pipe_size, moves).delivered == bytes_given(moves),
        bytes_taken(moves) == bytes_given(moves) + replay(pipe_size, moves).in_pipe,
    decreases moves.len(),
{
    if moves.len() > 0 {
        law_no_byte_is_lost(pipe_size, moves.drop_last());
    }
}

/// Bringing a size between the bounds twice is the same as doing it once.
pub proof fn law_clamping_twice(size: int)
    ensures
        clamped(clamped(size)) == clamped(size),
        MIN_PIPE_SIZE <= clamped(size) <= MAX_PIPE_SIZE,
{
}

/// A move that succeeded, with the bytes that went into the pipe, or the number of
/// those that came out of it.
pub enum ByteMove {
    Filled(Seq<u8>),
    Drained(nat),
}

impl ByteMove {
    /// The move as a count.
    pub open spec fn counted(self) -> SpliceMove {
        match self {
            ByteMove::Filled(bytes) => SpliceMove::Filled(bytes.len()),
            ByteMove::Drained(n) => SpliceMove::Drained(n),
        }
    }
}

/// The moves as counts.
pub open spec fn counted(moves: Seq<ByteMove>) -> Seq<SpliceMove> {
    moves.map_values(|m: ByteMove| m.counted())
}

/// The bytes that a destination was given and those that stand in the pipe. What
/// went into the pipe first comes out of it first.
pub struct Flow {
    pub given: Seq<u8>,
    pub pipe: Seq<u8>,
}

/// Where a series of moves leaves the bytes.
pub open spec fn flow(moves: Seq<ByteMove>) -> Flow
    decreases moves.len(),
{
    if moves.len() == 0 {
        Flow { given: Seq::empty(), pipe: Seq::empty() }
    } else {
        let before = flow(moves.drop_last());
        match moves.last() {
            ByteMove::Filled(bytes) => Flow { given: before.given, pipe: before.pipe + bytes },
            ByteMove::Drained(n) => Flow {
                given: before.given + before.pipe.take(n as int),
                pipe: before.pipe.skip(n as int),
            },
        }
    }
}

/// The bytes that a series of moves took from the source.
pub open spec fn source_bytes(moves: Seq<ByteMove>) -> Seq<u8>
    decreases moves.len(),
{
    if moves.len() == 0 {
        Seq::empty()
    } else {
        match moves.last() {
            ByteMove::Filled(bytes) => source_bytes(moves.drop_last()) + bytes,
            ByteMove::Drained(_) => source_bytes(moves.drop_last()),
        }
    }
}

/// Given that a pipe hands out its bytes in the order in which they went in, what
/// was taken from the source is what the destination was given and then what
/// stands in the pipe, byte for byte and in order, and the counts of a relay are
/// the numbers of these bytes. So a relay that finishes, with an empty pipe, has
/// given the destination exactly what the source sent.
pub proof fn law_bytes_keep_their_order(pipe_size: usize, moves: Seq<ByteMove>)
    requires
        is_due(pipe_size, counted(moves)),
    ensures
        source_bytes(moves) == flow(moves).given + flow(moves).pipe,
        replay(pipe_size, counted(moves)).delivered == flow(moves).given.len(),
        replay(pipe_size, counted(moves)).in_pipe == flow(moves).pipe.len(),
        replay(pipe_size, counted(moves)).in_pipe == 0 ==> flow(moves).given == source_bytes(moves),
    decreases moves.len(),
{
    if moves.len() > 0 {
        let shorter = moves.drop_last();
        assert(counted(shorter) =~= counted(moves).drop_last());
        law_bytes_keep_their_order(pipe_size, shorter);
        assert(counted(moves).last() == moves.last().counted());
        match moves.last() {
            ByteMove::Filled(bytes) => {},
            ByteMove::Drained(n) => {
                let pipe = flow(shorter).pipe;
                assert(pipe.take(n as int) + pipe.skip(n as int) =~= pipe);
            },
        }
    }
    assert(source_bytes(moves) =~= flow(moves).given + flow(moves).pipe);
}

/// How many bytes the moves of a run took from the source: `actions[i]` is what
/// was to be done, and `moved[i]` what came of it.
pub open spec fn run_taken(
    actions: Seq<SpliceAction>,
    moved: Seq<Result<usize, IoFailure>>,
) -> nat
    decreases moved.len(),
{
    if moved.len() == 0 {
        0
    } else {
        run_taken(actions, moved.drop_last()) + match (actions[moved.len() - 1], moved.last()) {
            (SpliceAction::Fill { .. }, Ok(n)) => n as nat,
            _ => 0,
        }
    }
}

/// How many bytes the moves of a run gave to the destination.
pub open spec fn run_given(
    actions: Seq<SpliceAction>,
    moved: Seq<Result<usize, IoFailure>>,
) -> nat
    decreases moved.len(),
{
    if moved.len() == 0 {
        0
    } else {
        run_given(actions, moved.drop_last()) + match (actions[moved.len() - 1], moved.last()) {
            (SpliceAction::Drain { .. }, Ok(n)) => n as nat,
            _ => 0,
        }
    }
}

/// A run of a relay: it is made, asked what to do first, and told what came of
/// each action that it asked for, which moves no more than the action allows.
///
/// It drains exactly what it took and has not given yet, and fills an empty pipe
/// only. It finishes where a fill finds that the source has ended, and then the
/// destination was given all that was taken, and the total says so. It gives up
/// where a move fails, with that failure, and where the destination takes nothing.
pub proof fn law_run_delivers_what_it_took(
    pipe_size: usize,
    relays: Seq<SpliceModel>,
    actions: Seq<SpliceAction>,
    moved: Seq<Result<usize, IoFailure>>,
)
    requires
        relays.len() == actions.len() == moved.len() + 1,
        exists|relay: SpliceOneWay|
            relay@ == relays[0] && #[trigger] call_ensures(
                SpliceOneWay::new,
                (pipe_size,),
                relay,
            ) && call_ensures(SpliceOneWay::next, (&relay,), actions[0]),
        forall|i: int|
            #![trigger moved[i]]
            0 <= i < moved.len() ==> match actions[i] {
                SpliceAction::Fill { limit } => exists|relay: &mut SpliceOneWay|
                    (*relay)@ == relays[i] && final(relay)@ == relays[i + 1]
                        && #[trigger] call_ensures(
                        SpliceOneWay::after_fill,
                        (relay, moved[i]),
                        actions[i + 1],
                    ),
                SpliceAction::Drain { limit } => (moved[i] matches Ok(n) ==> n <= limit) && exists|
                    relay: &mut SpliceOneWay,
                |
                    (*relay)@ == relays[i] && final(relay)@ == relays[i + 1]
                        && #[trigger] call_ensures(
                        SpliceOneWay::after_drain,
                        (relay, moved[i]),
                        actions[i + 1],
                    ),
                _ => false,
            },
    ensures
        match actions.last() {
            SpliceAction::Fill { limit } => limit == pipe_size && run_taken(actions, moved)
                == run_given(actions, moved),
            SpliceAction::Drain { limit } => limit > 0 && run_taken(actions, moved) == run_given(
                actions,
                moved,
            ) + limit,
            SpliceAction::Finish { total } => {
                &&& total == run_taken(actions, moved)
                &&& total == run_given(actions, moved)
                &&& moved.len() > 0 && actions[moved.len() - 1] is Fill
                &&& moved.last() == Ok::<usize, IoFailure>(0)
            },
            SpliceAction::Fail(e) => moved.len() > 0 && match moved.last() {
                Err(failure) => e == failure,
                Ok(n) => {
                    &&& n == 0
                    &&& actions[moved.len() - 1] is Drain
                    &&& e.kind == IoErrorKind::WriteZero
                    &&& e.message@ == "splice wrote zero bytes"@
                },
            },
        },
        moved.len() > 0 && (moved.last() matches Ok(n) && n > 0) ==> actions.last() is Fill
            || actions.last() is Drain,
        relays.last().pipe_size == pipe_size,
        relays.last().delivered == run_given(actions, moved),
        relays.last().delivered + relays.last().in_pipe == run_taken(actions, moved),
    decreases moved.len(),
{
    if moved.len() > 0 {
        let n = moved.len() - 1;
        let shorter = moved.drop_last();
        let asked = actions.drop_last();
        let stood = relays.drop_last();
        assert forall|i: int| #![trigger shorter[i]] 0 <= i < shorter.len() implies match asked[i] {
            SpliceAction::Fill { limit } => exists|relay: &mut SpliceOneWay|
                (*relay)@ == stood[i] && final(relay)@ == stood[i + 1] && #[trigger] call_ensures(
                    SpliceOneWay::after_fill,
                    (relay, shorter[i]),
                    asked[i + 1],
                ),
            SpliceAction::Drain { limit } => (shorter[i] matches Ok(n) ==> n <= limit) && exists|
                relay: &mut SpliceOneWay,
            |
                (*relay)@ == stood[i] && final(relay)@ == stood[i + 1] && #[trigger] call_ensures(
                    SpliceOneWay::after_drain,
                    (relay, shorter[i]),
                    asked[i + 1],
                ),
            _ => false,
        } by {
            assert(moved[i] == shorter[i]);
            assert(actions[i] == asked[i] && actions[i + 1] == asked[i + 1]);
            assert(relays[i] == stood[i] && relays[i + 1] == stood[i + 1]);
        }
        law_run_delivers_what_it_took(pipe_size, stood, asked, shorter);
        lemma_run_prefix(actions, asked, shorter);
        assert(moved[n] == moved.last());
        assert(asked.last() == actions[n]);
        assert(actions.last() == actions[n + 1]);
    }
}

/// What was moved does not depend on actions that come later.
proof fn lemma_run_prefix(
    a: Seq<SpliceAction>,
    b: Seq<SpliceAction>,
    moved: Seq<Result<usize, IoFailure>>,
)
    requires
        moved.len() <= a.len(),
        moved.len() <= b.len(),
        forall|i: int| 0 <= i < moved.len() ==> a[i] == b[i],
    ensures
        run_taken(a, moved) == run_taken(b, moved),
        run_given(a, moved) == run_given(b, moved),
    decreases moved.len(),
{
    if moved.len() > 0 {
        lemma_run_prefix(a, b, moved.drop_last());
    }
}

/// A relay that was just made has delivered nothing, and begins with filling the
/// pipe, as far as it goes.
pub proof fn law_relay_begins_with_a_fill(
    pipe_size: usize,
    relay: SpliceOneWay,
    action: SpliceAction,
    delivered: u64,
)
    requires
        call_ensures(SpliceOneWay::new, (pipe_size,), relay),
        call_ensures(SpliceOneWay::next, (&relay,), action),
        call_ensures(SpliceOneWay::delivered, (&relay,), delivered),
    ensures
        action matches SpliceAction::Fill { limit } && limit == pipe_size,
        delivered == 0,
{
}

/// After a fill, all that went into the pipe is to be drained; a fill of nothing,
/// and no other, finishes the relay; a failure is passed on.
pub proof fn law_what_was_filled_is_drained(
    relay: &mut SpliceOneWay,
    moved: Result<usize, IoFailure>,
    action: SpliceAction,
)
    requires
        call_ensures(SpliceOneWay::after_fill, (relay, moved), action),
    ensures
        match moved {
            Ok(n) => if n == 0 {
                action matches SpliceAction::Finish { total } && total == old(relay)@.delivered
            } else {
                action matches SpliceAction::Drain { limit } && limit == n
            },
            Err(e) => action == SpliceAction::Fail(e),
        },
        final(relay)@.delivered == old(relay)@.delivered,
        final(relay)@.pipe_size == old(relay)@.pipe_size,
{
}

/// After a drain, what is left in the pipe is to be drained, and an empty pipe is
/// to be filled; a drain never finishes the relay, and one of nothing fails.
pub proof fn law_what_is_left_is_drained(
    relay: &mut SpliceOneWay,
    moved: Result<usize, IoFailure>,
    action: SpliceAction,
)
    requires
        call_ensures(SpliceOneWay::after_drain, (relay, moved), action),
        old(relay)@.in_pipe > 0,
        moved matches Ok(n) ==> n <= old(relay)@.in_pipe,
    ensures
        match moved {
            Ok(n) => {
                &&& final(relay)@.delivered == old(relay)@.delivered + n
                &&& final(relay)@.in_pipe == old(relay)@.in_pipe - n
                &&& n == 0 ==> (action matches SpliceAction::Fail(e) && e.raw_os_error is None
                    && e.kind == IoErrorKind::WriteZero && e.message@ == "splice wrote zero bytes"@)
                &&& 0 < n < old(relay)@.in_pipe ==> (action matches SpliceAction::Drain { limit }
                    && limit == old(relay)@.in_pipe - n)
                &&& n == old(relay)@.in_pipe ==> (action matches SpliceAction::Fill { limit }
                    && limit == old(relay)@.pipe_size)
            },
            Err(e) => action == SpliceAction::Fail(e) && final(relay)@ == old(relay)@,
        },
        final(relay)@.pipe_size == old(relay)@.pipe_size,
{
}

/// What a relay says it delivered, and what it does next, follow from its counts:
/// it drains all that stands in the pipe, and fills only an empty one.
pub proof fn law_full_pipe_is_drained(relay: SpliceOneWay, action: SpliceAction, delivered: u64)
    requires
        call_ensures(SpliceOneWay::next, (&relay,), action),
        call_ensures(SpliceOneWay::delivered, (&relay,), delivered),
    ensures
        delivered == relay@.delivered,
        action is Fill || action is Drain,
        action is Fill <==> relay@.in_pipe == 0,
        action matches SpliceAction::Fill { limit } ==> limit == relay@.pipe_size,
        action matches SpliceAction::Drain { limit } ==> limit == relay@.in_pipe,
{
}

/// A pipe has between 4 KiB and 1 MiB; between these, the size is the one that
/// was asked for, and a size that is larger never yields a smaller pipe.
pub proof fn law_pipe_sizes(asked1: usize, size1: usize, asked2: usize, size2: usize)
    requires
        call_ensures(clamp_pipe_size, (asked1,), size1),
        call_ensures(clamp_pipe_size, (asked2,), size2),
    ensures
        4096 <= size1 <= 1048576,
        4096 <= asked1 <= 1048576 <==> size1 == asked1,
        asked1 <= asked2 ==> size1 <= size2,
{
}

/// A buffer of so many KiB has a pipe of as many, between 4 and 1024, and asking
/// once more for the size of that pipe changes nothing.
pub proof fn law_pipe_of_buffer(buffer_size: usize, size: usize, again: usize)
    requires
        call_ensures(pipe_size, (buffer_size,), size),
        call_ensures(clamp_pipe_size, (size,), again),
    ensures
        4 <= buffer_size <= 1024 ==> size == 1024 * buffer_size,
        buffer_size < 4 ==> size == 4096,
        buffer_size > 1024 ==> size == 1048576,
        again == size,
{
}

/// A relay that copies has a buffer of as many KiB as it is told, without bounds.
pub proof fn law_copy_buffer(buffer_size: usize, size: usize)
    requires
        buffer_size * 1024 <= usize::MAX,
        call_ensures(copy_buffer_size, (buffer_size,), size),
    ensures
        size == 1024 * buffer_size,
{
}

/// A call of the system failed where it returned a negative number, and nowhere
/// else, and then what it failed with is what the system reports; where it did not
/// fail, the number of bytes is the number that it returned.
pub proof fn law_system_calls(
    returned: isize,
    made_with: i32,
    reported: IoFailure,
    moved: Result<usize, IoFailure>,
    made: Result<(), IoFailure>,
)
    requires
        call_ensures(splice_result, (returned, reported), moved),
        call_ensures(after_pipe, (made_with, reported), made),
    ensures
        match moved {
            Ok(n) => n == returned,
            Err(e) => returned < 0 && e == reported,
        },
        match made {
            Ok(_) => made_with >= 0,
            Err(e) => made_with < 0 && e == reported,
        },
{
}

/// A wait whose time limit passed is a failure by time, told as an idle relay; one
/// that came to its end has the result that it came to.
pub proof fn law_idle_relay_times_out<T>(
    completed: Result<T, IoFailure>,
    late: Result<T, IoFailure>,
    in_time: Result<T, IoFailure>,
)
    requires
        call_ensures(with_idle_timeout::<T>, (Waited::Elapsed,), late),
        call_ensures(with_idle_timeout::<T>, (Waited::Completed(completed),), in_time),
    ensures
        in_time == completed,
        late matches Err(e) && e.raw_os_error is None && e.kind == IoErrorKind::TimedOut
            && e.message@ == "relay idle timeout"@,
{
}

/// The wait for the source has the idle limit, and no other has.
pub proof fn law_only_the_source_may_idle(action: SpliceAction, limited: bool)
    requires
        call_ensures(SpliceAction::has_idle_limit, (&action,), limited),
    ensures
        match action {
            SpliceAction::Fill { .. } => limited,
            SpliceAction::Drain { .. } => !limited,
            SpliceAction::Finish { .. } => !limited,
            SpliceAction::Fail(_) => !limited,
        },
{
}

} // verus!
