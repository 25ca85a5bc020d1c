//! The commands that connection handlers send to the sniffer.

use std::sync::Arc;

use vstd::prelude::*;

use crate::handoff::{
    channel_answers, channel_takes, hand_over, lemma_slot_is_its_waker,
    lemma_slot_tells_of_its_waker, History, WakerSlot,
};
use crate::net::IpAddr;

verus! {

/// Wakes the sniffer from its wait for packets.
pub trait SnifferWaker: Send + Sync {
    /// That the waker was called. What this comes to is for each waker to say; a
    /// waker that says nothing more has it as it stands here.
    open spec fn woken(&self) -> bool {
        true
    }

    fn wake(&self)
        ensures
            self.woken(),
    ;
}

/// `tokio::sync::mpsc::Sender`, which a registration carries.
#[verifier::external_type_specification]
#[verifier::external_body]
#[verifier::reject_recursive_types(T)]
pub struct ExResultChannel<T>(tokio::sync::mpsc::Sender<T>);

/// `tokio::sync::oneshot::Sender`, which a registration carries.
#[verifier::external_type_specification]
#[verifier::external_body]
#[verifier::reject_recursive_types(T)]
pub struct ExNotice<T>(tokio::sync::oneshot::Sender<T>);

/// The two ends of a TCP connection.
#[derive(Debug, Clone, Copy, PartialEq, Eq, Hash, Structural)]
pub struct ConnId {
    pub src_ip: IpAddr,
    pub src_port: u16,
    pub dst_ip: IpAddr,
    pub dst_port: u16,
}

/// How the sniffer fared with a connection.
#[derive(Debug)]
pub enum SnifferResult {
    FakeConfirmed,
    Failed(String),
}

/// Asks the sniffer to watch a connection.
#[derive(Debug)]
pub struct Registration {
    pub conn_id: ConnId,
    pub fake_payload: Arc<[u8]>,
    pub result_tx: tokio::sync::mpsc::Sender<SnifferResult>,
    pub registered_tx: tokio::sync::oneshot::Sender<()>,
}

/// Asks the sniffer to forget a connection.
#[derive(Debug)]
pub struct Deregistration {
    pub conn_id: ConnId,
}

/// What can be asked of the sniffer.
#[derive(Debug)]
pub enum SnifferCommand {
    Register(Registration),
    Deregister(Deregistration),
}

/// A command that could not be sent, for the sniffer has gone.
#[derive(Debug)]
pub struct SendError<C = SnifferCommand>(pub C);

/// What is left to do once the channel has taken or refused a command.
#[derive(Debug)]
pub struct SendOutcome<C = SnifferCommand> {
    /// What the caller is told.
    pub result: Result<(), SendError<C>>,
    /// Whether the sniffer is to be woken.
    pub wake: bool,
}

/// Sends commands to the sniffer, and wakes it.
///
/// A sender knows nothing of what a command is, and so works for commands of any
/// type.
#[verifier::reject_recursive_types(C)]
pub struct SnifferCommandSender<C = SnifferCommand> {
    inner: std::sync::mpsc::Sender<C>,
    waker: WakerSlot,
}

impl<C> SnifferCommandSender<C> {
    /// The channel that commands go into.
    pub closed spec fn channel(self) -> std::sync::mpsc::Sender<C> {
        self.inner
    }

    /// Who wakes the sniffer.
    pub closed spec fn waker(self) -> Option<Arc<dyn SnifferWaker>> {
        self.waker.waker()
    }

    pub fn new(inner: std::sync::mpsc::Sender<C>, waker: Option<Arc<dyn SnifferWaker>>) -> (sender:
        Self)
        ensures
            sender.channel() == inner,
            sender.waker() == waker,
    {
        SnifferCommandSender { inner, waker: WakerSlot::new(waker) }
    }

    /// Whether the waker was called, where there is one.
    pub closed spec fn waker_woken(self) -> bool {
        self.waker.woken()
    }

    /// Whether the channel's answer to a command calls for a wake-up: it took the
    /// command, and there is a waker.
    pub open spec fn wake_is_due(self, sent: Result<(), C>) -> bool {
        sent is Ok && self.waker() is Some
    }

    /// Whether the waker was called for a command that the channel had taken by
    /// then.
    pub closed spec fn roused_for(self, command: C) -> bool {
        self.waker.called_for(self.inner, command)
    }

    /// Whether a result is what sending a command comes to: the channel is handed
    /// the command, and either takes it, and then the waker is called for it where
    /// there is one, or refuses it, and then it comes back.
    pub open spec fn sends(self, command: C, result: Result<(), SendError<C>>) -> bool {
        match result {
            Ok(_) => {
                &&& channel_takes(self.channel(), command)
                &&& self.waker() is Some ==> self.roused_for(command) && self.waker_woken()
            },
            Err(e) => e.0 == command && channel_answers(self.channel(), command, Err(command)),
        }
    }

    /// Whether sending a command came to a result, and the history of what was
    /// taken went from `before` to `after` by it.
    pub open spec fn sends_noting(
        self,
        command: C,
        result: Result<(), SendError<C>>,
        before: Seq<(std::sync::mpsc::Sender<C>, C)>,
        after: Seq<(std::sync::mpsc::Sender<C>, C)>,
    ) -> bool {
        exists|old_history: History<C>, new_history: History<C>|
            old_history@ == before && new_history@ == after && #[trigger] call_ensures(
                Self::send_noting,
                (&self, command, old_history),
                (result, new_history),
            )
    }

    /// What follows from the channel's answer: a command that was taken wakes the
    /// sniffer where there is a waker; one that was refused goes back to the
    /// caller, and nobody is woken.
    pub fn settle(&self, sent: Result<(), C>) -> (outcome: SendOutcome<C>)
        ensures
            outcome.wake == self.wake_is_due(sent),
            match sent {
                Ok(_) => outcome.result is Ok,
                Err(refused) => outcome.result == Err::<(), SendError<C>>(SendError(refused)),
            },
    {
        match sent {
            Ok(_) => SendOutcome { result: Ok(()), wake: self.waker.is_filled() },
            Err(refused) => SendOutcome { result: Err(SendError(refused)), wake: false },
        }
    }

    /// Sends a command, then wakes the sniffer.
    ///
    /// The result is the channel's answer to this command, and a command that is
    /// refused comes back unchanged. Whether the channel refuses it depends on the
    /// receiving end alone. Once the channel has taken the command, and not
    /// before, the waker is called against the receipt for it. Nothing else is
    /// handed to any channel: of a history that was empty before, there is the
    /// command alone in the end, or nothing where it was refused.
    pub fn send(&self, command: C) -> (result: Result<(), SendError<C>>)
        ensures
            self.sends(command, result),
            self.sends_noting(
                command,
                result,
                Seq::empty(),
                if result is Ok {
                    seq![(self.channel(), command)]
                } else {
                    Seq::empty()
                },
            ),
    {
        let history = History::new();
        let ghost handed = command;
        let ghost before = history;
        // Called as a value, so that the history is known as one of this call.
        let send = Self::send_noting;
        let (result, after) = send(self, command, history);
        assert(call_ensures(Self::send_noting, (self, handed, before), (result, after)));
        assert(before@ =~= Seq::empty());
        result
    }

    /// Sends a command, and notes it in the history of what was taken.
    pub fn send_noting(&self, command: C, history: History<C>) -> (noted: (
        Result<(), SendError<C>>,
        History<C>,
    ))
        ensures
            self.sends(command, noted.0),
            noted.0 is Ok ==> noted.1@ == history@.push((self.channel(), command)),
            noted.0 is Err ==> noted.1@ == history@,
    {
        let (taken, history) = hand_over(&self.inner, command, history);
        let result = match taken {
            Ok(receipt) => {
                let outcome = self.settle(Ok(()));
                if outcome.wake {
                    self.waker.redeem(receipt);
                }
                outcome.result
            },
            Err(refused) => self.settle(Err(refused)).result,
        };
        (result, history)
    }
}

impl<C> Clone for SnifferCommandSender<C> {
    fn clone(&self) -> (copy: Self)
        ensures
            copy.channel() == self.channel(),
            copy.waker() == self.waker(),
    {
        SnifferCommandSender { inner: self.inner.clone(), waker: self.waker.share() }
    }
}

/// How many commands of a series were taken.
pub open spec fn count_taken<C>(results: Seq<Result<(), SendError<C>>>) -> nat
    decreases results.len(),
{
    if results.len() == 0 {
        0
    } else {
        count_taken(results.drop_last()) + if results.last() is Ok {
            1nat
        } else {
            0nat
        }
    }
}

/// How many commands of a series the waker of a sender was called for, once the
/// channel had taken them.
pub open spec fn count_roused<C>(
    sender: SnifferCommandSender<C>,
    commands: Seq<C>,
    results: Seq<Result<(), SendError<C>>>,
) -> nat
    decreases results.len(),
{
    if results.len() == 0 {
        0
    } else {
        count_roused(sender, commands, results.drop_last()) + if results.last() is Ok
            && sender.roused_for(commands[results.len() - 1]) {
            1nat
        } else {
            0nat
        }
    }
}

/// A sender and its clones share a channel and a waker. Whatever series of
/// commands is sent through them, each command that was taken had its own
/// wake-up, so none is saved up for a later one, and each that was refused came
/// back.
pub proof fn law_each_command_taken_wakes<C>(
    first: SnifferCommandSender<C>,
    senders: Seq<SnifferCommandSender<C>>,
    commands: Seq<C>,
    results: Seq<Result<(), SendError<C>>>,
)
    requires
        first.waker() is Some,
        senders.len() == results.len() == commands.len(),
        forall|i: int|
            #![trigger senders[i]]
            0 <= i < senders.len() ==> senders[i].channel() == first.channel()
                && senders[i].waker() == first.waker() && senders[i].sends(commands[i], results[i]),
    ensures
        count_roused(first, commands, results) == count_taken(results),
        forall|i: int|
            #![trigger results[i]]
            0 <= i < results.len() ==> match results[i] {
                Ok(_) => first.roused_for(commands[i]) && first.waker_woken(),
                Err(e) => e.0 == commands[i],
            },
{
    assert forall|i: int|
        #![trigger results[i]]
        0 <= i < results.len() implies match results[i] {
        Ok(_) => first.roused_for(commands[i]) && first.waker_woken(),
        Err(e) => e.0 == commands[i],
    } by {
        lemma_slot_is_its_waker(senders[i].waker, first.waker);
        assert(senders[i] == first);
    }
    lemma_all_roused(first, commands, results);
}

proof fn lemma_all_roused<C>(
    sender: SnifferCommandSender<C>,
    commands: Seq<C>,
    results: Seq<Result<(), SendError<C>>>,
)
    requires
        results.len() <= commands.len(),
        forall|i: int|
            #![trigger results[i]]
            0 <= i < results.len() && results[i] is Ok ==> sender.roused_for(commands[i]),
    ensures
        count_roused(sender, commands, results) == count_taken(results),
    decreases results.len(),
{
    if results.len() > 0 {
        let shorter = results.drop_last();
        assert forall|i: int|
            #![trigger shorter[i]]
            0 <= i < shorter.len() && shorter[i] is Ok implies sender.roused_for(commands[i]) by {
            assert(results[i] == shorter[i]);
        }
        lemma_all_roused(sender, commands, shorter);
        assert(results[results.len() - 1] == results.last());
    }
}

/// The commands of a series that were taken, in order.
pub open spec fn commands_taken<C>(
    commands: Seq<C>,
    results: Seq<Result<(), SendError<C>>>,
) -> Seq<C>
    decreases results.len(),
{
    if results.len() == 0 {
        Seq::empty()
    } else {
        let before = commands_taken(commands, results.drop_last());
        if results.last() is Ok {
            before.push(commands[results.len() - 1])
        } else {
            before
        }
    }
}

/// What a channel does with a series of commands: each that it takes goes behind
/// those that it holds. `held[i]` is what it holds before the command at `i`.
pub open spec fn queues_up<C>(
    held: Seq<Seq<C>>,
    commands: Seq<C>,
    results: Seq<Result<(), SendError<C>>>,
) -> bool {
    &&& held.len() == results.len() + 1
    &&& forall|i: int|
        #![trigger results[i]]
        0 <= i < results.len() ==> held[i + 1] == if results[i] is Ok {
            held[i].push(commands[i])
        } else {
            held[i]
        }
}

/// Given that the channel queues what it takes, it holds in the end what it held
/// before and then the commands that were taken, in the order in which they were
/// sent, none lost and none twice. Where it took them all, those are all the
/// commands, and the waker was called for each.
pub proof fn law_commands_arrive_in_order<C>(
    first: SnifferCommandSender<C>,
    senders: Seq<SnifferCommandSender<C>>,
    commands: Seq<C>,
    results: Seq<Result<(), SendError<C>>>,
    held: Seq<Seq<C>>,
)
    requires
        first.waker() is Some,
        senders.len() == results.len() == commands.len(),
        forall|i: int|
            #![trigger senders[i]]
            0 <= i < senders.len() ==> senders[i].channel() == first.channel()
                && senders[i].waker() == first.waker() && senders[i].sends(commands[i], results[i]),
        queues_up(held, commands, results),
    ensures
        held.last() == held[0] + commands_taken(commands, results),
        commands_taken(commands, results).len() == count_roused(first, commands, results),
        (forall|i: int| 0 <= i < results.len() ==> (#[trigger] results[i]) is Ok) ==> {
            &&& held.last() == held[0] + commands
            &&& count_roused(first, commands, results) == commands.len()
        },
{
    law_each_command_taken_wakes(first, senders, commands, results);
    lemma_queue(commands, results, held);
    if forall|i: int| 0 <= i < results.len() ==> (#[trigger] results[i]) is Ok {
        assert(commands.take(results.len() as int) == commands);
    }
}

proof fn lemma_queue<C>(
    commands: Seq<C>,
    results: Seq<Result<(), SendError<C>>>,
    held: Seq<Seq<C>>,
)
    requires
        results.len() <= commands.len(),
        queues_up(held, commands, results),
    ensures
        held.last() == held[0] + commands_taken(commands, results),
        commands_taken(commands, results).len() == count_taken(results),
        (forall|i: int| 0 <= i < results.len() ==> (#[trigger] results[i]) is Ok)
            ==> commands_taken(commands, results) == commands.take(results.len() as int),
    decreases results.len(),
{
    if results.len() == 0 {
        assert(held[0] + commands_taken(commands, results) =~= held[0]);
        assert(commands.take(0) =~= Seq::empty());
    } else {
        let shorter = results.drop_last();
        let before = held.drop_last();
        let n = shorter.len() as int;
        assert forall|i: int|
            #![trigger shorter[i]]
            0 <= i < shorter.len() implies before[i + 1] == if shorter[i] is Ok {
            before[i].push(commands[i])
        } else {
            before[i]
        } by {
            assert(results[i] == shorter[i]);
        }
        lemma_queue(commands, shorter, before);
        assert(results[n] == results.last());
        assert(held.last() =~= held[0] + commands_taken(commands, results));
        if forall|i: int| 0 <= i < results.len() ==> (#[trigger] results[i]) is Ok {
            assert forall|i: int| 0 <= i < shorter.len() implies (#[trigger] shorter[i]) is Ok by {
                assert(results[i] is Ok);
            }
            assert(commands.take(n).push(commands[n]) =~= commands.take(n + 1));
        }
    }
}

/// One command is handed over for one that is sent: what the channels took before
/// stays as it was, and behind it stands the command that was sent, with the
/// sender's own channel, where it was taken, and nothing where it was refused. A
/// refused command comes back.
pub proof fn law_one_command_for_one_sent<C>(
    sender: SnifferCommandSender<C>,
    command: C,
    history: History<C>,
    result: Result<(), SendError<C>>,
    noted: History<C>,
)
    requires
        call_ensures(
            SnifferCommandSender::<C>::send_noting,
            (&sender, command, history),
            (result, noted),
        ),
    ensures
        match result {
            Ok(_) => {
                &&& noted@.len() == history@.len() + 1
                &&& noted@.last().0 == sender.channel()
                &&& noted@.last().1 == command
                &&& channel_takes(sender.channel(), command)
                &&& sender.waker() is Some ==> sender.roused_for(command)
            },
            Err(e) => noted@.len() == history@.len() && e.0 == command,
        },
        forall|i: int| 0 <= i < history@.len() ==> noted@[i] == history@[i],
{
}

/// A command that is sent is the only one that any channel takes for it, and a
/// command that is refused comes back with nothing taken in its place. Where the
/// command was taken and there is a waker, the waker was called for it.
pub proof fn law_nothing_but_what_was_sent<C>(
    sender: SnifferCommandSender<C>,
    command: C,
    result: Result<(), SendError<C>>,
) -> (taken: Seq<(std::sync::mpsc::Sender<C>, C)>)
    requires
        call_ensures(SnifferCommandSender::<C>::send, (&sender, command), result),
    ensures
        sender.sends_noting(command, result, Seq::empty(), taken),
        match result {
            Ok(_) => {
                &&& taken.len() == 1
                &&& taken[0].0 == sender.channel()
                &&& taken[0].1 == command
                &&& sender.waker() is Some ==> sender.roused_for(command)
            },
            Err(e) => taken.len() == 0 && e.0 == command,
        },
{
    if result is Ok {
        seq![(sender.channel(), command)]
    } else {
        Seq::empty()
    }
}

/// Whatever series of commands is sent through senders of one channel, the history
/// goes on, command by command, with those that were taken, in the order in which
/// they were sent, none lost, none twice, none made up.
pub proof fn law_history_is_what_was_sent<C>(
    channel: std::sync::mpsc::Sender<C>,
    senders: Seq<SnifferCommandSender<C>>,
    commands: Seq<C>,
    results: Seq<Result<(), SendError<C>>>,
    histories: Seq<Seq<(std::sync::mpsc::Sender<C>, C)>>,
)
    requires
        senders.len() == commands.len() == results.len(),
        histories.len() == results.len() + 1,
        forall|i: int|
            #![trigger senders[i]]
            0 <= i < senders.len() ==> senders[i].channel() == channel && senders[i].sends_noting(
                commands[i],
                results[i],
                histories[i],
                histories[i + 1],
            ),
    ensures
        histories.last() == histories[0] + commands_taken(commands, results).map_values(
            |command: C| (channel, command),
        ),
        commands_taken(commands, results).len() == count_taken(results),
        forall|i: int|
            #![trigger results[i]]
            0 <= i < results.len() ==> (results[i] matches Err(e) ==> e.0 == commands[i]),
        (forall|i: int| 0 <= i < results.len() ==> (#[trigger] results[i]) is Ok)
            ==> commands_taken(commands, results) == commands,
    decreases results.len(),
{
    let pair = |command: C| (channel, command);
    if results.len() == 0 {
        assert(histories.last() =~= histories[0] + commands_taken(commands, results).map_values(
            pair,
        ));
        assert(commands_taken(commands, results) =~= commands);
    } else {
        let n = results.len() - 1;
        let fewer = results.drop_last();
        let before = histories.drop_last();
        assert forall|i: int| #![trigger senders.drop_last()[i]] 0 <= i < n implies
            senders.drop_last()[i].channel() == channel && senders.drop_last()[i].sends_noting(
            commands.drop_last()[i],
            fewer[i],
            before[i],
            before[i + 1],
        ) by {
            assert(senders[i].channel() == channel);
        }
        law_history_is_what_was_sent(
            channel,
            senders.drop_last(),
            commands.drop_last(),
            fewer,
            before,
        );
        lemma_taken_prefix(commands, commands.drop_last(), fewer);
        assert(senders[n].sends_noting(commands[n], results[n], histories[n], histories[n + 1]));
        let (old_history, new_history) = choose|old_history: History<C>, new_history: History<C>|
            old_history@ == histories[n] && new_history@ == histories[n + 1]
                && #[trigger] call_ensures(
                SnifferCommandSender::<C>::send_noting,
                (&senders[n], commands[n], old_history),
                (results[n], new_history),
            );
        law_one_command_for_one_sent(
            senders[n],
            commands[n],
            old_history,
            results[n],
            new_history,
        );
        let earlier = commands_taken(commands, fewer);
        assert(histories[n] == histories[0] + earlier.map_values(pair));
        assert(histories[n + 1] =~= if results[n] is Ok {
            histories[n].push((channel, commands[n]))
        } else {
            histories[n]
        });
        assert(earlier.push(commands[n]).map_values(pair) =~= earlier.map_values(pair).push(
            (channel, commands[n]),
        ));
        assert(histories.last() =~= histories[0] + commands_taken(commands, results).map_values(
            pair,
        ));
        assert forall|i: int| #![trigger results[i]] 0 <= i < results.len() implies (
        results[i] matches Err(e) ==> e.0 == commands[i]) by {
            if i < n {
                assert(fewer[i] == results[i]);
            }
        }
        if forall|i: int| 0 <= i < results.len() ==> (#[trigger] results[i]) is Ok {
            assert forall|i: int| 0 <= i < fewer.len() implies (#[trigger] fewer[i]) is Ok by {
                assert(results[i] is Ok);
            }
            assert(results[n] is Ok);
            assert(commands_taken(commands, results) =~= commands);
        }
    }
}

/// Which commands were taken does not depend on commands that come later.
proof fn lemma_taken_prefix<C>(a: Seq<C>, b: Seq<C>, results: Seq<Result<(), SendError<C>>>)
    requires
        results.len() <= a.len(),
        results.len() <= b.len(),
        forall|i: int| 0 <= i < results.len() ==> a[i] == b[i],
    ensures
        commands_taken(a, results) == commands_taken(b, results),
    decreases results.len(),
{
    if results.len() > 0 {
        lemma_taken_prefix(a, b, results.drop_last());
    }
}

/// A new sender has the channel and the waker that it was given, and a clone has
/// those of the sender that was cloned, so that both send to the same place and
/// wake the same sniffer.
pub proof fn law_clones_send_alike<C>(
    channel: std::sync::mpsc::Sender<C>,
    waker: Option<Arc<dyn SnifferWaker>>,
    sender: SnifferCommandSender<C>,
    copy: SnifferCommandSender<C>,
)
    requires
        call_ensures(SnifferCommandSender::<C>::new, (channel, waker), sender),
        call_ensures(<SnifferCommandSender<C> as Clone>::clone, (&sender,), copy),
    ensures
        sender.channel() == channel,
        sender.waker() == waker,
        copy.channel() == channel,
        copy.waker() == waker,
        forall|command: C, result: Result<(), SendError<C>>|
            sender.sends(command, result) <==> #[trigger] copy.sends(command, result),
{
    lemma_slot_is_its_waker(sender.waker, copy.waker);
    assert(sender == copy);
}

/// The answer of the channel decides alone what the caller is told, and a wake-up
/// is due for a command that was taken, where there is a waker, and for no other.
pub proof fn law_settling<C>(
    sender: SnifferCommandSender<C>,
    sent: Result<(), C>,
    outcome: SendOutcome<C>,
)
    requires
        call_ensures(SnifferCommandSender::<C>::settle, (&sender, sent), outcome),
    ensures
        outcome.wake <==> sent is Ok && sender.waker() is Some,
        outcome.result is Ok <==> sent is Ok,
        outcome.result matches Err(e) ==> sent == Err::<(), C>(e.0),
{
}

/// Where a command was taken, the waker that the sender was made with has been
/// called by the time the caller is told so.
pub proof fn law_waker_is_called_for_a_command_taken<C>(
    channel: std::sync::mpsc::Sender<C>,
    waker: Option<Arc<dyn SnifferWaker>>,
    sender: SnifferCommandSender<C>,
    command: C,
    result: Result<(), SendError<C>>,
)
    requires
        waker is Some,
        call_ensures(SnifferCommandSender::<C>::new, (channel, waker), sender),
        call_ensures(SnifferCommandSender::<C>::send, (&sender, command), result),
    ensures
        result is Ok ==> waker->0.woken() && sender.roused_for(command),
{
    lemma_slot_tells_of_its_waker(sender.waker);
}

} // verus!
