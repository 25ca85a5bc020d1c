//! The hand-over of a command to the sniffer's channel, and the wake-up that it
//! allows.
//!
//! A waker is called only against a receipt, and a receipt is made only where the
//! channel took a command. It is used up by the call, so that no command wakes
//! the sniffer twice, none wakes it that was refused, and none before it was
//! taken.
//!
//! None of this looks at a command: it works for commands of any type. So a
//! command cannot be made up, copied or changed on the way, and what is handed
//! over for one command is that command, at most once. A history notes what the
//! channels took.

use std::sync::Arc;

use vstd::prelude::*;

use crate::proto::SnifferWaker;

verus! {

/// `std::sync::mpsc::Sender`, of which only that it can be carried, copied and
/// sent to is known.
#[verifier::external_type_specification]
#[verifier::external_body]
#[verifier::reject_recursive_types(T)]
pub struct ExCommandChannel<T>(std::sync::mpsc::Sender<T>);

/// `std::sync::mpsc::Sender::send`. Where the channel refuses the command, as the
/// receiving end has gone, the error hands the same command back. Whether the
/// receiving end is there is not known beforehand, and that an accepted command
/// is received is not claimed.
#[verifier::external_body]
fn enqueue<C>(channel: &std::sync::mpsc::Sender<C>, command: C) -> (sent: Result<(), C>)
    ensures
        sent matches Err(refused) ==> refused == command,
{
    channel.send(command).map_err(|refused| refused.0)
}

/// `std::sync::mpsc::Sender::clone`. A sender can be cloned to send to the same
/// channel more than once; which channel it sends to is all that is known of a
/// sender here, so the copy equals it.
pub assume_specification<T>[ <std::sync::mpsc::Sender<T> as Clone>::clone ](
    channel: &std::sync::mpsc::Sender<T>,
) -> (copy: std::sync::mpsc::Sender<T>)
    ensures
        copy == channel,
;

/// Whether `sent` is an answer of the channel to being handed the command. That
/// the channel takes a command is known only from an answer that it gave.
pub closed spec fn channel_answers<C>(
    channel: std::sync::mpsc::Sender<C>,
    command: C,
    sent: Result<(), C>,
) -> bool {
    call_ensures(enqueue::<C>, (&channel, command), sent)
}

/// Whether a channel's answer to a command was to take it.
pub open spec fn channel_takes<C>(channel: std::sync::mpsc::Sender<C>, command: C) -> bool {
    exists|sent: Result<(), C>| #[trigger]
        channel_answers(channel, command, sent) && sent is Ok
}

/// That a channel took a command.
#[verifier::reject_recursive_types(C)]
pub struct Receipt<C> {
    channel: Ghost<std::sync::mpsc::Sender<C>>,
    command: Ghost<C>,
}

impl<C> Receipt<C> {
    /// The channel that took the command.
    pub closed spec fn channel(self) -> std::sync::mpsc::Sender<C> {
        self.channel@
    }

    /// The command that was taken.
    pub closed spec fn command(self) -> C {
        self.command@
    }

    #[verifier::type_invariant]
    closed spec fn was_taken(self) -> bool {
        channel_takes(self.channel@, self.command@)
    }
}

/// What channels took, in order: the channel and the command.
#[verifier::reject_recursive_types(C)]
pub struct History<C> {
    taken: Ghost<Seq<(std::sync::mpsc::Sender<C>, C)>>,
}

impl<C> View for History<C> {
    type V = Seq<(std::sync::mpsc::Sender<C>, C)>;

    closed spec fn view(&self) -> Seq<(std::sync::mpsc::Sender<C>, C)> {
        self.taken@
    }
}

impl<C> History<C> {
    /// A history in which no channel took anything.
    pub fn new() -> (history: Self)
        ensures
            history@.len() == 0,
    {
        History { taken: Ghost(Seq::empty()) }
    }
}

/// Hands a command to a channel. Where the channel takes it, there is a receipt;
/// where it refuses it, the command comes back. The history notes just this
/// command, and that only where it was taken.
pub(crate) fn hand_over<C>(
    channel: &std::sync::mpsc::Sender<C>,
    command: C,
    history: History<C>,
) -> (taken: (Result<Receipt<C>, C>, History<C>))
    ensures
        match taken.0 {
            Ok(receipt) => {
                &&& receipt.channel() == *channel
                &&& receipt.command() == command
                &&& channel_takes(*channel, command)
                &&& taken.1@ == history@.push((*channel, command))
            },
            Err(refused) => {
                &&& refused == command
                &&& channel_answers(*channel, command, Err(command))
                &&& taken.1@ == history@
            },
        },
{
    let ghost handed = command;
    // Called as a value, so that the answer is known as one of this call.
    let hand = enqueue::<C>;
    let sent = hand(channel, command);
    assert(channel_answers(*channel, handed, sent));
    match sent {
        Ok(_) => {
            let longer = History { taken: Ghost(history.taken@.push((*channel, handed))) };
            (Ok(Receipt { channel: Ghost(*channel), command: Ghost(handed) }), longer)
        },
        Err(refused) => (Err(refused), history),
    }
}

/// The waker of a sender, if it has one.
pub struct WakerSlot {
    waker: Option<Arc<dyn SnifferWaker>>,
}

impl WakerSlot {
    /// The waker.
    pub closed spec fn waker(self) -> Option<Arc<dyn SnifferWaker>> {
        self.waker
    }

    /// Whether the waker was called, where there is one.
    pub closed spec fn woken(self) -> bool {
        match self.waker {
            Some(waker) => waker.woken(),
            None => true,
        }
    }

    /// Whether the waker was called against a receipt of the channel for the
    /// command.
    pub closed spec fn called_for<C>(
        self,
        channel: std::sync::mpsc::Sender<C>,
        command: C,
    ) -> bool {
        exists|receipt: Receipt<C>|
            receipt.channel() == channel && receipt.command() == command
                && #[trigger] call_ensures(Self::call::<C>, (&self, receipt), ())
    }

    pub(crate) fn new(waker: Option<Arc<dyn SnifferWaker>>) -> (slot: Self)
        ensures
            slot.waker() == waker,
    {
        WakerSlot { waker }
    }

    /// Whether there is a waker.
    pub(crate) fn is_filled(&self) -> (filled: bool)
        ensures
            filled == (self.waker() is Some),
    {
        self.waker.is_some()
    }

    /// The same waker once more.
    pub(crate) fn share(&self) -> (copy: Self)
        ensures
            copy.waker() == self.waker(),
    {
        let waker = match &self.waker {
            Some(waker) => Some(waker.clone()),
            None => None,
        };
        WakerSlot { waker }
    }

    fn call<C>(&self, _receipt: Receipt<C>)
        requires
            self.waker() is Some,
        ensures
            self.woken(),
    {
        if let Some(waker) = &self.waker {
            waker.wake();
        }
    }

    /// Calls the waker against a receipt, which is used up.
    pub(crate) fn redeem<C>(&self, receipt: Receipt<C>)
        requires
            self.waker() is Some,
        ensures
            self.woken(),
            self.called_for(receipt.channel(), receipt.command()),
    {
        let ghost shown = receipt;
        let call = Self::call::<C>;
        call(self, receipt);
        assert(call_ensures(Self::call::<C>, (self, shown), ()));
    }
}

/// A slot is its waker.
pub(crate) proof fn lemma_slot_is_its_waker(a: WakerSlot, b: WakerSlot)
    requires
        a.waker() == b.waker(),
    ensures
        a == b,
{
}

/// That the waker of a slot was called is what its waker says of itself.
pub(crate) proof fn lemma_slot_tells_of_its_waker(slot: WakerSlot)
    requires
        slot.waker() is Some,
    ensures
        slot.woken() == slot.waker()->0.woken(),
{
}

} // verus!
