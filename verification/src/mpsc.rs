//! The ends of tokio's bounded channels, with what a proof can know of each:
//! which channel it belongs to, how large that channel is, what went through the
//! end, and in which order the channel takes its messages. Only the functions
//! below write this down.
use crate::event::Event;
use std::task::{Context, Poll};
use tokio::sync::mpsc::error::TrySendError;
use tokio::sync::mpsc::{Receiver, Sender};
use vstd::prelude::*;

verus! {

/// `tokio::sync::mpsc::Sender`. Its value stands for the channel that it sends
/// into: the sending ends of one channel are the same value.
#[verifier::external_type_specification]
#[verifier::external_body]
#[verifier::reject_recursive_types(T)]
pub struct ExSender<T>(Sender<T>);

/// `tokio::sync::mpsc::Receiver`, carried without looking inside.
#[verifier::external_type_specification]
#[verifier::external_body]
#[verifier::reject_recursive_types(T)]
pub struct ExReceiver<T>(Receiver<T>);

/// `std::task::Context`, carried without looking inside.
#[verifier::external_type_specification]
#[verifier::external_body]
pub struct ExContext<'a>(Context<'a>);

/// What a channel answers when it is offered a message.
#[derive(Debug)]
pub enum Offer<T> {
    /// The channel holds the message.
    Accepted,
    /// The channel holds as many messages as it can; this one comes back.
    Full(T),
    /// Nobody receives any more; the message comes back.
    Closed(T),
}

/// What came of polling a channel.
#[derive(Debug)]
pub enum Polled<T> {
    /// A message arrived.
    Ready(T),
    /// No message will arrive any more.
    Closed,
    /// No message has arrived yet.
    Pending,
}

/// A sending end, and the record of what it was given to send.
#[verifier::reject_recursive_types(T)]
pub struct Outbox<T> {
    tx: Sender<T>,
    log: Ghost<OutLog<T>>,
}

ghost struct OutLog<T> {
    capacity: usize,
    offered: Seq<T>,
    accepted: Seq<T>,
    places: Seq<nat>,
    order: Map<nat, T>,
    shared: bool,
}

impl<T> View for Outbox<T> {
    type V = Seq<T>;

    /// Every message handed to the channel through this end, oldest first,
    /// whether the channel took it or not.
    closed spec fn view(&self) -> Seq<T> {
        self.log@.offered
    }
}

/// A receiving end, and the record of what came of polling it.
#[verifier::reject_recursive_types(T)]
pub struct Inbox<T> {
    rx: Receiver<T>,
    log: Ghost<InLog<T>>,
}

#[verifier::reject_recursive_types(T)]
ghost struct InLog<T> {
    channel: Sender<T>,
    capacity: usize,
    polled: Seq<Polled<T>>,
    received: Seq<T>,
    order: Map<nat, T>,
}

impl<T> View for Inbox<T> {
    type V = Seq<Polled<T>>;

    /// What came of each poll of the channel through this end, oldest first.
    closed spec fn view(&self) -> Seq<Polled<T>> {
        self.log@.polled
    }
}

impl<T> Outbox<T> {
    /// The channel that the end sends into.
    pub closed spec fn tx(self) -> Sender<T> {
        self.tx
    }

    /// How many messages the channel holds before it is full.
    pub closed spec fn capacity(self) -> usize {
        self.log@.capacity
    }

    /// The offered messages that the channel took, oldest first.
    pub closed spec fn accepted(self) -> Seq<T> {
        self.log@.accepted
    }

    /// The place of each accepted message in the order of the channel.
    pub closed spec fn places(self) -> Seq<nat> {
        self.log@.places
    }

    /// The messages that the channel takes in all its time, from whatever end,
    /// in the order of its queue. The first is at 0.
    pub closed spec fn order(self) -> Map<nat, T> {
        self.log@.order
    }

    /// Whether another end that sends into the channel was ever handed out.
    pub closed spec fn shared(self) -> bool {
        self.log@.shared
    }

    /// Whether `self` is `before`, but that another end may have been handed out.
    pub open spec fn keeps(self, before: Self) -> bool {
        &&& self@ == before@
        &&& self.accepted() == before.accepted()
        &&& self.places() == before.places()
        &&& self.order() == before.order()
        &&& self.tx() == before.tx()
        &&& self.capacity() == before.capacity()
    }

    /// Hands out another sending end of the same channel.
    pub fn sender(&mut self) -> (copy: Sender<T>)
        ensures
            copy == old(self).tx(),
            final(self).keeps(*old(self)),
            final(self).shared(),
    {
        self.log = Ghost(OutLog { shared: true, ..self.log@ });
        clone_sender(&self.tx)
    }

    /// The sending end without the record.
    pub fn into_sender(self) -> (tx: Sender<T>)
        ensures
            tx == self.tx(),
    {
        self.tx
    }
}

impl<T> Inbox<T> {
    /// The receiving end without the record.
    pub closed spec fn rx(self) -> Receiver<T> {
        self.rx
    }

    /// The channel that the end receives from, as its sending ends name it.
    pub closed spec fn channel(self) -> Sender<T> {
        self.log@.channel
    }

    /// How many messages the channel holds before it is full.
    pub closed spec fn capacity(self) -> usize {
        self.log@.capacity
    }

    /// The messages that came out of the channel, oldest first.
    pub closed spec fn received(self) -> Seq<T> {
        self.log@.received
    }

    /// The messages that the channel takes in all its time, in the order of its
    /// queue. The first is at 0.
    pub closed spec fn order(self) -> Map<nat, T> {
        self.log@.order
    }

    /// The receiving end without the record.
    pub fn into_receiver(self) -> (rx: Receiver<T>)
        ensures
            rx == self.rx(),
    {
        self.rx
    }
}

impl<M, S> Outbox<Event<M, S>> {
    /// Calls `tokio::sync::mpsc::Sender::try_send`, which never waits, and which
    /// either puts the message into the queue of the channel, behind what this
    /// end put there before, or hands it back. Where no other end can send, the
    /// queue holds what this end put there and nothing else, so it is not full
    /// before the end has put as many messages there as the channel has room
    /// for. The channel is open as long as there is a receiving end; `receiver`
    /// shows that there is one. Otherwise the answer depends on the other tasks
    /// and is not stated. Of the message in the queue, the parts are stated that
    /// exist at run time.
    #[verifier::external_body]
    pub(crate) fn try_send(
        &mut self,
        receiver: Option<&Inbox<Event<M, S>>>,
        message: Event<M, S>,
    ) -> (offer: Offer<Event<M, S>>)
        ensures
            final(self)@ == old(self)@.push(message),
            final(self).accepted() == if offer is Accepted {
                old(self).accepted().push(message)
            } else {
                old(self).accepted()
            },
            final(self).places() == if offer is Accepted {
                old(self).places().push(final(self).places().last())
            } else {
                old(self).places()
            },
            offer is Accepted ==> queues_behind(*old(self), final(self).places().last(), message),
            final(self).order() == old(self).order(),
            final(self).shared() == old(self).shared(),
            final(self).tx() == old(self).tx(),
            final(self).capacity() == old(self).capacity(),
            offer matches Offer::Full(back) ==> back == message,
            offer matches Offer::Closed(back) ==> back == message,
            !old(self).shared() && old(self).accepted().len() < old(self).capacity() ==> !(
            offer is Full),
            receiver matches Some(inbox) && inbox.channel() == old(self).tx() ==> !(
            offer is Closed),
    {
        match self.tx.try_send(message) {
            Ok(()) => Offer::Accepted,
            Err(TrySendError::Full(back)) => Offer::Full(back),
            Err(TrySendError::Closed(back)) => Offer::Closed(back),
        }
    }
}

/// Whether the channel takes `message` at `place`, behind what it took from this
/// end, and right behind it if no other end can send.
pub open spec fn queues_behind<M, S>(
    outbox: Outbox<Event<M, S>>,
    place: nat,
    message: Event<M, S>,
) -> bool {
    &&& outbox.order().contains_key(place)
    &&& outbox.order()[place].alike(message)
    &&& outbox.places().len() > 0 ==> outbox.places().last() < place
    &&& !outbox.shared() ==> place == outbox.places().len()
}

impl<M, S> Inbox<Event<M, S>> {
    /// Calls `tokio::sync::mpsc::Receiver::poll_recv`, which takes the next
    /// message out of the queue of the channel, or tells that all messages were
    /// taken out and none will arrive any more, or sees to it that the task of
    /// `cx` is woken. Which of these it is depends on the other tasks and is not
    /// stated. Of the message in the queue, the parts are stated that exist at
    /// run time.
    #[verifier::external_body]
    pub(crate) fn poll_recv(&mut self, cx: &mut Context<'_>) -> (polled: Polled<Event<M, S>>)
        ensures
            final(self)@ == old(self)@.push(polled),
            final(self).received() == match polled {
                Polled::Ready(message) => old(self).received().push(message),
                _ => old(self).received(),
            },
            polled matches Polled::Ready(message) ==> {
                &&& old(self).order().contains_key(old(self).received().len())
                &&& old(self).order()[old(self).received().len()].alike(message)
            },
            polled is Closed ==> !old(self).order().contains_key(old(self).received().len()),
            final(self).order() == old(self).order(),
            final(self).channel() == old(self).channel(),
            final(self).capacity() == old(self).capacity(),
    {
        match self.rx.poll_recv(cx) {
            Poll::Ready(Some(message)) => Polled::Ready(message),
            Poll::Ready(None) => Polled::Closed,
            Poll::Pending => Polled::Pending,
        }
    }
}

/// Whether no place in the order is left out.
pub open spec fn gapless<T>(order: Map<nat, T>) -> bool {
    forall|i: nat, j: nat| i < j && #[trigger] order.contains_key(j) ==> #[trigger]
        order.contains_key(i)
}

/// Whether these are the two ends of a new channel with room for `capacity`
/// messages. Nothing went through it, and no other end can send into it.
pub open spec fn are_new<T>(outbox: Outbox<T>, inbox: Inbox<T>, capacity: usize) -> bool {
    &&& inbox.channel() == outbox.tx()
    &&& inbox.order() == outbox.order()
    &&& gapless(outbox.order())
    &&& outbox.capacity() == capacity
    &&& inbox.capacity() == capacity
    &&& outbox@ == Seq::<T>::empty()
    &&& outbox.accepted() == Seq::<T>::empty()
    &&& outbox.places() == Seq::<nat>::empty()
    &&& !outbox.shared()
    &&& inbox@ == Seq::<Polled<T>>::empty()
    &&& inbox.received() == Seq::<T>::empty()
}

/// Calls `tokio::sync::mpsc::channel`, which makes both ends of one new channel
/// with room for `capacity` messages. It panics at 0 and above
/// `Semaphore::MAX_PERMITS`, an eighth of the range of `usize`. Messages come out
/// of the channel in the order of its queue, one after the other. What they are
/// depends on what will be sent and is not stated.
#[verifier::external_body]
pub(crate) fn channel<T>(capacity: usize) -> (ends: (Outbox<T>, Inbox<T>))
    requires
        0 < capacity <= usize::MAX / 8,
    ensures
        are_new(ends.0, ends.1, capacity),
{
    let (tx, rx) = tokio::sync::mpsc::channel(capacity);
    (Outbox { tx, log: Ghost(arbitrary()) }, Inbox { rx, log: Ghost(arbitrary()) })
}

/// Calls `Clone::clone` of `tokio::sync::mpsc::Sender`, which gives another
/// sending end of the same channel.
#[verifier::external_body]
pub(crate) fn clone_sender<T>(tx: &Sender<T>) -> (copy: Sender<T>)
    ensures
        copy == *tx,
{
    tx.clone()
}

} // verus!
