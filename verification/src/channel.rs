//! Opening a channel, offering events to it, and what both ends keep to.
use crate::event::Event;
use crate::mpsc::{are_new, channel, gapless, Inbox, Offer, Outbox, Polled};
use vstd::prelude::*;

verus! {

/// The messages whose flag is set, in the same order.
pub open spec fn flagged<T>(messages: Seq<T>, flags: Seq<bool>) -> Seq<T>
    decreases messages.len(),
{
    if messages.len() == 0 {
        Seq::empty()
    } else if flags[messages.len() - 1] {
        flagged(messages.drop_last(), flags).push(messages.last())
    } else {
        flagged(messages.drop_last(), flags)
    }
}

/// Whether the channel took those of the messages that are flagged, after what
/// it took from this end before.
pub open spec fn takes<T>(
    before: Outbox<T>,
    after: Outbox<T>,
    messages: Seq<T>,
    flags: Seq<bool>,
) -> bool {
    &&& flags.len() == messages.len()
    &&& after.accepted() == before.accepted() + flagged(messages, flags)
}

impl<T> Outbox<T> {
    /// Opens a channel with room for `capacity` messages.
    pub fn open(capacity: usize) -> (ends: (Outbox<T>, Inbox<T>))
        requires
            0 < capacity <= usize::MAX / 8,
        ensures
            are_new(ends.0, ends.1, capacity),
    {
        channel(capacity)
    }
}

impl<M, S> Outbox<Event<M, S>> {
    /// Whether each accepted event has its place in the order of the channel,
    /// behind those that were accepted before. As long as no other end can send,
    /// these are the first places.
    pub open spec fn queued(self) -> bool {
        &&& gapless(self.order())
        &&& self.places().len() == self.accepted().len()
        &&& forall|i: int, j: int|
            0 <= i < j < self.places().len() ==> self.places()[i] < self.places()[j]
        &&& forall|i: int|
            #![trigger self.places()[i]]
            0 <= i < self.places().len() ==> self.order().contains_key(self.places()[i])
                && self.order()[self.places()[i]].alike(self.accepted()[i])
        &&& !self.shared() ==> forall|i: int|
            0 <= i < self.places().len() ==> #[trigger] self.places()[i] == i
    }

    /// Whether `self` is what `before` is once the messages were offered to its
    /// channel, in their order; the channel took some of them.
    pub open spec fn has_offered(self, before: Self, messages: Seq<Event<M, S>>) -> bool {
        &&& self@ == before@ + messages
        &&& exists|flags: Seq<bool>| takes(before, self, messages, flags)
        &&& before.places().is_prefix_of(self.places())
        &&& before.queued() ==> self.queued()
        &&& self.order() == before.order()
        &&& self.shared() == before.shared()
        &&& self.tx() == before.tx()
        &&& self.capacity() == before.capacity()
    }

    /// Hands `message` to the channel without waiting. `receiver` may show that
    /// the channel has a receiving end.
    pub fn offer(
        &mut self,
        receiver: Option<&Inbox<Event<M, S>>>,
        message: Event<M, S>,
    ) -> (offer: Offer<Event<M, S>>)
        ensures
            final(self)@ == old(self)@.push(message),
            final(self).accepted() == if offer is Accepted {
                old(self).accepted().push(message)
            } else {
                old(self).accepted()
            },
            final(self).has_offered(*old(self), seq![message]),
            offer matches Offer::Full(back) ==> back == message,
            offer matches Offer::Closed(back) ==> back == message,
            !old(self).shared() && old(self).accepted().len() < old(self).capacity() ==> !(
            offer is Full),
            receiver matches Some(inbox) && inbox.channel() == old(self).tx() ==> !(
            offer is Closed),
    {
        let offer = self.try_send(receiver, message);
        proof {
            let flags = seq![offer is Accepted];
            reveal_with_fuel(flagged, 2);
            assert(seq![message].drop_last() =~= Seq::empty());
            assert(self.accepted() =~= old(self).accepted() + flagged(seq![message], flags));
            assert(takes(*old(self), *self, seq![message], flags));
            assert(self@ =~= old(self)@ + seq![message]);
            if old(self).queued() && offer is Accepted {
                let last = old(self).places().len() as int;
                assert(self.places()[last] == self.places().last());
                assert forall|i: int| 0 <= i < last implies self.places()[i]
                    < self.places()[last] by {
                    assert(old(self).places()[i] <= old(self).places().last());
                }
                assert(self.queued());
            }
        }
        offer
    }
}

impl<M, S> Inbox<Event<M, S>> {
    /// Whether the event that came out at `i` is the one that the channel took at
    /// `i`.
    pub open spec fn in_place(self, i: int) -> bool {
        &&& self.order().contains_key(i as nat)
        &&& self.order()[i as nat].alike(self.received()[i])
    }

    /// Whether the events came out in the order of the channel, none left out,
    /// and the channel holds no more once it was found closed.
    pub open spec fn reads_in_order(self) -> bool {
        &&& forall|i: int| 0 <= i < self.received().len() ==> #[trigger] self.in_place(i)
        &&& self@.len() > 0 && self@.last() is Closed ==> !self.order().contains_key(
            self.received().len(),
        )
    }

    /// Whether `self` is what `before` is once its channel was polled, once and
    /// with this result.
    pub open spec fn has_polled(self, before: Self, polled: Polled<Event<M, S>>) -> bool {
        &&& self@ == before@.push(polled)
        &&& self.received() == match polled {
            Polled::Ready(message) => before.received().push(message),
            _ => before.received(),
        }
        &&& before.reads_in_order() ==> self.reads_in_order()
        &&& self.order() == before.order()
        &&& self.channel() == before.channel()
        &&& self.capacity() == before.capacity()
    }
}

/// Offering nothing changes nothing.
pub proof fn lemma_offers_none<M, S>(outbox: Outbox<Event<M, S>>)
    ensures
        outbox.has_offered(outbox, Seq::empty()),
{
    let none = Seq::<Event<M, S>>::empty();
    assert(outbox@ + none =~= outbox@);
    assert(outbox.accepted() + flagged(none, Seq::empty()) =~= outbox.accepted());
    assert(takes(outbox, outbox, none, Seq::empty()));
}

proof fn lemma_flagged_concatenates<T>(
    first: Seq<T>,
    second: Seq<T>,
    flags: Seq<bool>,
    more: Seq<bool>,
)
    requires
        flags.len() == first.len(),
        more.len() == second.len(),
    ensures
        flagged(first + second, flags + more) == flagged(first, flags) + flagged(second, more),
    decreases first.len() + second.len(),
{
    let all = first + second;
    if second.len() > 0 {
        assert(all.drop_last() =~= first + second.drop_last());
        lemma_flagged_ignores_the_rest(all.drop_last(), flags + more.drop_last(), more.last());
        lemma_flagged_ignores_the_rest(second.drop_last(), more.drop_last(), more.last());
        assert((flags + more.drop_last()).push(more.last()) =~= flags + more);
        assert(more.drop_last().push(more.last()) =~= more);
        lemma_flagged_concatenates(first, second.drop_last(), flags, more.drop_last());
        assert(flagged(all, flags + more) =~= flagged(first, flags) + flagged(second, more));
    } else {
        assert(all =~= first);
        assert(flags + more =~= flags);
        assert(flagged(first, flags) + flagged(second, more) =~= flagged(first, flags));
    }
}

proof fn lemma_flagged_ignores_the_rest<T>(messages: Seq<T>, flags: Seq<bool>, flag: bool)
    requires
        flags.len() >= messages.len(),
    ensures
        flagged(messages, flags.push(flag)) == flagged(messages, flags),
    decreases messages.len(),
{
    if messages.len() > 0 {
        lemma_flagged_ignores_the_rest(messages.drop_last(), flags, flag);
    }
}

/// Offering some messages and then others is offering them all.
pub proof fn lemma_offers_follow<M, S>(
    before: Outbox<Event<M, S>>,
    between: Outbox<Event<M, S>>,
    after: Outbox<Event<M, S>>,
    first: Seq<Event<M, S>>,
    second: Seq<Event<M, S>>,
)
    requires
        between.has_offered(before, first),
        after.has_offered(between, second),
    ensures
        after.has_offered(before, first + second),
{
    let flags = choose|flags: Seq<bool>| takes(before, between, first, flags);
    let more = choose|flags: Seq<bool>| takes(between, after, second, flags);
    lemma_flagged_concatenates(first, second, flags, more);
    assert(after@ =~= before@ + (first + second));
    assert(after.accepted() =~= before.accepted() + flagged(first + second, flags + more));
    assert(takes(before, after, first + second, flags + more));
}

} // verus!
