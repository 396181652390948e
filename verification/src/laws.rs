//! What holds of the library as a whole, over any number of calls.
use crate::address::{law_address_reads_one_way, splits_into};
use crate::channel::{flagged, takes};
use crate::connect::{is_answer, outcome_event, Connection, Dial};
use crate::driver::{
    answers, continues, Done, DynamicMultiReducerFuture, Reaction, State, Turn,
    DATA_CAPACITY, SINK_TO_SOURCE_CAPACITY,
};
use crate::error::Error;
use crate::event::Event;
use crate::mpsc::{are_new, Inbox, Outbox, Polled};
use crate::reducer::{
    detaches, disconnect, disconnects, finds, next_id, sources_of, DynamicMultiReducer,
};
use tokio::sync::mpsc::Sender;
use vstd::prelude::*;
use vstd::std_specs::cmp::PartialEqSpec;

verus! {

// The map from sources to sinks.

/// A source that was mapped to a sink is found there, and no other source moves.
pub proof fn law_mapped_source_is_found<T: Clone>(
    sinks: Map<usize, T>,
    source_id: usize,
    addr: T,
    other: usize,
    found: Option<T>,
)
    ensures
        finds(sinks.insert(source_id, addr), source_id, found) <==> (found matches Some(copy)
            && cloned(addr, copy)),
        other != source_id ==> (finds(sinks.insert(source_id, addr), other, found) <==> finds(
            sinks,
            other,
            found,
        )),
{
}

/// A source that was unmapped is not found, and no other source is lost.
pub proof fn law_unmapped_source_is_not_found<T: Clone>(
    sinks: Map<usize, T>,
    source_id: usize,
    other: usize,
    found: Option<T>,
)
    ensures
        finds(sinks.remove(source_id), source_id, found) <==> found is None,
        other != source_id ==> (finds(sinks.remove(source_id), other, found) <==> finds(
            sinks,
            other,
            found,
        )),
{
}

// Removing a sink.

/// Whether `==` always gives the same answer about `sink` and another sink.
pub open spec fn one_answer<T: PartialEq>(sink: T) -> bool {
    forall|other: T, a: bool, b: bool| #[trigger]
        call_ensures(T::eq, (&sink, &other), a) && #[trigger] call_ensures(
            T::eq,
            (&sink, &other),
            b,
        ) ==> a == b
}

/// Whether the source streams to `sink`, going by the answer that `==` gives.
pub open spec fn streams_to<T: PartialEq>(
    sinks: Map<usize, T>,
    source_id: usize,
    sink: T,
) -> bool {
    sinks.contains_key(source_id) && call_ensures(T::eq, (&sink, &sinks[source_id]), true)
}

/// Where `==` keeps to its specification, it always gives the same answer.
pub proof fn law_specified_equality_gives_one_answer<T: PartialEq>(sink: T)
    requires
        T::obeys_eq_spec(),
    ensures
        one_answer(sink),
{
}

/// The sources that leave with a sink are those that streamed to it.
pub proof fn law_sink_leaves_with_its_sources<T: PartialEq>(
    removed: Seq<usize>,
    sinks: Map<usize, T>,
    sink: T,
    source_id: usize,
)
    requires
        detaches(removed, sinks, sink),
        one_answer(sink),
    ensures
        removed.contains(source_id) <==> streams_to(sinks, source_id, sink),
        T::obeys_eq_spec() ==> removed.to_set() == sources_of(sinks, sink),
{
    assert(removed.contains(source_id) ==> removed.to_set().contains(source_id));
    if T::obeys_eq_spec() {
        assert(removed.to_set() =~= sources_of(sinks, sink));
    }
}

/// Once a sink is removed no source streams to it; the sources of the other
/// sinks stay where they are.
pub proof fn law_removed_sink_has_no_sources<T: PartialEq>(
    removed: Seq<usize>,
    sinks: Map<usize, T>,
    sink: T,
    source_id: usize,
)
    requires
        detaches(removed, sinks, sink),
        one_answer(sink),
    ensures
        ({
            let rest = sinks.remove_keys(removed.to_set());
            &&& !streams_to(rest, source_id, sink)
            &&& sinks.contains_key(source_id) && !streams_to(sinks, source_id, sink)
                ==> rest.contains_key(source_id) && rest[source_id] == sinks[source_id]
            &&& !sinks.contains_key(source_id) ==> !rest.contains_key(source_id)
            &&& T::obeys_eq_spec() ==> sources_of(rest, sink) == Set::<usize>::empty()
        }),
{
    law_sink_leaves_with_its_sources(removed, sinks, sink, source_id);
    if T::obeys_eq_spec() {
        assert(sources_of(sinks.remove_keys(removed.to_set()), sink) =~= Set::empty());
    }
}

/// Removing a sink a second time changes nothing and disconnects nobody.
pub proof fn law_sink_is_removed_once<T: PartialEq, M, S>(
    removed: Seq<usize>,
    again: Seq<usize>,
    sinks: Map<usize, T>,
    sink: T,
)
    requires
        detaches(removed, sinks, sink),
        detaches(again, sinks.remove_keys(removed.to_set()), sink),
        one_answer(sink),
    ensures
        sinks.remove_keys(removed.to_set()).remove_keys(again.to_set()) == sinks.remove_keys(
            removed.to_set(),
        ),
        disconnects::<M, S>(again) == Seq::<Event<M, S>>::empty(),
{
    let rest = sinks.remove_keys(removed.to_set());
    if again.len() > 0 {
        law_removed_sink_has_no_sources(removed, sinks, sink, again[0]);
        law_sink_leaves_with_its_sources(again, rest, sink, again[0]);
    }
    assert(rest.remove_keys(again.to_set()) =~= rest);
    assert(disconnects::<M, S>(again) =~= Seq::empty());
}

/// The driver is asked once to disconnect each source of a removed sink, and is
/// asked about no other source.
pub proof fn law_each_source_is_disconnected_once<T: PartialEq, M, S>(
    removed: Seq<usize>,
    sinks: Map<usize, T>,
    sink: T,
    source_id: usize,
)
    requires
        detaches(removed, sinks, sink),
        one_answer(sink),
    ensures
        disconnects::<M, S>(removed).contains(disconnect(source_id)) <==> streams_to(
            sinks,
            source_id,
            sink,
        ),
        disconnects::<M, S>(removed).no_duplicates(),
{
    law_sink_leaves_with_its_sources(removed, sinks, sink, source_id);
    let asked = disconnects::<M, S>(removed);
    if removed.contains(source_id) {
        let i = choose|i: int| 0 <= i < removed.len() && removed[i] == source_id;
        assert(asked[i] == disconnect::<M, S>(source_id));
    }
    if asked.contains(disconnect(source_id)) {
        let i = choose|i: int|
            0 <= i < asked.len() && asked[i] == disconnect::<M, S>(source_id);
        assert(removed[i] == source_id);
    }
}

// The numbers of the sources.

/// The number of the `n`th source after the one with the number `first`.
pub open spec fn nth_id(first: usize, n: nat) -> usize
    decreases n,
{
    if n == 0 {
        first
    } else {
        next_id(nth_id(first, (n - 1) as nat))
    }
}

proof fn lemma_nth_id(first: usize, n: nat)
    requires
        n <= usize::MAX,
    ensures
        nth_id(first, n) == if first + n <= usize::MAX {
            first + n
        } else {
            first + n - usize::MAX - 1
        },
    decreases n,
{
    if n > 0 {
        lemma_nth_id(first, (n - 1) as nat);
    }
}

proof fn lemma_nth_id_composes(first: usize, i: nat, n: nat)
    ensures
        nth_id(first, i + n) == nth_id(nth_id(first, i), n),
    decreases n,
{
    if n > 0 {
        lemma_nth_id_composes(first, i, (n - 1) as nat);
    }
}

/// No two sources get the same number, unless all the numbers of a `usize` were
/// given out in between.
pub proof fn law_numbers_do_not_repeat(first: usize, i: nat, j: nat)
    requires
        i < j,
        j - i <= usize::MAX,
    ensures
        nth_id(first, i) != nth_id(first, j),
{
    let n = (j - i) as nat;
    lemma_nth_id_composes(first, i, n);
    lemma_nth_id(nth_id(first, i), n);
}

/// Whether every mapped source has a number below `next`.
pub open spec fn numbered_below<T>(sinks: Map<usize, T>, next: usize) -> bool {
    forall|source_id: usize| #[trigger] sinks.contains_key(source_id) ==> source_id < next
}

/// The number for the next source is never in use, until the numbers run out: it
/// is ahead of every mapped source at first, and stays so when a source is
/// connected, when sinks are removed and when the driver answers.
pub proof fn law_numbers_stay_ahead<T, M, S>(
    state: State<T, S>,
    next: usize,
    addr: T,
    removed: Set<usize>,
    polled: Polled<Event<M, S>>,
    done: Done<M, S>,
)
    requires
        numbered_below(state.sinks, next),
    ensures
        numbered_below(Map::<usize, T>::empty(), 1),
        !state.sinks.contains_key(next),
        next < usize::MAX ==> numbered_below(state.sinks.insert(next, addr), next_id(next)),
        numbered_below(state.sinks.remove_keys(removed), next),
        numbered_below(state.after_poll(polled).sinks, next),
        numbered_below(state.after_done(done).sinks, next),
{
}

// The channel of the events.

/// The driver receives from the channel of the handle that made it, whatever was
/// done with the handle before. The streams of the driver and the connections of
/// the handle send into that channel.
pub proof fn law_driver_reads_the_channel_of_its_handle<M, T, S>(
    made: DynamicMultiReducer<M, T, S>,
    used: DynamicMultiReducer<M, T, S>,
    driver: DynamicMultiReducerFuture<M, S>,
    connection: Connection<M, S>,
)
    requires
        made.wired(),
        used.same_channel(made),
        Some(driver.event_rx) == used.event_rx,
        driver.event_tx == used.event_tx.tx(),
        connection.event_emitter == made.event_tx.tx(),
    ensures
        driver.wired(),
        driver.event_rx.channel() == made.event_tx.tx(),
        driver.event_rx.capacity() == made.event_tx.capacity(),
        driver.event_rx.order() == made.event_tx.order(),
        driver.event_rx.channel() == used.event_tx.tx(),
        driver.event_rx.channel() == connection.event_emitter,
{
}

/// The driver receives from the same channel however often it polls.
pub proof fn law_polling_keeps_the_channel<M, S>(
    before: DynamicMultiReducerFuture<M, S>,
    after: DynamicMultiReducerFuture<M, S>,
    polled: Polled<Event<M, S>>,
)
    requires
        before.wired(),
        after.event_rx.has_polled(before.event_rx, polled),
        after.event_tx == before.event_tx,
    ensures
        after.wired(),
        after.event_rx.channel() == before.event_rx.channel(),
        after.event_rx.order() == before.event_rx.order(),
        before.event_rx@.is_prefix_of(after.event_rx@),
        before.event_rx.received().is_prefix_of(after.event_rx.received()),
{
}

proof fn lemma_flagged_are_among_the_messages<T>(messages: Seq<T>, flags: Seq<bool>, message: T)
    ensures
        flagged(messages, flags).contains(message) ==> messages.contains(message),
        flagged(messages, flags).len() <= messages.len(),
    decreases messages.len(),
{
    if messages.len() > 0 {
        let rest = messages.drop_last();
        lemma_flagged_are_among_the_messages(rest, flags, message);
        if flagged(messages, flags).contains(message) {
            let i = choose|i: int|
                0 <= i < flagged(messages, flags).len() && flagged(messages, flags)[i] == message;
            if i < flagged(rest, flags).len() {
                assert(flagged(rest, flags)[i] == message);
                let j = choose|j: int| 0 <= j < rest.len() && rest[j] == message;
                assert(messages[j] == message);
            } else {
                assert(messages[messages.len() - 1] == message);
            }
        }
    }
}

/// Offering messages takes back nothing that the channel took before. The channel
/// takes nothing that was not offered, and no more messages than were offered.
pub proof fn law_channel_takes_what_is_offered<M, S>(
    before: Outbox<Event<M, S>>,
    after: Outbox<Event<M, S>>,
    messages: Seq<Event<M, S>>,
    message: Event<M, S>,
)
    requires
        after.has_offered(before, messages),
    ensures
        before.accepted().is_prefix_of(after.accepted()),
        after.accepted().contains(message) ==> before.accepted().contains(message)
            || messages.contains(message),
        after.accepted().len() <= before.accepted().len() + messages.len(),
{
    let flags = choose|flags: Seq<bool>| takes(before, after, messages, flags);
    let taken = flagged(messages, flags);
    lemma_flagged_are_among_the_messages(messages, flags, message);
    if after.accepted().contains(message) {
        let i = choose|i: int| 0 <= i < after.accepted().len() && after.accepted()[i] == message;
        if i < before.accepted().len() {
            assert(before.accepted()[i] == message);
        } else {
            assert(taken[i - before.accepted().len()] == message);
        }
    }
}

/// What is read of the accepted events comes in the order in which they were
/// accepted: each at its place, and the later one at a later place. Requests to
/// disconnect come as they were made.
pub proof fn law_accepted_events_are_read_in_order<M, S>(
    outbox: Outbox<Event<M, S>>,
    inbox: Inbox<Event<M, S>>,
    i: int,
    j: int,
)
    requires
        outbox.queued(),
        inbox.reads_in_order(),
        inbox.order() == outbox.order(),
        0 <= i <= j < outbox.accepted().len(),
    ensures
        i < j ==> outbox.places()[i] < outbox.places()[j],
        outbox.places()[j] < inbox.received().len() ==> {
            let read = inbox.received()[outbox.places()[j] as int];
            &&& read.alike(outbox.accepted()[j])
            &&& outbox.accepted()[j] is Disconnect ==> read == outbox.accepted()[j]
        },
{
    let place = outbox.places()[j];
    if place < inbox.received().len() {
        assert(inbox.in_place(place as int));
    }
}

/// No event is lost: once the channel is found closed, every accepted event was
/// read.
pub proof fn law_closed_channel_was_read_to_the_end<M, S>(
    outbox: Outbox<Event<M, S>>,
    inbox: Inbox<Event<M, S>>,
    i: int,
)
    requires
        outbox.queued(),
        inbox.reads_in_order(),
        inbox.order() == outbox.order(),
        inbox@.len() > 0,
        inbox@.last() is Closed,
        0 <= i < outbox.accepted().len(),
    ensures
        outbox.places()[i] < inbox.received().len(),
{
    let place = outbox.places()[i];
    assert(outbox.order().contains_key(place));
    assert(!outbox.order().contains_key(inbox.received().len()));
}

/// As long as nobody else can send, what was accepted is what is read first, one
/// event after the other.
pub proof fn law_first_accepted_are_first_read<M, S>(
    outbox: Outbox<Event<M, S>>,
    inbox: Inbox<Event<M, S>>,
    i: int,
)
    requires
        outbox.queued(),
        !outbox.shared(),
        inbox.reads_in_order(),
        inbox.order() == outbox.order(),
        0 <= i < outbox.accepted().len(),
    ensures
        outbox.places()[i] == i,
        i < inbox.received().len() ==> inbox.received()[i].alike(outbox.accepted()[i]),
{
    law_accepted_events_are_read_in_order(outbox, inbox, i, i);
}

/// All the sources of the requests, in the order of the requests.
pub open spec fn all_asked(requests: Seq<Seq<usize>>) -> Seq<usize>
    decreases requests.len(),
{
    if requests.len() == 0 {
        Seq::empty()
    } else {
        all_asked(requests.drop_last()) + requests.last()
    }
}

/// Whether the handle makes the requests, one after the other: `uses` are the
/// handle at first and after each of them.
pub open spec fn asks_for<M, T, S>(
    uses: Seq<DynamicMultiReducer<M, T, S>>,
    requests: Seq<Seq<usize>>,
) -> bool {
    &&& uses.len() == requests.len() + 1
    &&& forall|i: int|
        0 <= i < requests.len() ==> #[trigger] uses[i + 1].has_asked(uses[i], requests[i])
}

proof fn lemma_requests_are_accepted<M, T, S>(
    uses: Seq<DynamicMultiReducer<M, T, S>>,
    requests: Seq<Seq<usize>>,
)
    requires
        asks_for(uses, requests),
        uses[0].has_room(all_asked(requests).len()),
    ensures
        uses.last().event_tx.accepted() == uses[0].event_tx.accepted() + disconnects::<M, S>(
            all_asked(requests),
        ),
        uses.last().wired(),
        uses.last().same_channel(uses[0]),
        !uses.last().event_tx.shared(),
    decreases requests.len(),
{
    let start = uses[0].event_tx.accepted();
    if requests.len() == 0 {
        assert(start + disconnects::<M, S>(all_asked(requests)) =~= start);
    } else {
        let end = requests.len() - 1;
        let before = uses.drop_last();
        let earlier = requests.drop_last();
        assert forall|i: int| 0 <= i < earlier.len() implies #[trigger] before[i + 1].has_asked(
            before[i],
            earlier[i],
        ) by {
            assert(uses[i + 1].has_asked(uses[i], requests[i]));
        }
        lemma_requests_are_accepted(before, earlier);
        assert(uses[end + 1].has_asked(uses[end], requests[end]));
        assert(before.last() == uses[end]);
        assert(disconnects::<M, S>(all_asked(requests)) =~= disconnects::<M, S>(all_asked(earlier))
            + disconnects::<M, S>(requests[end]));
        assert(uses.last().event_tx.accepted() =~= start + disconnects::<M, S>(
            all_asked(requests),
        ));
    }
}

/// The requests that are made through a new handle before its driver is made, as
/// many as the channel has room for, are all accepted, and are what the driver
/// reads first, in their order.
pub proof fn law_requests_before_the_driver_are_read_first<M, T, S>(
    uses: Seq<DynamicMultiReducer<M, T, S>>,
    requests: Seq<Seq<usize>>,
    made: DynamicMultiReducerFuture<M, S>,
    driver: DynamicMultiReducerFuture<M, S>,
    i: int,
)
    requires
        asks_for(uses, requests),
        uses[0].event_tx.accepted() == Seq::<Event<M, S>>::empty(),
        uses[0].has_room(all_asked(requests).len()),
        Some(made.event_rx) == uses.last().event_rx,
        driver.event_rx.order() == made.event_rx.order(),
        driver.event_rx.reads_in_order(),
        0 <= i < all_asked(requests).len(),
    ensures
        uses.last().event_tx.accepted() == disconnects::<M, S>(all_asked(requests)),
        i < driver.event_rx.received().len() ==> driver.event_rx.received()[i] == disconnect::<
            M,
            S,
        >(all_asked(requests)[i]),
{
    lemma_requests_are_accepted(uses, requests);
    let outbox = uses.last().event_tx;
    assert(outbox.accepted() =~= disconnects::<M, S>(all_asked(requests)));
    law_first_accepted_are_first_read(outbox, driver.event_rx, i);
}

// The driver.

/// The source that an event is about.
pub open spec fn source_of<M, S>(event: Event<M, S>) -> usize {
    match event {
        Event::SourceToSink { source_id, .. } => source_id,
        Event::Disconnect { source_id } => source_id,
        Event::Connected { source_id, .. } => source_id,
        Event::Connected2 { source_id, .. } => source_id,
        Event::ConnectionFailed { source_id, .. } => source_id,
        Event::Raw { source_id, .. } => source_id,
        Event::Message { source_id, .. } => source_id,
        Event::Disconnected { source_id } => source_id,
    }
}

/// The state once an event was answered and the reactions carried out. `handle`
/// is the second handle of the stream that a connected source brings.
pub open spec fn handled<T, M, S>(state: State<T, S>, event: Event<M, S>, handle: S) -> State<
    T,
    S,
> {
    let polled = state.after_poll(Polled::Ready(event));
    match event {
        Event::Connected { source_id, .. } => State {
            streams: polled.streams.insert(source_id, handle),
            ..polled
        },
        Event::Disconnected { source_id } => State {
            sinks: polled.sinks.remove(source_id),
            ..polled
        },
        _ => polled,
    }
}

/// What the driver has to be told when the reaction was carried out, if
/// anything. `handle` is the second handle of the stream, where one is made.
pub open spec fn done_after<M, T, S>(reaction: Reaction<M, T, S>, handle: S) -> Option<
    Done<M, S>,
> {
    match reaction {
        Reaction::Duplicate(wiring) => Some(Done::Duplicated { handle, wiring }),
        Reaction::Forget { source_id } => Some(Done::Told { source_id }),
        _ => None,
    }
}

/// The state once the reactions were carried out, in their order.
pub open spec fn carried_out<M, T, S>(
    state: State<T, S>,
    reactions: Seq<Reaction<M, T, S>>,
    handle: S,
) -> State<T, S>
    decreases reactions.len(),
{
    if reactions.len() == 0 {
        state
    } else {
        let before = carried_out(state, reactions.drop_last(), handle);
        match done_after(reactions.last(), handle) {
            Some(done) => before.after_done(done),
            None => before,
        }
    }
}

/// Carrying out the reactions to an event, in their order, leads to the state in
/// which the event is handled.
pub proof fn law_reactions_handle_the_event<T: Clone, M, S>(
    reactions: Seq<Reaction<M, T, S>>,
    state: State<T, S>,
    event_tx: Sender<Event<M, S>>,
    event: Event<M, S>,
    handle: S,
)
    requires
        answers(reactions, state, event_tx, event),
    ensures
        carried_out(state.after_poll(Polled::Ready(event)), reactions, handle) == handled(
            state,
            event,
            handle,
        ),
{
    reveal_with_fuel(carried_out, 4);
}

/// When a source is connected, these are the steps, in this order: a sink is
/// started, the sink of the source is told, the stream is kept, and the
/// processor is set up. What the processor sends for the sink goes to the sink
/// that was started, what the sink sends for the source goes to the processor,
/// each through a channel of its own that nothing went through yet, and the
/// events of the stream go to the driver.
pub proof fn law_connected_source_is_joined_with_its_sink<T: Clone, M, S>(
    reactions: Seq<Reaction<M, T, S>>,
    state: State<T, S>,
    event_tx: Sender<Event<M, S>>,
    reserved: usize,
    source_id: usize,
    stream: S,
    handle: S,
)
    requires
        answers(reactions, state, event_tx, Event::Connected { reserved, source_id, stream }),
    ensures
        reactions.len() == 3,
        reactions[0] matches Reaction::StartSink { data_rx, .. } && reactions[1] matches Reaction::Greet {
            addr,
            greeting,
        } && reactions[2] matches Reaction::Duplicate(wiring) && {
            &&& continues::<M, T, S>(Done::Duplicated { handle, wiring }) == seq![
                Reaction::<M, T, S>::StartProcessor(wiring),
            ]
            &&& cloned(state.sinks[source_id], addr)
            &&& wiring.stream == stream
            &&& are_new(wiring.data_tx, data_rx, DATA_CAPACITY)
            &&& are_new(greeting.sink_to_source, wiring.sink_to_source_rx, SINK_TO_SOURCE_CAPACITY)
            &&& wiring.event_tx == event_tx
        },
{
}

/// When a source is disconnected, its sink is told before the source is
/// forgotten.
pub proof fn law_sink_is_told_before_the_source_is_forgotten<T: Clone, M, S>(
    reactions: Seq<Reaction<M, T, S>>,
    state: State<T, S>,
    event_tx: Sender<Event<M, S>>,
    source_id: usize,
)
    requires
        answers(reactions, state, event_tx, Event::Disconnected { source_id }),
    ensures
        reactions.len() == 2,
        reactions[0] matches Reaction::Tell { addr, event } && cloned(state.sinks[source_id], addr)
            && event == (Event::<M, S>::Disconnected { source_id }),
        reactions[1] == (Reaction::<M, T, S>::Forget { source_id }),
{
}

/// Something that happens to the sources: through the handle, or in the driver.
pub ghost enum Act<T, M, S> {
    /// A source is mapped to a sink, as when it is connected.
    Attach { source_id: usize, addr: T },
    /// Some sources are unmapped, as when a sink is removed.
    Detach { source_ids: Set<usize> },
    /// The driver answers an event and the reaction is carried out.
    Answer { event: Event<M, S>, handle: S },
}

impl<T, M, S> Act<T, M, S> {
    /// The state once this happened.
    pub open spec fn applied(self, state: State<T, S>) -> State<T, S> {
        match self {
            Act::Attach { source_id, addr } => State {
                sinks: state.sinks.insert(source_id, addr),
                ..state
            },
            Act::Detach { source_ids } => State {
                sinks: state.sinks.remove_keys(source_ids),
                ..state
            },
            Act::Answer { event, handle } => handled(state, event, handle),
        }
    }

    /// Whether the source gets connected.
    pub open spec fn connects(self, source_id: usize) -> bool {
        self matches Act::Answer { event, .. } && event is Connected && source_of(event)
            == source_id
    }

    /// Whether the source gets disconnected.
    pub open spec fn disconnects(self, source_id: usize) -> bool {
        self matches Act::Answer { event, .. } && event is Disconnected && source_of(event)
            == source_id
    }

    /// Whether the source gets a sink.
    pub open spec fn maps(self, source_id: usize) -> bool {
        self matches Act::Attach { source_id: mapped, .. } && mapped == source_id
    }

    /// Whether the source gets a sink or loses its sink: it is mapped or
    /// unmapped, its connection fails, or it is disconnected.
    pub open spec fn moves(self, source_id: usize) -> bool {
        match self {
            Act::Attach { source_id: mapped, .. } => mapped == source_id,
            Act::Detach { source_ids } => source_ids.contains(source_id),
            Act::Answer { event, .. } => (event is ConnectionFailed || event is Disconnected)
                && source_of(event) == source_id,
        }
    }
}

/// The state once everything in the history happened.
pub open spec fn run<T, M, S>(start: State<T, S>, history: Seq<Act<T, M, S>>) -> State<T, S>
    decreases history.len(),
{
    if history.len() == 0 {
        start
    } else {
        history.last().applied(run(start, history.drop_last()))
    }
}

/// An event changes what is known of its own source alone.
pub proof fn law_event_touches_its_source_alone<T, M, S>(
    state: State<T, S>,
    event: Event<M, S>,
    handle: S,
    other: usize,
)
    requires
        other != source_of(event),
    ensures
        handled(state, event, handle).sinks.contains_key(other) == state.sinks.contains_key(other),
        handled(state, event, handle).sinks[other] == state.sinks[other],
        handled(state, event, handle).streams.contains_key(other) == state.streams.contains_key(
            other,
        ),
        handled(state, event, handle).streams[other] == state.streams[other],
{
}

/// Asking for a disconnection changes nothing by itself: the source is known
/// until it was disconnected.
pub proof fn law_disconnect_only_asks<T, M, S>(state: State<T, S>, source_id: usize, handle: S)
    ensures
        handled(state, disconnect::<M, S>(source_id), handle) == state,
{
}

/// The stream of a source is shut down when its disconnection is asked for and
/// the source is connected, and on no other event.
pub proof fn law_disconnect_shuts_the_stream_down<T: Clone, M, S>(
    reactions: Seq<Reaction<M, T, S>>,
    state: State<T, S>,
    event_tx: Sender<Event<M, S>>,
    event: Event<M, S>,
    source_id: usize,
)
    requires
        answers(reactions, state, event_tx, event),
    ensures
        reactions.contains(Reaction::Shutdown { source_id }) <==> event == disconnect::<M, S>(
            source_id,
        ) && state.streams.contains_key(source_id),
{
    let shutdown = Reaction::<M, T, S>::Shutdown { source_id };
    if event == disconnect::<M, S>(source_id) && state.streams.contains_key(source_id) {
        assert(reactions[0] == shutdown);
    }
}

/// The driver is done when no event can arrive any more, and not before; it
/// waits only if no event has arrived.
pub proof fn law_driver_runs_until_the_channel_closes<T: Clone, M, S>(
    turn: Turn<M, T, S>,
    state: State<T, S>,
    event_tx: Sender<Event<M, S>>,
    polled: Polled<Event<M, S>>,
)
    requires
        turn.follows(state, event_tx, polled),
    ensures
        turn is Finished <==> polled is Closed,
        turn is Wait <==> polled is Pending,
{
}

/// A source whose connection failed leaves no trace.
pub proof fn law_failed_source_leaves_no_trace<T, M, S>(
    state: State<T, S>,
    source_id: usize,
    reserved: usize,
    addr: T,
    error: Error,
    handle: S,
)
    requires
        !state.sinks.contains_key(source_id),
    ensures
        handled(
            State { sinks: state.sinks.insert(source_id, addr), ..state },
            outcome_event::<M, S>(reserved, source_id, Err(error)),
            handle,
        ) == state,
{
    assert(state.sinks.insert(source_id, addr).remove(source_id) =~= state.sinks);
}

/// A source that was connected and then disconnected leaves no trace; in between
/// it has its stream.
pub proof fn law_session_leaves_no_trace<T, M, S>(
    state: State<T, S>,
    source_id: usize,
    reserved: usize,
    addr: T,
    stream: S,
    handle: S,
    unused: S,
)
    requires
        !state.sinks.contains_key(source_id),
        !state.streams.contains_key(source_id),
    ensures
        ({
            let mapped = State { sinks: state.sinks.insert(source_id, addr), ..state };
            let open = handled(
                mapped,
                outcome_event::<M, S>(reserved, source_id, Ok(stream)),
                handle,
            );
            &&& mapped.can_answer(
                Polled::Ready(outcome_event::<M, S>(reserved, source_id, Ok(stream))),
            )
            &&& open == (State {
                sinks: mapped.sinks,
                streams: state.streams.insert(source_id, handle),
            })
            &&& open.can_answer(Polled::Ready(Event::<M, S>::Disconnected { source_id }))
            &&& handled(open, Event::<M, S>::Disconnected { source_id }, unused) == state
        }),
{
    assert(state.sinks.insert(source_id, addr).remove(source_id) =~= state.sinks);
    assert(state.streams.insert(source_id, handle).remove(source_id) =~= state.streams);
}

/// Whether the source was connected in the history, at `at`, and not
/// disconnected since.
pub open spec fn open_since<T, M, S>(
    history: Seq<Act<T, M, S>>,
    source_id: usize,
    at: int,
) -> bool {
    &&& 0 <= at < history.len()
    &&& history[at].connects(source_id)
    &&& forall|i: int| at < i < history.len() ==> !(#[trigger] history[i]).disconnects(source_id)
}

/// The driver holds the streams of the connected sources and no others.
pub proof fn law_streams_are_those_of_open_sources<T, M, S>(
    start: State<T, S>,
    history: Seq<Act<T, M, S>>,
    source_id: usize,
)
    requires
        start.streams == Map::<usize, S>::empty(),
    ensures
        run(start, history).streams.contains_key(source_id) <==> exists|at: int|
            open_since(history, source_id, at),
    decreases history.len(),
{
    if history.len() > 0 {
        let before = history.drop_last();
        let end = history.len() - 1;
        law_streams_are_those_of_open_sources(start, before, source_id);
        assert(forall|i: int| 0 <= i < end ==> #[trigger] history[i] == before[i]);
        if history[end].connects(source_id) {
            assert(open_since(history, source_id, end));
        } else {
            if exists|at: int| open_since(before, source_id, at) && !history[end].disconnects(
                source_id,
            ) {
                let at = choose|at: int|
                    open_since(before, source_id, at) && !history[end].disconnects(source_id);
                assert(open_since(history, source_id, at));
            }
            if exists|at: int| open_since(history, source_id, at) {
                let at = choose|at: int| open_since(history, source_id, at);
                assert forall|i: int| at < i < before.len() implies !(
                #[trigger] before[i]).disconnects(source_id) by {
                    assert(history[i] == before[i]);
                }
                assert(open_since(before, source_id, at));
            }
        }
    }
}

/// The stream of an open source is the one that it was connected with last.
pub proof fn law_open_source_has_its_latest_stream<T, M, S>(
    start: State<T, S>,
    history: Seq<Act<T, M, S>>,
    source_id: usize,
    at: int,
)
    requires
        open_since(history, source_id, at),
        forall|i: int| at < i < history.len() ==> !(#[trigger] history[i]).connects(source_id),
    ensures
        run(start, history).streams.contains_key(source_id),
        history[at] matches Act::Answer { handle, .. } && run(start, history).streams[source_id]
            == handle,
    decreases history.len(),
{
    let end = history.len() - 1;
    let before = history.drop_last();
    if at < end {
        assert(!history[end].disconnects(source_id));
        assert(!history[end].connects(source_id));
        assert forall|i: int| 0 <= i < before.len() implies #[trigger] before[i] == history[i] by {}
        law_open_source_has_its_latest_stream(start, before, source_id, at);
    }
}

/// Whether nothing in the history from `from` on gives the source a sink or
/// takes its sink.
pub open spec fn unmoved_since<T, M, S>(
    history: Seq<Act<T, M, S>>,
    source_id: usize,
    from: int,
) -> bool {
    forall|i: int| from <= i < history.len() ==> !(#[trigger] history[i]).moves(source_id)
}

/// A source that nothing moved streams to the sink that it streamed to at the
/// start, if any, whatever happened to the other sources.
pub proof fn law_source_keeps_its_sink<T, M, S>(
    start: State<T, S>,
    history: Seq<Act<T, M, S>>,
    source_id: usize,
)
    requires
        unmoved_since(history, source_id, 0),
    ensures
        run(start, history).sinks.contains_key(source_id) <==> start.sinks.contains_key(source_id),
        start.sinks.contains_key(source_id) ==> run(start, history).sinks[source_id]
            == start.sinks[source_id],
    decreases history.len(),
{
    if history.len() > 0 {
        let before = history.drop_last();
        assert(!history[history.len() - 1].moves(source_id));
        assert forall|i: int| 0 <= i < before.len() implies !(#[trigger] before[i]).moves(
            source_id,
        ) by {
            assert(before[i] == history[i]);
        }
        law_source_keeps_its_sink(start, before, source_id);
    }
}

/// What moved a source last decides: it streams to a sink if and only if it was
/// mapped last, and then to the sink that it was mapped to.
pub proof fn law_last_move_decides_the_sink<T, M, S>(
    start: State<T, S>,
    history: Seq<Act<T, M, S>>,
    source_id: usize,
    at: int,
)
    requires
        0 <= at < history.len(),
        history[at].moves(source_id),
        unmoved_since(history, source_id, at + 1),
    ensures
        run(start, history).sinks.contains_key(source_id) <==> history[at].maps(source_id),
        history[at] matches Act::Attach { source_id: mapped, addr } ==> run(
            start,
            history,
        ).sinks[source_id] == addr,
    decreases history.len(),
{
    let before = history.drop_last();
    if at < history.len() - 1 {
        assert(!history[history.len() - 1].moves(source_id));
        assert forall|i: int| at + 1 <= i < before.len() implies !(#[trigger] before[i]).moves(
            source_id,
        ) by {
            assert(before[i] == history[i]);
        }
        law_last_move_decides_the_sink(start, before, source_id, at);
    }
}

// Connecting.

/// The way to a server is through the proxy if and only if there is one; an
/// address that is none is refused either way.
pub proof fn law_proxy_decides_the_way(
    dial: Result<Dial, Error>,
    server_address: Seq<char>,
    proxy_address: Option<Seq<char>>,
)
    requires
        is_answer(dial, server_address, proxy_address),
    ensures
        dial matches Ok(way) ==> (way is Proxy <==> proxy_address is Some),
        dial is Err <==> forall|host: Seq<char>, port: u16|
            !splits_into(server_address, host, port),
{
    match dial {
        Ok(Dial::Proxy { proxy_address: _, addr, port }) => {
            assert(splits_into(server_address, addr@, port));
        },
        _ => {},
    }
}

/// The text of a way to a server.
pub open spec fn way_text(dial: Dial) -> (Option<Seq<char>>, Seq<char>, Option<u16>) {
    match dial {
        Dial::Proxy { proxy_address, addr, port } => (Some(proxy_address@), addr@, Some(port)),
        Dial::Direct { server_address } => (None, server_address@, None),
    }
}

/// There is one way to a server.
pub proof fn law_way_is_determined(
    dial: Result<Dial, Error>,
    other: Result<Dial, Error>,
    server_address: Seq<char>,
    proxy_address: Option<Seq<char>>,
)
    requires
        is_answer(dial, server_address, proxy_address),
        is_answer(other, server_address, proxy_address),
    ensures
        match (dial, other) {
            (Ok(way), Ok(same)) => way_text(way) == way_text(same),
            (Err(_), Err(_)) => true,
            _ => false,
        },
{
    law_proxy_decides_the_way(dial, server_address, proxy_address);
    law_proxy_decides_the_way(other, server_address, proxy_address);
    match (dial, other) {
        (
            Ok(Dial::Proxy { proxy_address: _, addr: a, port: p }),
            Ok(Dial::Proxy { proxy_address: _, addr: b, port: q }),
        ) => {
            law_address_reads_one_way(server_address, a@, p, b@, q);
        },
        _ => {},
    }
}

} // verus!
