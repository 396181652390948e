//! The driver of the reducer: it answers the events of the sources. It shares
//! the map from sources to sinks with the handle.
use crate::event::{Event, EventEmitter};
use crate::mpsc::{are_new, channel, clone_sender, Inbox, Outbox, Polled};
use crate::reducer::InnerMap;
use std::collections::HashMap;
use std::task::Context;
use tokio::sync::mpsc::Sender;
use vstd::prelude::*;

verus! {

/// How many messages of a source wait for the sink before the channel is full.
pub const DATA_CAPACITY: usize = 512;

/// How many commands of a sink wait for the source before the channel is full.
pub const SINK_TO_SOURCE_CAPACITY: usize = 128;

/// The driver: it answers the events of the sources, one at a time.
#[verifier::reject_recursive_types(M)]
#[verifier::reject_recursive_types(S)]
pub struct DynamicMultiReducerFuture<M, S> {
    /// The handles of the connected streams, by source.
    pub streams: HashMap<usize, S>,
    /// Where the events of the sources arrive.
    pub event_rx: Inbox<Event<M, S>>,
    /// Where the streams send their events.
    pub event_tx: Sender<Event<M, S>>,
}

impl<M, S> View for DynamicMultiReducerFuture<M, S> {
    type V = Map<usize, S>;

    /// The handles of the connected streams, by source.
    open spec fn view(&self) -> Map<usize, S> {
        self.streams@
    }
}

impl<M, S> Polled<Event<M, S>> {
    /// The source whose sink has to be told of the event.
    pub open spec fn concerns(self) -> Option<usize> {
        match self {
            Polled::Ready(Event::Connected { source_id, .. }) => Some(source_id),
            Polled::Ready(Event::Disconnected { source_id }) => Some(source_id),
            _ => None,
        }
    }
}

/// The stream of a connected source, and what its processor works with.
#[verifier::reject_recursive_types(M)]
#[verifier::reject_recursive_types(S)]
pub struct Wiring<M, S> {
    /// Handed through to the processor.
    pub reserved: usize,
    /// The source that was connected.
    pub source_id: usize,
    /// Sends what the source sends to the sink.
    pub data_tx: Outbox<(usize, M)>,
    /// Receives what the sink sends to the source.
    pub sink_to_source_rx: Inbox<Result<Vec<u8>, std::io::Error>>,
    /// The stream.
    pub stream: S,
    /// Sends the events of the stream to the driver.
    pub event_tx: Sender<Event<M, S>>,
}

/// What a sink is told of a source that was connected.
pub struct Greeting {
    /// Handed through to the sink.
    pub reserved: usize,
    /// The source that was connected.
    pub source_id: usize,
    /// Sends what the sink sends to the source.
    pub sink_to_source: Outbox<Result<Vec<u8>, std::io::Error>>,
}

impl Greeting {
    /// The event for the sink.
    pub fn into_event<M, S>(self) -> (event: Event<M, S>)
        ensures
            event == (Event::<M, S>::Connected2 {
                reserved: self.reserved,
                source_id: self.source_id,
                sink_to_source: self.sink_to_source.tx(),
            }),
    {
        Event::Connected2 {
            reserved: self.reserved,
            source_id: self.source_id,
            sink_to_source: self.sink_to_source.into_sender(),
        }
    }
}

/// Something that the program has to do about an event.
#[verifier::reject_recursive_types(M)]
#[verifier::reject_recursive_types(S)]
pub enum Reaction<M, SinkAddr, S> {
    /// Shut down both directions of the stream of the source.
    Shutdown { source_id: usize },
    /// Make a sink for `reserved` and `sink_addr`, give it `data_rx` to receive
    /// from, and start it.
    StartSink { reserved: usize, sink_addr: SinkAddr, data_rx: Inbox<(usize, M)> },
    /// Tell `addr` of the event that `greeting` stands for.
    Greet { addr: SinkAddr, greeting: Greeting },
    /// Tell `addr` of `event`.
    Tell { addr: SinkAddr, event: Event<M, S> },
    /// Make a second handle of the stream, and resume with `Done::Duplicated`.
    Duplicate(Wiring<M, S>),
    /// Build the processor of the stream, and set it up.
    StartProcessor(Wiring<M, S>),
    /// Resume with `Done::Told`.
    Forget { source_id: usize },
}

/// How the driver goes on.
#[verifier::reject_recursive_types(M)]
#[verifier::reject_recursive_types(S)]
pub enum Turn<M, SinkAddr, S> {
    /// Carry out the reactions in this order, and poll again at once.
    Continue(Vec<Reaction<M, SinkAddr, S>>),
    /// Wait to be woken.
    Wait,
    /// The driver is done.
    Finished,
}

/// A reaction that the driver has to know of when it was carried out.
#[verifier::reject_recursive_types(M)]
#[verifier::reject_recursive_types(S)]
pub enum Done<M, S> {
    /// `handle` is a second handle of the stream of `wiring`.
    Duplicated { handle: S, wiring: Wiring<M, S> },
    /// The sink was told that the source is gone.
    Told { source_id: usize },
}

/// What is known of the sources: the sink of each, and the stream of each that
/// is connected.
#[verifier::ext_equal]
pub ghost struct State<SinkAddr, S> {
    pub sinks: Map<usize, SinkAddr>,
    pub streams: Map<usize, S>,
}

impl<SinkAddr, S> State<SinkAddr, S> {
    /// Whether the sink that has to be told is known.
    pub open spec fn can_answer<M>(self, polled: Polled<Event<M, S>>) -> bool {
        polled.concerns() matches Some(source_id) ==> self.sinks.contains_key(source_id)
    }

    /// The state once the channel was polled.
    pub open spec fn after_poll<M>(self, polled: Polled<Event<M, S>>) -> Self {
        match polled {
            Polled::Ready(Event::ConnectionFailed { source_id, .. }) => State {
                sinks: self.sinks.remove(source_id),
                ..self
            },
            Polled::Ready(Event::Disconnected { source_id }) => State {
                streams: self.streams.remove(source_id),
                ..self
            },
            _ => self,
        }
    }

    /// The state once a reaction was carried out.
    pub open spec fn after_done<M>(self, done: Done<M, S>) -> Self {
        match done {
            Done::Duplicated { handle, wiring } => State {
                streams: self.streams.insert(wiring.source_id, handle),
                ..self
            },
            Done::Told { source_id } => State { sinks: self.sinks.remove(source_id), ..self },
        }
    }
}

/// Whether the source is joined with its sink in both directions, by two new
/// channels: the sink is started with the receiving end of the one that the
/// processor sends the data into, and is told the sending end of the one that the
/// processor receives from. Nothing went through either channel, and nobody else
/// can send into it.
pub open spec fn joins<M, SinkAddr: Clone, S>(
    start: Reaction<M, SinkAddr, S>,
    greet: Reaction<M, SinkAddr, S>,
    wiring: Wiring<M, S>,
) -> bool {
    &&& start matches Reaction::StartSink { reserved, sink_addr, data_rx }
    &&& greet matches Reaction::Greet { addr, greeting }
    &&& reserved == wiring.reserved
    &&& greeting.reserved == wiring.reserved
    &&& greeting.source_id == wiring.source_id
    &&& cloned(addr, sink_addr)
    &&& are_new(wiring.data_tx, data_rx, DATA_CAPACITY)
    &&& are_new(greeting.sink_to_source, wiring.sink_to_source_rx, SINK_TO_SOURCE_CAPACITY)
}

/// Whether these are the reactions to `event`, in their order.
pub open spec fn answers<M, SinkAddr: Clone, S>(
    reactions: Seq<Reaction<M, SinkAddr, S>>,
    state: State<SinkAddr, S>,
    event_tx: Sender<Event<M, S>>,
    event: Event<M, S>,
) -> bool {
    match event {
        Event::Disconnect { source_id } => if state.streams.contains_key(source_id) {
            reactions =~= seq![Reaction::<M, SinkAddr, S>::Shutdown { source_id }]
        } else {
            reactions =~= Seq::<Reaction<M, SinkAddr, S>>::empty()
        },
        Event::Connected { reserved, source_id, stream } => {
            &&& reactions.len() == 3
            &&& reactions[2] matches Reaction::Duplicate(wiring)
            &&& wiring.reserved == reserved
            &&& wiring.source_id == source_id
            &&& wiring.stream == stream
            &&& wiring.event_tx == event_tx
            &&& joins(reactions[0], reactions[1], wiring)
            &&& reactions[1] matches Reaction::Greet { addr, .. }
            &&& cloned(state.sinks[source_id], addr)
        },
        Event::Disconnected { source_id } => {
            &&& reactions.len() == 2
            &&& reactions[0] matches Reaction::Tell { addr, event: told }
            &&& cloned(state.sinks[source_id], addr)
            &&& told == event
            &&& reactions[1] == (Reaction::<M, SinkAddr, S>::Forget { source_id })
        },
        _ => reactions =~= Seq::<Reaction<M, SinkAddr, S>>::empty(),
    }
}

impl<M, SinkAddr: Clone, S> Turn<M, SinkAddr, S> {
    /// Whether this is how the driver goes on after polling.
    pub open spec fn follows(
        self,
        state: State<SinkAddr, S>,
        event_tx: Sender<Event<M, S>>,
        polled: Polled<Event<M, S>>,
    ) -> bool {
        match polled {
            Polled::Ready(event) => self matches Turn::Continue(reactions) && answers(
                reactions@,
                state,
                event_tx,
                event,
            ),
            Polled::Closed => self is Finished,
            Polled::Pending => self is Wait,
        }
    }
}

/// Whether this is what the driver does about what was polled: it goes on with an
/// answer if it has one, and otherwise names the source whose sink is not known.
pub open spec fn follows_poll<M, SinkAddr: Clone, S>(
    turn: Result<Turn<M, SinkAddr, S>, usize>,
    before: State<SinkAddr, S>,
    after: State<SinkAddr, S>,
    event_tx: Sender<Event<M, S>>,
    polled: Polled<Event<M, S>>,
) -> bool {
    &&& match turn {
        Ok(turn) => before.can_answer(polled) && turn.follows(before, event_tx, polled),
        Err(source_id) => !before.can_answer(polled) && polled.concerns() == Some(source_id),
    }
    &&& after =~= before.after_poll(polled)
}

/// What is left to do once a reaction was carried out.
pub open spec fn continues<M, SinkAddr, S>(done: Done<M, S>) -> Seq<Reaction<M, SinkAddr, S>> {
    match done {
        Done::Duplicated { wiring, .. } => seq![Reaction::StartProcessor(wiring)],
        Done::Told { .. } => Seq::empty(),
    }
}

impl<M, S> DynamicMultiReducerFuture<M, S> {
    /// What the driver knows of the sources, given the map that it shares with
    /// the handle.
    pub open spec fn state<SinkAddr>(self, sinks: InnerMap<SinkAddr>) -> State<SinkAddr, S> {
        State { sinks: sinks@, streams: self@ }
    }

    /// Whether the sink that has to be told is known. If it is not, the driver
    /// has no answer to what was polled.
    pub fn can_answer<SinkAddr>(
        &self,
        sinks: &InnerMap<SinkAddr>,
        polled: &Polled<Event<M, S>>,
    ) -> (yes: bool)
        ensures
            yes == self.state(*sinks).can_answer(*polled),
    {
        match polled {
            Polled::Ready(Event::Connected { source_id, .. }) => sinks.map.contains_key(source_id),
            Polled::Ready(Event::Disconnected { source_id }) => sinks.map.contains_key(source_id),
            _ => true,
        }
    }

    /// Whether the driver receives what its streams send, in the order of the
    /// channel.
    pub open spec fn wired(self) -> bool {
        &&& self.event_rx.channel() == self.event_tx
        &&& self.event_rx.reads_in_order()
    }

    /// Takes the next event out of the driver's channel, if there is one.
    pub fn poll_event(&mut self, cx: &mut Context<'_>) -> (polled: Polled<Event<M, S>>)
        ensures
            final(self).event_rx.has_polled(old(self).event_rx, polled),
            final(self).event_tx == old(self).event_tx,
            final(self)@ == old(self)@,
    {
        let polled = self.event_rx.poll_recv(cx);
        proof {
            let before = old(self).event_rx;
            let after = self.event_rx;
            if before.reads_in_order() {
                assert forall|i: int| 0 <= i < after.received().len() implies #[trigger]
                    after.in_place(i) by {
                    if i < before.received().len() {
                        assert(before.in_place(i));
                    }
                }
            }
        }
        polled
    }

    /// Polls the channel of the events and answers what came of it. Without an
    /// answer, the result is the source whose sink is not known.
    pub fn poll<SinkAddr: PartialEq + Clone + EventEmitter<M, S>>(
        &mut self,
        sinks: &mut InnerMap<SinkAddr>,
        cx: &mut Context<'_>,
    ) -> (turn: Result<Turn<M, SinkAddr, S>, usize>)
        ensures
            final(self).event_rx.has_polled(old(self).event_rx, final(self).event_rx@.last()),
            follows_poll(
                turn,
                old(self).state(*old(sinks)),
                final(self).state(*final(sinks)),
                old(self).event_tx,
                final(self).event_rx@.last(),
            ),
            final(sinks).next_source_id == old(sinks).next_source_id,
            final(self).event_tx == old(self).event_tx,
    {
        let polled = self.poll_event(cx);
        if self.can_answer(sinks, &polled) {
            Ok(self.answer(sinks, polled))
        } else {
            match polled {
                Polled::Ready(Event::Disconnected { source_id }) => {
                    self.streams.remove(&source_id);
                    Err(source_id)
                },
                Polled::Ready(Event::Connected { source_id, .. }) => Err(source_id),
                // Every other result has an answer.
                _ => Ok(Turn::Wait),
            }
        }
    }

    /// Answers what came of polling the channel of the events.
    pub fn answer<SinkAddr: PartialEq + Clone + EventEmitter<M, S>>(
        &mut self,
        sinks: &mut InnerMap<SinkAddr>,
        polled: Polled<Event<M, S>>,
    ) -> (turn: Turn<M, SinkAddr, S>)
        requires
            old(self).state(*old(sinks)).can_answer(polled),
        ensures
            turn.follows(old(self).state(*old(sinks)), old(self).event_tx, polled),
            final(self).state(*final(sinks)) =~= old(self).state(*old(sinks)).after_poll(polled),
            final(sinks).next_source_id == old(sinks).next_source_id,
            final(self).event_rx == old(self).event_rx,
            final(self).event_tx == old(self).event_tx,
    {
        match polled {
            Polled::Ready(event) => {
                let reactions: Vec<Reaction<M, SinkAddr, S>> = match event {
                    Event::ConnectionFailed { source_id, reserved: _ } => {
                        sinks.unmap_source_from_sink(source_id);
                        Vec::new()
                    },
                    Event::Disconnect { source_id } => {
                        if self.streams.contains_key(&source_id) {
                            vec![Reaction::Shutdown { source_id }]
                        } else {
                            Vec::new()
                        }
                    },
                    Event::Connected { reserved, source_id, stream } => {
                        let (data_tx, data_rx): (Outbox<(usize, M)>, Inbox<(usize, M)>) = channel(
                            DATA_CAPACITY,
                        );
                        let addr = sinks.by_source_id(source_id).unwrap();
                        let sink_addr = addr.clone();
                        let (sink_to_source, sink_to_source_rx) = channel(SINK_TO_SOURCE_CAPACITY);
                        let event_tx = clone_sender(&self.event_tx);
                        vec![
                            Reaction::StartSink { reserved, sink_addr, data_rx },
                            Reaction::Greet {
                                addr,
                                greeting: Greeting { reserved, source_id, sink_to_source },
                            },
                            Reaction::Duplicate(
                                Wiring {
                                    reserved,
                                    source_id,
                                    data_tx,
                                    sink_to_source_rx,
                                    stream,
                                    event_tx,
                                },
                            ),
                        ]
                    },
                    Event::Disconnected { source_id } => {
                        self.streams.remove(&source_id);
                        let addr = sinks.by_source_id(source_id).unwrap();
                        vec![
                            Reaction::Tell { addr, event: Event::Disconnected { source_id } },
                            Reaction::Forget { source_id },
                        ]
                    },
                    _ => Vec::new(),
                };
                // Keep polling the events
                Turn::Continue(reactions)
            },
            Polled::Closed => Turn::Finished,
            Polled::Pending => Turn::Wait,
        }
    }

    /// Takes note of a reaction that was carried out, and says what follows.
    pub fn resume<SinkAddr>(
        &mut self,
        sinks: &mut InnerMap<SinkAddr>,
        done: Done<M, S>,
    ) -> (reactions: Vec<Reaction<M, SinkAddr, S>>)
        ensures
            reactions@ =~= continues::<M, SinkAddr, S>(done),
            final(self).state(*final(sinks)) =~= old(self).state(*old(sinks)).after_done(done),
            final(sinks).next_source_id == old(sinks).next_source_id,
            final(self).event_rx == old(self).event_rx,
            final(self).event_tx == old(self).event_tx,
    {
        match done {
            Done::Duplicated { handle, wiring } => {
                self.streams.insert(wiring.source_id, handle);
                vec![Reaction::StartProcessor(wiring)]
            },
            Done::Told { source_id } => {
                sinks.unmap_source_from_sink(source_id);
                Vec::new()
            },
        }
    }

    /// The handle of the stream of a connected source.
    pub fn stream(&self, source_id: usize) -> (stream: Option<&S>)
        ensures
            match stream {
                Some(stream) => self@.contains_key(source_id) && *stream == self@[source_id],
                None => !self@.contains_key(source_id),
            },
    {
        self.streams.get(&source_id)
    }
}

} // verus!
