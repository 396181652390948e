//! The map from sources to sinks, and the handle that adds and removes both.
use crate::channel::{lemma_offers_follow, lemma_offers_none};
use crate::connect::{is_answer, text_of, Connection, Connector};
use crate::driver::DynamicMultiReducerFuture;
use crate::event::{Event, EventEmitter};
use crate::mpsc::{are_new, Inbox, Outbox};
use std::collections::HashMap;
use vstd::prelude::*;
use vstd::std_specs::cmp::PartialEqSpec;

verus! {

/// The sources that stream to `sink`.
pub open spec fn sources_of<T: PartialEq>(sinks: Map<usize, T>, sink: T) -> Set<usize> {
    Set::new(|source_id: usize| sinks.contains_key(source_id) && sink.eq_spec(&sinks[source_id]))
}

/// Whether `found` is the sink of the source: a clone of its address, if the
/// source is mapped.
pub open spec fn finds<T: Clone>(
    sinks: Map<usize, T>,
    source_id: usize,
    found: Option<T>,
) -> bool {
    match found {
        Some(addr) => sinks.contains_key(source_id) && cloned(sinks[source_id], addr),
        None => !sinks.contains_key(source_id),
    }
}

/// Whether `removed` lists the sources that streamed to `sink`, each once: those
/// for whose sink `==` answered that it is `sink`.
pub open spec fn detaches<T: PartialEq>(
    removed: Seq<usize>,
    sinks: Map<usize, T>,
    sink: T,
) -> bool {
    &&& removed.no_duplicates()
    &&& removed.to_set().subset_of(sinks.dom())
    &&& forall|source_id: usize| #[trigger]
        sinks.contains_key(source_id) ==> call_ensures(
            T::eq,
            (&sink, &sinks[source_id]),
            removed.contains(source_id),
        )
}

/// Which sink each source streams to.
pub struct InnerMap<T> {
    /// The address of the sink, by source.
    pub map: HashMap<usize, T>,
    /// Free for the owner of the map to number sources with.
    pub next_source_id: usize,
}

impl<T> View for InnerMap<T> {
    type V = Map<usize, T>;

    open spec fn view(&self) -> Map<usize, T> {
        self.map@
    }
}

impl<T> Default for InnerMap<T> {
    fn default() -> (sinks: Self)
        ensures
            sinks@ == Map::<usize, T>::empty(),
            sinks.next_source_id == 0,
    {
        InnerMap { map: HashMap::new(), next_source_id: 0 }
    }
}

impl<T> InnerMap<T> {
    /// No source is mapped yet.
    pub fn new() -> (sinks: Self)
        ensures
            sinks@ == Map::<usize, T>::empty(),
            sinks.next_source_id == 1,
    {
        InnerMap { map: HashMap::new(), next_source_id: 1 }
    }

    /// Makes the source stream to `sink_addr`, whatever it streamed to before.
    pub fn map_source_to_sink(&mut self, sink_addr: T, source_id: usize)
        ensures
            final(self)@ == old(self)@.insert(source_id, sink_addr),
            final(self).next_source_id == old(self).next_source_id,
    {
        self.map.insert(source_id, sink_addr);
    }

    /// Forgets the source.
    pub fn unmap_source_from_sink(&mut self, source_id: usize)
        ensures
            final(self)@ == old(self)@.remove(source_id),
            final(self).next_source_id == old(self).next_source_id,
    {
        self.map.remove(&source_id);
    }

    /// Forgets every source that streams to `sink_addr` and says which they
    /// were, each once, in no particular order.
    pub fn remove_sink(&mut self, sink_addr: T) -> (removed: Vec<usize>) where T: PartialEq
        ensures
            detaches(removed@, old(self)@, sink_addr),
            final(self)@ == old(self)@.remove_keys(removed@.to_set()),
            final(self).next_source_id == old(self).next_source_id,
    {
        let ghost sinks = self.map@;
        let mut removed: Vec<usize> = Vec::new();
        for entry in it: self.map.iter()
            invariant
                sinks == self.map@,
                it.seq().no_duplicates(),
                forall|i: int|
                    #![trigger it.seq()[i]]
                    0 <= i < it.seq().len() ==> sinks.contains_key(*it.seq()[i].0)
                        && sinks[*it.seq()[i].0] == *it.seq()[i].1,
                forall|k: usize| #[trigger]
                    sinks.contains_key(k) ==> it.seq().contains((&k, &sinks[k])),
                removed@.no_duplicates(),
                forall|j: int|
                    0 <= j < removed@.len() ==> sinks.contains_key(#[trigger] removed@[j]),
                forall|i: int|
                    it.index() <= i < it.seq().len() ==> !removed@.contains(
                        *(#[trigger] it.seq()[i]).0,
                    ),
                forall|i: int|
                    0 <= i < it.index() ==> call_ensures(
                        T::eq,
                        (&sink_addr, it.seq()[i].1),
                        removed@.contains(*(#[trigger] it.seq()[i]).0),
                    ),
        {
            let ghost before = removed@;
            let ghost at = it.index();
            proof {
                assert(entry == it.seq()[at]);
                assert forall|i: int| 0 <= i < it.seq().len() && i != at implies *(
                #[trigger] it.seq()[i]).0 != *entry.0 by {
                    if *it.seq()[i].0 == *entry.0 {
                        assert(it.seq()[i] == it.seq()[at]);
                    }
                }
            }
            if sink_addr == *entry.1 {
                removed.push(*entry.0);
                assert(removed@.last() == *entry.0);
                assert forall|x: usize| x != *entry.0 implies removed@.contains(x)
                    == before.contains(x) by {
                    if before.contains(x) {
                        assert(removed@[before.index_of(x)] == x);
                    }
                }
            }
        }
        let mut next: usize = 0;
        while next < removed.len()
            invariant
                next <= removed.len(),
                self.map@ == sinks.remove_keys(removed@.take(next as int).to_set()),
                self.next_source_id == old(self).next_source_id,
            decreases removed.len() - next,
        {
            let source_id = removed[next];
            self.map.remove(&source_id);
            proof {
                let done = removed@.take(next as int);
                assert(removed@.take(next + 1) =~= done.push(source_id));
                done.lemma_push_to_set_commute(source_id);
                assert(self.map@ =~= sinks.remove_keys(done.push(source_id).to_set()));
            }
            next = next + 1;
        }
        assert(removed@.take(next as int) =~= removed@);
        removed
    }

    /// Returns a sink address associated with the given source id.
    pub fn by_source_id(&self, source_id: usize) -> (addr: Option<T>) where T: Clone
        ensures
            finds(self@, source_id, addr),
    {
        let addr = self.map.get(&source_id);
        addr.cloned()
    }
}

/// How many events wait for the driver before the channel is full.
pub const EVENT_CAPACITY: usize = 256;

/// The number that the source after `source_id` gets: one more, and zero after
/// the last.
pub open spec fn next_id(source_id: usize) -> usize {
    if source_id == usize::MAX {
        0
    } else {
        (source_id + 1) as usize
    }
}

/// The request to disconnect a source.
pub open spec fn disconnect<M, S>(source_id: usize) -> Event<M, S> {
    Event::Disconnect { source_id }
}

/// The requests to disconnect some sources, in the same order.
pub open spec fn disconnects<M, S>(source_ids: Seq<usize>) -> Seq<Event<M, S>> {
    Seq::new(source_ids.len(), |i: int| disconnect(source_ids[i]))
}

/// The handle that adds and removes sources and sinks.
#[verifier::reject_recursive_types(M)]
#[verifier::reject_recursive_types(S)]
pub struct DynamicMultiReducer<M, SinkAddr, S> {
    /// Which sink each source streams to.
    pub map: InnerMap<SinkAddr>,
    /// The receiving end of the events, until the driver has it.
    pub event_rx: Option<Inbox<Event<M, S>>>,
    /// Where events for the driver are sent.
    pub event_tx: Outbox<Event<M, S>>,
    /// The number that the next source gets.
    pub next_source_id: usize,
}

impl<M, SinkAddr, S> DynamicMultiReducer<M, SinkAddr, S> {
    /// Whether `self` and `other` send into and receive from the same channel.
    pub open spec fn same_channel(self, other: Self) -> bool {
        &&& self.event_rx == other.event_rx
        &&& self.event_tx.tx() == other.event_tx.tx()
        &&& self.event_tx.capacity() == other.event_tx.capacity()
        &&& self.event_tx.order() == other.event_tx.order()
    }

    /// Whether the driver receives what the handle sends, in the same order: as
    /// long as the handle has the receiving end, it is the one of its own
    /// channel.
    pub open spec fn wired(self) -> bool {
        &&& self.event_tx.queued()
        &&& self.event_rx matches Some(event_rx) ==> {
            &&& event_rx.channel() == self.event_tx.tx()
            &&& event_rx.capacity() == self.event_tx.capacity()
            &&& event_rx.order() == self.event_tx.order()
            &&& event_rx.reads_in_order()
        }
    }

    /// Whether the channel is sure to take `n` more requests of the handle: the
    /// handle has both ends, nobody else can send, and there is room.
    pub open spec fn has_room(self, n: nat) -> bool {
        &&& self.wired()
        &&& self.event_rx is Some
        &&& !self.event_tx.shared()
        &&& self.event_tx.accepted().len() + n <= self.event_tx.capacity()
    }

    /// Whether `self` is what `before` is once it has asked the driver to
    /// disconnect the sources, in this order. What becomes of the map is not
    /// part of this.
    pub open spec fn has_asked(self, before: Self, source_ids: Seq<usize>) -> bool {
        &&& self.event_tx.has_offered(before.event_tx, disconnects::<M, S>(source_ids))
        &&& before.has_room(source_ids.len()) ==> self.event_tx.accepted()
            == before.event_tx.accepted() + disconnects::<M, S>(source_ids)
        &&& self.same_channel(before)
        &&& before.wired() ==> self.wired()
        &&& self.next_source_id == before.next_source_id
    }
}

impl<M, SinkAddr: PartialEq + Clone + EventEmitter<M, S>, S> DynamicMultiReducer<M, SinkAddr, S> {
    /// No source yet; the first one gets the number 1.
    pub fn new() -> (reducer: Self)
        ensures
            reducer.map@ == Map::<usize, SinkAddr>::empty(),
            reducer.map.next_source_id == 1,
            reducer.next_source_id == 1,
            reducer.event_rx matches Some(event_rx) && are_new(
                reducer.event_tx,
                event_rx,
                EVENT_CAPACITY,
            ),
            reducer.wired(),
            reducer.has_room(EVENT_CAPACITY as nat),
    {
        let (event_tx, event_rx) = Outbox::open(EVENT_CAPACITY);
        DynamicMultiReducer {
            event_tx,
            event_rx: Some(event_rx),
            next_source_id: 1,
            map: InnerMap::new(),
        }
    }

    /// Makes the driver, which can be done once.
    pub fn future(&mut self) -> (driver: DynamicMultiReducerFuture<M, S>)
        requires
            old(self).event_rx is Some,
        ensures
            Some(driver.event_rx) == old(self).event_rx,
            driver.event_tx == old(self).event_tx.tx(),
            driver@ == Map::<usize, S>::empty(),
            old(self).wired() ==> driver.wired(),
            final(self).event_rx is None,
            final(self).event_tx.keeps(old(self).event_tx),
            final(self).event_tx.shared(),
            old(self).wired() ==> final(self).wired(),
            final(self).next_source_id == old(self).next_source_id,
            final(self).map == old(self).map,
    {
        let event_rx = self.event_rx.take().unwrap();
        DynamicMultiReducerFuture {
            streams: HashMap::new(),
            event_tx: self.event_tx.sender(),
            event_rx,
        }
    }

    /// Forgets the sources of the sink, and asks the driver to disconnect each.
    pub fn remove_sink(&mut self, wss: SinkAddr)
        ensures
            exists|removed: Seq<usize>| #[trigger]
                detaches(removed, old(self).map@, wss) && final(self).map@
                    == old(self).map@.remove_keys(removed.to_set())
                    && final(self).has_asked(*old(self), removed),
            final(self).map.next_source_id == old(self).map.next_source_id,
    {
        let removed = self.map.remove_sink(wss);
        let ghost map = self.map;
        proof {
            lemma_offers_none(self.event_tx);
            assert(disconnects::<M, S>(removed@.take(0)) =~= Seq::empty());
            assert(self.event_tx.accepted() + disconnects::<M, S>(removed@.take(0))
                =~= self.event_tx.accepted());
        }
        let mut next: usize = 0;
        while next < removed.len()
            invariant
                next <= removed.len(),
                self.map == map,
                self.event_tx.has_offered(
                    old(self).event_tx,
                    disconnects::<M, S>(removed@.take(next as int)),
                ),
                old(self).has_room(removed@.len()) ==> self.event_tx.accepted() == old(
                    self,
                ).event_tx.accepted() + disconnects::<M, S>(removed@.take(next as int)),
                self.next_source_id == old(self).next_source_id,
                self.event_rx == old(self).event_rx,
            decreases removed.len() - next,
        {
            let source_id = removed[next];
            let ghost before = self.event_tx;
            let ghost asked = disconnects::<M, S>(removed@.take(next as int));
            self.event_tx.offer(self.event_rx.as_ref(), Event::Disconnect { source_id });
            proof {
                let request = seq![disconnect::<M, S>(source_id)];
                lemma_offers_follow(old(self).event_tx, before, self.event_tx, asked, request);
                assert(disconnects::<M, S>(removed@.take(next + 1)) =~= asked + request);
                assert(old(self).event_tx.accepted() + (asked + request) =~= (old(
                    self,
                ).event_tx.accepted() + asked).push(disconnect(source_id)));
            }
            next = next + 1;
        }
        assert(removed@.take(next as int) =~= removed@);
        assert(detaches(removed@, old(self).map@, wss));
        assert(self.has_asked(*old(self), removed@));
    }

    /// Asks the driver to disconnect the source.
    pub fn shutdown_source(&mut self, source_id: usize)
        ensures
            final(self).has_asked(*old(self), seq![source_id]),
            final(self).map == old(self).map,
    {
        self.event_tx.offer(self.event_rx.as_ref(), Event::Disconnect { source_id });
        proof {
            let request = seq![disconnect::<M, S>(source_id)];
            assert(disconnects::<M, S>(seq![source_id]) =~= request);
            assert(old(self).event_tx.accepted().push(disconnect(source_id)) =~= old(
                self,
            ).event_tx.accepted() + request);
        }
    }

    /// Connects a new source to the sink.
    pub fn connect(
        &mut self,
        reserved: usize,
        server_address: String,
        proxy: Option<String>,
        addr: SinkAddr,
    ) -> (connected: (usize, Connection<M, S>))
        ensures
            connected.0 == old(self).next_source_id,
            final(self).next_source_id == next_id(old(self).next_source_id),
            final(self).map@ == old(self).map@.insert(connected.0, addr),
            final(self).map.next_source_id == old(self).map.next_source_id,
            final(self).event_tx.keeps(old(self).event_tx),
            final(self).event_tx.shared(),
            final(self).event_rx == old(self).event_rx,
            old(self).wired() ==> final(self).wired(),
            connected.1.reserved == reserved,
            connected.1.source_id == connected.0,
            connected.1.event_emitter == old(self).event_tx.tx(),
            is_answer(connected.1.dial, server_address@, text_of(proxy)),
    {
        let source_id = self.next_source_id;
        self.next_source_id = source_id.wrapping_add(1);
        self.map.map_source_to_sink(addr, source_id);
        let event_emitter = self.event_tx.sender();
        let connection = Connector::connect(
            reserved,
            server_address,
            proxy,
            source_id,
            event_emitter,
        );
        (source_id, connection)
    }
}

} // verus!
