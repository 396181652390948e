use dynamic_multi_reducer::connect::Dial;
use dynamic_multi_reducer::driver::{
    Done, DynamicMultiReducerFuture, Reaction, Turn, DATA_CAPACITY, SINK_TO_SOURCE_CAPACITY,
};
use dynamic_multi_reducer::event::{Event, EventEmitter};
use dynamic_multi_reducer::mpsc::{Offer, Outbox, Polled};
use dynamic_multi_reducer::reducer::{DynamicMultiReducer, InnerMap, EVENT_CAPACITY};
use std::cell::RefCell;
use std::rc::Rc;
use std::task::Context;

/// A sink address that is equal to another by its number alone.
#[derive(Clone, Debug)]
struct Addr {
    id: usize,
    told: Rc<RefCell<Vec<String>>>,
}

impl PartialEq for Addr {
    fn eq(&self, other: &Self) -> bool {
        self.id == other.id
    }
}

impl EventEmitter<String, u32> for Addr {
    fn emit(&mut self, event: Event<String, u32>) {
        let text = match event {
            Event::Connected2 { reserved, source_id, .. } => {
                format!("connected {} {}", reserved, source_id)
            }
            Event::Disconnected { source_id } => format!("disconnected {}", source_id),
            other => format!("{:?}", other),
        };
        self.told.borrow_mut().push(text);
    }
}

/// A sink address that takes no notice.
#[derive(Clone, PartialEq, Debug)]
struct Silent;

impl EventEmitter<String, u32> for Silent {
    fn emit(&mut self, _event: Event<String, u32>) {}
}

fn addr(id: usize) -> Addr {
    Addr { id, told: Rc::new(RefCell::new(Vec::new())) }
}

type Reducer = DynamicMultiReducer<String, Addr, u32>;
type Driver = DynamicMultiReducerFuture<String, u32>;

fn connect(reducer: &mut Reducer, sink: &Addr) -> usize {
    reducer.connect(0, "1.2.3.4:80".to_string(), None, sink.clone()).0
}

type Reactions = Vec<Reaction<String, Addr, u32>>;

fn react(reducer: &mut Reducer, driver: &mut Driver, event: Event<String, u32>) -> Reactions {
    let polled = Polled::Ready(event);
    assert!(driver.can_answer(&reducer.map, &polled));
    match driver.answer(&mut reducer.map, polled) {
        Turn::Continue(reactions) => reactions,
        _ => panic!("an event was not answered"),
    }
}

fn open(reducer: &mut Reducer, driver: &mut Driver, source_id: usize, handle: u32) {
    let event = Event::Connected { reserved: 0, source_id, stream: handle };
    match react(reducer, driver, event).pop() {
        Some(Reaction::Duplicate(wiring)) => {
            driver.resume(&mut reducer.map, Done::Duplicated { handle, wiring });
        }
        _ => panic!("the stream was not kept"),
    }
}

fn next(driver: &mut Driver) -> Polled<Event<String, u32>> {
    driver.poll_event(&mut Context::from_waker(futures::task::noop_waker_ref()))
}

fn poll(reducer: &mut Reducer, driver: &mut Driver) -> Result<Turn<String, Addr, u32>, usize> {
    let mut cx = Context::from_waker(futures::task::noop_waker_ref());
    driver.poll(&mut reducer.map, &mut cx)
}

fn asked(driver: &mut Driver) -> Vec<usize> {
    let mut source_ids = Vec::new();
    while let Polled::Ready(event) = next(driver) {
        match event {
            Event::Disconnect { source_id } => source_ids.push(source_id),
            other => panic!("{:?}", other),
        }
    }
    source_ids
}

#[test]
fn map_starts_empty() {
    let sinks: InnerMap<u64> = InnerMap::new();
    assert_eq!(sinks.by_source_id(1), None);
    assert_eq!(sinks.next_source_id, 1);
    let sinks: InnerMap<u64> = InnerMap::default();
    assert_eq!(sinks.by_source_id(0), None);
    assert_eq!(sinks.next_source_id, 0);
}

#[test]
fn mapped_source_is_found_until_it_is_unmapped() {
    let mut sinks: InnerMap<u64> = InnerMap::new();
    sinks.map_source_to_sink(70, 1);
    sinks.map_source_to_sink(80, 2);
    assert_eq!(sinks.by_source_id(1), Some(70));
    assert_eq!(sinks.by_source_id(2), Some(80));
    sinks.map_source_to_sink(90, 1);
    assert_eq!(sinks.by_source_id(1), Some(90));
    sinks.unmap_source_from_sink(1);
    assert_eq!(sinks.by_source_id(1), None);
    assert_eq!(sinks.by_source_id(2), Some(80));
    sinks.unmap_source_from_sink(1);
    assert_eq!(sinks.by_source_id(2), Some(80));
}

#[test]
fn removed_sink_takes_its_sources_along() {
    let mut sinks: InnerMap<u64> = InnerMap::new();
    sinks.map_source_to_sink(7, 1);
    sinks.map_source_to_sink(8, 2);
    sinks.map_source_to_sink(7, 3);
    let mut removed = sinks.remove_sink(7);
    removed.sort();
    assert_eq!(removed, vec![1, 3]);
    assert_eq!(sinks.by_source_id(1), None);
    assert_eq!(sinks.by_source_id(2), Some(8));
    assert_eq!(sinks.by_source_id(3), None);
    assert_eq!(sinks.remove_sink(7), Vec::<usize>::new());
    assert_eq!(sinks.by_source_id(2), Some(8));
}

#[test]
fn sources_are_numbered_from_one() {
    let mut reducer = Reducer::new();
    let sink = addr(7);
    assert_eq!(connect(&mut reducer, &sink), 1);
    assert_eq!(connect(&mut reducer, &sink), 2);
    assert_eq!(connect(&mut reducer, &addr(8)), 3);
    assert_eq!(reducer.map.by_source_id(3).map(|a| a.id), Some(8));
    assert_eq!(reducer.map.next_source_id, 1);
}

#[test]
fn numbers_start_over_after_the_last() {
    let mut reducer = Reducer::new();
    reducer.next_source_id = usize::MAX;
    assert_eq!(connect(&mut reducer, &addr(7)), usize::MAX);
    assert_eq!(connect(&mut reducer, &addr(7)), 0);
    assert_eq!(connect(&mut reducer, &addr(7)), 1);
}

#[test]
fn connection_reports_to_the_driver() {
    let mut reducer = Reducer::new();
    let (source_id, connection) =
        reducer.connect(5, "1.2.3.4:80".to_string(), Some("p:1".to_string()), addr(7));
    assert_eq!((connection.source_id, connection.reserved), (source_id, 5));
    assert!(matches!(connection.dial, Ok(Dial::Proxy { .. })));
    let mut driver = reducer.future();
    connection.event_emitter.try_send(Event::ConnectionFailed { source_id, reserved: 5 }).unwrap();
    driver.event_tx.try_send(Event::Disconnected { source_id }).unwrap();
    let failed = next(&mut driver);
    assert!(matches!(failed, Polled::Ready(Event::ConnectionFailed { source_id: 1, .. })));
    assert!(matches!(next(&mut driver), Polled::Ready(Event::Disconnected { source_id: 1 })));
    assert!(matches!(next(&mut driver), Polled::Pending));
}

#[test]
fn bad_address_is_still_given_a_number() {
    let mut reducer = Reducer::new();
    let (source_id, connection) = reducer.connect(0, "nowhere".to_string(), None, addr(7));
    assert_eq!(source_id, 1);
    assert!(connection.dial.is_err());
    assert!(reducer.map.by_source_id(1).is_some());
}

#[test]
fn driver_is_made_once() {
    let mut reducer = Reducer::new();
    assert!(reducer.event_rx.is_some());
    let driver = reducer.future();
    assert!(reducer.event_rx.is_none());
    assert!(driver.stream(1).is_none());
    assert_eq!(driver.event_tx.max_capacity(), 256);
    assert_eq!(EVENT_CAPACITY, 256);
}

#[test]
fn shutdown_asks_the_driver() {
    let mut reducer = Reducer::new();
    let mut driver = reducer.future();
    reducer.shutdown_source(4);
    reducer.shutdown_source(2);
    assert_eq!(asked(&mut driver), vec![4, 2]);
    assert!(matches!(next(&mut driver), Polled::Pending));
}

#[test]
fn driver_reads_what_was_queued_before_it_was_made() {
    let mut reducer = Reducer::new();
    let sink = addr(7);
    let (source_id, connection) =
        reducer.connect(5, "1.2.3.4:80".to_string(), None, sink.clone());
    reducer.shutdown_source(9);
    connection.event_emitter.try_send(Event::Disconnected { source_id }).unwrap();
    let mut driver = reducer.future();
    reducer.shutdown_source(8);
    assert!(matches!(next(&mut driver), Polled::Ready(Event::Disconnect { source_id: 9 })));
    assert!(matches!(next(&mut driver), Polled::Ready(Event::Disconnected { source_id: 1 })));
    assert!(matches!(next(&mut driver), Polled::Ready(Event::Disconnect { source_id: 8 })));
    assert!(matches!(next(&mut driver), Polled::Pending));
}

#[test]
fn driver_polls_and_answers() {
    let mut reducer = Reducer::new();
    let mut driver = reducer.future();
    let source_id = connect(&mut reducer, &addr(7));
    assert!(matches!(poll(&mut reducer, &mut driver), Ok(Turn::Wait)));
    open(&mut reducer, &mut driver, source_id, 42);
    reducer.shutdown_source(source_id);
    match poll(&mut reducer, &mut driver) {
        Ok(Turn::Continue(reactions)) => {
            assert!(matches!(&reactions[..], [Reaction::Shutdown { source_id: 1 }]));
        }
        _ => panic!("the request was not answered"),
    }
    assert!(matches!(poll(&mut reducer, &mut driver), Ok(Turn::Wait)));
}

#[test]
fn source_without_a_sink_is_named() {
    let mut reducer = Reducer::new();
    let mut driver = reducer.future();
    let source_id = connect(&mut reducer, &addr(7));
    open(&mut reducer, &mut driver, source_id, 42);
    reducer.map.unmap_source_from_sink(source_id);
    let again = Event::Connected { reserved: 0, source_id, stream: 43 };
    driver.event_tx.try_send(again).unwrap();
    driver.event_tx.try_send(Event::Disconnected { source_id }).unwrap();
    assert!(matches!(poll(&mut reducer, &mut driver), Err(1)));
    assert_eq!(driver.stream(source_id), Some(&42));
    assert!(matches!(poll(&mut reducer, &mut driver), Err(1)));
    assert_eq!(driver.stream(source_id), None);
}

#[test]
fn removing_a_sink_asks_for_each_of_its_sources_once() {
    let mut reducer = Reducer::new();
    let mut driver = reducer.future();
    let (first, second) = (addr(7), addr(8));
    for _ in 0..3 {
        connect(&mut reducer, &first);
        connect(&mut reducer, &second);
    }
    reducer.remove_sink(addr(7));
    let mut requests = asked(&mut driver);
    requests.sort();
    assert_eq!(requests, vec![1, 3, 5]);
    for source_id in 1..=6 {
        let sink = reducer.map.by_source_id(source_id).map(|a| a.id);
        assert_eq!(sink, if source_id % 2 == 0 { Some(8) } else { None });
    }
    reducer.remove_sink(addr(7));
    assert_eq!(asked(&mut driver), Vec::<usize>::new());
}

#[test]
fn requests_beyond_the_capacity_are_dropped() {
    let mut reducer = Reducer::new();
    let mut driver = reducer.future();
    for source_id in 0..300 {
        reducer.shutdown_source(source_id);
    }
    assert_eq!(asked(&mut driver), (0..256).collect::<Vec<usize>>());
    drop(driver);
    reducer.shutdown_source(1);
}

#[test]
fn full_or_closed_channel_gives_the_message_back() {
    let (mut outbox, inbox) = Outbox::<Event<String, u32>>::open(1);
    let request = |source_id| Event::Disconnect { source_id };
    assert!(matches!(outbox.offer(Some(&inbox), request(10)), Offer::Accepted));
    let back = outbox.offer(Some(&inbox), request(11));
    assert!(matches!(back, Offer::Full(Event::Disconnect { source_id: 11 })));
    let mut rx = inbox.into_receiver();
    assert!(matches!(rx.try_recv(), Ok(Event::Disconnect { source_id: 10 })));
    assert!(outbox.sender().try_send(request(12)).is_ok());
    assert!(matches!(rx.try_recv(), Ok(Event::Disconnect { source_id: 12 })));
    drop(rx);
    let back = outbox.offer(None, request(13));
    assert!(matches!(back, Offer::Closed(Event::Disconnect { source_id: 13 })));
}

#[test]
fn requests_before_the_driver_are_read_first() {
    let mut reducer = Reducer::new();
    for _ in 0..3 {
        reducer.map.map_source_to_sink(addr(7), 40);
        reducer.remove_sink(addr(7));
    }
    for source_id in 0..253 {
        reducer.shutdown_source(source_id);
    }
    let mut driver = reducer.future();
    reducer.shutdown_source(999);
    let mut expected = vec![40, 40, 40];
    expected.extend(0..253);
    assert_eq!(asked(&mut driver), expected);
    driver.event_tx.try_send(Event::Disconnected { source_id: 1 }).unwrap();
    reducer.shutdown_source(998);
    assert!(matches!(next(&mut driver), Polled::Ready(Event::Disconnected { source_id: 1 })));
    assert_eq!(asked(&mut driver), vec![998]);
}

#[test]
fn requests_of_the_handle_keep_their_order_among_others() {
    let mut reducer = Reducer::new();
    let (source_id, connection) =
        reducer.connect(0, "1.2.3.4:80".to_string(), None, addr(7));
    let mut driver = reducer.future();
    for source_id in 10..15 {
        reducer.shutdown_source(source_id);
        connection.event_emitter.try_send(Event::Disconnect { source_id: 1 }).unwrap();
    }
    assert_eq!(source_id, 1);
    assert_eq!(asked(&mut driver), vec![10, 1, 11, 1, 12, 1, 13, 1, 14, 1]);
}

#[test]
fn closed_channel_was_read_to_the_end() {
    let mut reducer = Reducer::new();
    let mut driver = reducer.future();
    reducer.shutdown_source(5);
    reducer.shutdown_source(6);
    drop(reducer);
    driver.event_tx = Outbox::open(1).0.into_sender();
    assert_eq!(asked(&mut driver), vec![5, 6]);
    assert!(matches!(next(&mut driver), Polled::Closed));
}

#[test]
fn reducer_and_driver_move_between_threads() {
    fn moves<T: Send>(_: &T) {}
    let mut reducer = DynamicMultiReducer::<String, Silent, u32>::new();
    let driver = reducer.future();
    moves(&reducer);
    moves(&driver);
}

#[test]
fn ends_of_a_channel_belong_together() {
    let (first, first_inbox) = Outbox::open(3);
    let (second, second_inbox) = Outbox::open(5);
    let (first, second) = (first.into_sender(), second.into_sender());
    assert_eq!((first.max_capacity(), second.max_capacity()), (3, 5));
    second.try_send(20).unwrap();
    first.try_send(10).unwrap();
    assert_eq!(first_inbox.into_receiver().try_recv(), Ok(10));
    assert_eq!(second_inbox.into_receiver().try_recv(), Ok(20));
}

#[test]
fn connected_source_is_wired_to_its_sink() {
    let mut reducer = Reducer::new();
    let mut driver = reducer.future();
    let sink = addr(7);
    let source_id = connect(&mut reducer, &sink);
    let event = Event::Connected { reserved: 5, source_id, stream: 42 };
    let mut reactions = react(&mut reducer, &mut driver, event).into_iter();
    let mut data_rx = match reactions.next() {
        Some(Reaction::StartSink { reserved, sink_addr, data_rx }) => {
            assert_eq!(reserved, 5);
            assert_eq!(sink_addr, sink);
            data_rx.into_receiver()
        }
        _ => panic!("no sink was started"),
    };
    let sink_to_source = match reactions.next() {
        Some(Reaction::Greet { mut addr, mut greeting }) => {
            assert_eq!((greeting.reserved, greeting.source_id), (5, source_id));
            let told = greeting.sink_to_source.sender();
            addr.emit(greeting.into_event());
            told
        }
        _ => panic!("the sink was not told"),
    };
    assert_eq!(*sink.told.borrow(), vec!["connected 5 1".to_string()]);
    let wiring = match reactions.next() {
        Some(Reaction::Duplicate(wiring)) => wiring,
        _ => panic!("the stream was not kept"),
    };
    assert!(reactions.next().is_none());
    assert!(driver.stream(source_id).is_none());
    let done = Done::Duplicated { handle: 43, wiring };
    let mut rest = driver.resume::<Addr>(&mut reducer.map, done).into_iter();
    assert_eq!(driver.stream(source_id), Some(&43));
    let wiring = match rest.next() {
        Some(Reaction::StartProcessor(wiring)) => wiring,
        _ => panic!("no processor was set up"),
    };
    assert!(rest.next().is_none());
    assert_eq!((wiring.reserved, wiring.source_id, wiring.stream), (5, source_id, 42));
    let data_tx = wiring.data_tx.into_sender();
    assert_eq!((DATA_CAPACITY, data_tx.max_capacity(), data_tx.capacity()), (512, 512, 512));
    assert_eq!((SINK_TO_SOURCE_CAPACITY, sink_to_source.max_capacity()), (128, 128));
    assert_eq!(sink_to_source.capacity(), 128);
    assert!(data_rx.try_recv().is_err());
    data_tx.try_send((source_id, "hello".to_string())).unwrap();
    assert_eq!(data_rx.try_recv(), Ok((source_id, "hello".to_string())));
    sink_to_source.try_send(Ok(vec![1, 2])).unwrap();
    let mut commands = wiring.sink_to_source_rx.into_receiver();
    assert_eq!(commands.try_recv().unwrap().unwrap(), vec![1, 2]);
    wiring.event_tx.try_send(Event::Disconnected { source_id }).unwrap();
    assert!(matches!(next(&mut driver), Polled::Ready(Event::Disconnected { source_id: 1 })));
}

#[test]
fn disconnect_shuts_down_a_connected_source_only() {
    let mut reducer = Reducer::new();
    let mut driver = reducer.future();
    let source_id = connect(&mut reducer, &addr(7));
    let event = Event::Disconnect { source_id };
    assert!(react(&mut reducer, &mut driver, event).is_empty());
    open(&mut reducer, &mut driver, source_id, 42);
    let event = Event::Disconnect { source_id };
    let reactions = react(&mut reducer, &mut driver, event);
    assert!(matches!(&reactions[..], [Reaction::Shutdown { source_id: 1 }]));
    assert_eq!(driver.stream(source_id), Some(&42));
    assert!(reducer.map.by_source_id(source_id).is_some());
}

#[test]
fn reconnected_source_has_its_latest_stream() {
    let mut reducer = Reducer::new();
    let mut driver = reducer.future();
    let source_id = connect(&mut reducer, &addr(7));
    open(&mut reducer, &mut driver, source_id, 42);
    open(&mut reducer, &mut driver, source_id, 43);
    assert_eq!(driver.stream(source_id), Some(&43));
}

#[test]
fn disconnected_source_leaves_no_trace() {
    let mut reducer = Reducer::new();
    let mut driver = reducer.future();
    let (sink, other) = (addr(7), addr(8));
    let source_id = connect(&mut reducer, &sink);
    let kept = connect(&mut reducer, &other);
    open(&mut reducer, &mut driver, source_id, 42);
    open(&mut reducer, &mut driver, kept, 44);
    let event = Event::Disconnected { source_id };
    let mut reactions = react(&mut reducer, &mut driver, event).into_iter();
    assert!(driver.stream(source_id).is_none());
    match reactions.next() {
        Some(Reaction::Tell { addr: mut told, event }) => told.emit(event),
        _ => panic!("the sink was not told"),
    }
    assert!(reducer.map.by_source_id(source_id).is_some());
    assert!(matches!(reactions.next(), Some(Reaction::Forget { source_id: 1 })));
    assert!(reactions.next().is_none());
    let rest = driver.resume::<Addr>(&mut reducer.map, Done::Told { source_id });
    assert!(rest.is_empty());
    assert_eq!(*sink.told.borrow(), vec!["disconnected 1".to_string()]);
    assert!(other.told.borrow().is_empty());
    assert!(driver.stream(source_id).is_none());
    assert!(reducer.map.by_source_id(source_id).is_none());
    assert_eq!(driver.stream(kept), Some(&44));
    assert_eq!(reducer.map.by_source_id(kept).map(|a| a.id), Some(8));
}

#[test]
fn failed_source_leaves_no_trace() {
    let mut reducer = Reducer::new();
    let mut driver = reducer.future();
    let source_id = connect(&mut reducer, &addr(7));
    let kept = connect(&mut reducer, &addr(7));
    let event = Event::ConnectionFailed { source_id, reserved: 0 };
    assert!(react(&mut reducer, &mut driver, event).is_empty());
    assert!(reducer.map.by_source_id(source_id).is_none());
    assert!(reducer.map.by_source_id(kept).is_some());
}

#[test]
fn other_events_are_passed_over() {
    let mut reducer = Reducer::new();
    let mut driver = reducer.future();
    let source_id = connect(&mut reducer, &addr(7));
    let (tx, _rx) = tokio::sync::mpsc::channel(1);
    for event in [
        Event::SourceToSink { source_id, bytes: vec![1] },
        Event::Raw { source_id, bytes: vec![1] },
        Event::Message { reserved: 0, source_id, msg: "hello".to_string() },
        Event::Connected2 { reserved: 0, source_id, sink_to_source: tx },
    ] {
        assert!(react(&mut reducer, &mut driver, event).is_empty());
    }
    assert!(reducer.map.by_source_id(source_id).is_some());
    assert!(driver.stream(source_id).is_none());
}

#[test]
fn unknown_sink_cannot_be_told() {
    let mut reducer = Reducer::new();
    let mut driver = reducer.future();
    let source_id = connect(&mut reducer, &addr(7));
    open(&mut reducer, &mut driver, source_id, 42);
    let gone = Polled::Ready(Event::Disconnected { source_id });
    assert!(driver.can_answer(&reducer.map, &gone));
    reducer.remove_sink(addr(7));
    assert!(!driver.can_answer(&reducer.map, &gone));
    let come = Polled::Ready(Event::Connected { reserved: 0, source_id, stream: 42 });
    assert!(!driver.can_answer(&reducer.map, &come));
    let failed = Polled::Ready(Event::ConnectionFailed { reserved: 0, source_id });
    assert!(driver.can_answer(&reducer.map, &failed));
}

#[test]
fn driver_waits_and_finishes() {
    let mut reducer = Reducer::new();
    let mut driver = reducer.future();
    assert!(driver.can_answer(&reducer.map, &Polled::Pending));
    assert!(matches!(driver.answer(&mut reducer.map, Polled::Pending), Turn::Wait));
    assert!(matches!(driver.answer(&mut reducer.map, Polled::Closed), Turn::Finished));
}
