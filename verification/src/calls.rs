//! What each call does, from what goes into it to what comes out of it.
//!
//! Every law here speaks of a call as it is made: of its arguments, of its
//! result, and of what it leaves behind where it changes something.
use crate::address::{
    has_parts, law_address_reads_one_way, law_parts_are_split, law_split_text_has_parts, number,
    parse_ipv4_address, splits_into, with_dots,
};
use crate::channel::{flagged, takes};
use crate::connect::{
    connect_via_proxy_or_directly, directly, is_server_address, via_proxy, Connection, Connector,
    Dial,
};
use crate::driver::{Done, DynamicMultiReducerFuture, Greeting, Reaction, Turn, Wiring};
use crate::error::Error;
use crate::event::{Event, EventEmitter};
use crate::mpsc::{Inbox, Offer, Outbox, Polled};
use crate::reducer::{detaches, disconnects, DynamicMultiReducer, InnerMap};
use fast_socks5::SocksError;
use std::task::Context;
use tokio::sync::mpsc::{Receiver, Sender};
use vstd::prelude::*;

verus! {

// Server addresses.

/// A server address is read as what it says: the address is the four bytes with
/// their dots, and the port is the number behind the colon.
pub proof fn law_address_is_read_as_it_is_written(
    addr: &str,
    a: Seq<char>,
    b: Seq<char>,
    c: Seq<char>,
    d: Seq<char>,
    digits: Seq<char>,
    parsed: Result<(String, u16), Error>,
)
    requires
        has_parts(addr@, a, b, c, d, digits),
        call_ensures(parse_ipv4_address, (addr,), parsed),
    ensures
        parsed matches Ok((host, port)) && host@ == with_dots(a, b, c, d) && port == number(digits),
{
    law_parts_are_split(addr@, a, b, c, d, digits);
    assert(splits_into(addr@, with_dots(a, b, c, d), number(digits) as u16));
    match parsed {
        Ok((host, port)) => {
            law_address_reads_one_way(
                addr@,
                host@,
                port,
                with_dots(a, b, c, d),
                number(digits) as u16,
            );
        },
        Err(_) => {
            assert(is_server_address(addr@));
        },
    }
}

/// What is read as a server address is one, and everything else is refused.
pub proof fn law_only_an_address_is_read(addr: &str, parsed: Result<(String, u16), Error>)
    requires
        call_ensures(parse_ipv4_address, (addr,), parsed),
    ensures
        parsed is Ok <==> exists|
            a: Seq<char>,
            b: Seq<char>,
            c: Seq<char>,
            d: Seq<char>,
            digits: Seq<char>,
        | has_parts(addr@, a, b, c, d, digits),
        parsed matches Err(error) ==> error is ParseIPAddress,
{
    if let Ok((host, port)) = parsed {
        law_split_text_has_parts(addr@, host@, port);
    }
    if exists|a: Seq<char>, b: Seq<char>, c: Seq<char>, d: Seq<char>, digits: Seq<char>|
        has_parts(addr@, a, b, c, d, digits) {
        let (a, b, c, d, digits) = choose|
            a: Seq<char>,
            b: Seq<char>,
            c: Seq<char>,
            d: Seq<char>,
            digits: Seq<char>,
        | has_parts(addr@, a, b, c, d, digits);
        law_address_is_read_as_it_is_written(addr, a, b, c, d, digits, parsed);
    }
}

/// The address and the port that are read, with a colon between them, are the
/// text that was read, but for zeros in front of the port.
pub proof fn law_what_is_read_makes_up_the_text(addr: &str, host: String, port: u16)
    requires
        call_ensures(parse_ipv4_address, (addr,), Ok((host, port))),
    ensures
        exists|digits: Seq<char>|
            addr@ == host@ + seq![':'] + digits && #[trigger] number(digits) == port,
{
    law_split_text_has_parts(addr@, host@, port);
}

// Connecting.

/// The way to a server leads to that server: a direct way is the text that was
/// given, and a way through a proxy is the proxy that was given, with the
/// address and the port that the text says. There is a way to every server
/// address.
pub proof fn law_way_leads_to_the_server(
    server_address: &str,
    proxy: Option<String>,
    a: Seq<char>,
    b: Seq<char>,
    c: Seq<char>,
    d: Seq<char>,
    digits: Seq<char>,
    dial: Result<Dial, Error>,
)
    requires
        has_parts(server_address@, a, b, c, d, digits),
        call_ensures(connect_via_proxy_or_directly, (server_address, proxy), dial),
    ensures
        match proxy {
            Some(given) => dial matches Ok(Dial::Proxy { proxy_address, addr, port })
                && proxy_address@ == given@ && addr@ == with_dots(a, b, c, d) && port == number(
                digits,
            ),
            None => dial matches Ok(Dial::Direct { server_address: dialled }) && dialled@
                == server_address@,
        },
{
    law_parts_are_split(server_address@, a, b, c, d, digits);
    if let Ok(Dial::Proxy { proxy_address: _, addr, port }) = dial {
        law_address_reads_one_way(
            server_address@,
            addr@,
            port,
            with_dots(a, b, c, d),
            number(digits) as u16,
        );
    }
}

/// There is no way to what is no server address.
pub proof fn law_no_way_without_an_address(
    server_address: &str,
    proxy: Option<String>,
    dial: Result<Dial, Error>,
)
    requires
        call_ensures(connect_via_proxy_or_directly, (server_address, proxy), dial),
        forall|a: Seq<char>, b: Seq<char>, c: Seq<char>, d: Seq<char>, digits: Seq<char>|
            !has_parts(server_address@, a, b, c, d, digits),
    ensures
        dial matches Err(error) && error is ParseIPAddress,
{
    if dial is Ok {
        assert forall|host: Seq<char>, port: u16| #[trigger]
            splits_into(server_address@, host, port) implies server_address@
            != server_address@ by {
            law_split_text_has_parts(server_address@, host, port);
        }
    }
}

/// Two servers are never reached by the same direct way.
pub proof fn law_servers_have_ways_of_their_own(
    server_address: &str,
    other_address: &str,
    dialled: String,
    other_dialled: String,
)
    requires
        call_ensures(
            connect_via_proxy_or_directly,
            (server_address, None),
            Ok(Dial::Direct { server_address: dialled }),
        ),
        call_ensures(
            connect_via_proxy_or_directly,
            (other_address, None),
            Ok(Dial::Direct { server_address: other_dialled }),
        ),
    ensures
        dialled@ == other_dialled@ <==> server_address@ == other_address@,
{
}

/// A connection is about the source and the value that were given, reports to
/// where it was told to, and takes the way to the server that was given.
pub proof fn law_connection_is_the_one_asked_for<M, S>(
    reserved: usize,
    server_address: String,
    proxy: Option<String>,
    source_id: usize,
    event_emitter: Sender<Event<M, S>>,
    connection: Connection<M, S>,
)
    requires
        call_ensures(
            Connector::connect::<M, S>,
            (reserved, server_address, proxy, source_id, event_emitter),
            connection,
        ),
    ensures
        connection.reserved == reserved,
        connection.source_id == source_id,
        connection.event_emitter == event_emitter,
        proxy is None && connection.dial is Ok ==> (connection.dial matches Ok(
            Dial::Direct { server_address: dialled },
        ) && dialled@ == server_address@),
        proxy is Some && connection.dial is Ok ==> (connection.dial matches Ok(
            Dial::Proxy { proxy_address, addr, port },
        ) && proxy_address@ == proxy->0@ && exists|digits: Seq<char>|
            server_address@ == addr@ + seq![':'] + digits && #[trigger] number(digits) == port),
        connection.dial is Ok <==> exists|
            a: Seq<char>,
            b: Seq<char>,
            c: Seq<char>,
            d: Seq<char>,
            digits: Seq<char>,
        | has_parts(server_address@, a, b, c, d, digits),
        connection.dial matches Err(error) ==> error is ParseIPAddress,
{
    let text = server_address@;
    if connection.dial is Ok {
        let (host, port) = choose|host: Seq<char>, port: u16|
            splits_into(text, host, port);
        law_split_text_has_parts(text, host, port);
        if let Ok(Dial::Proxy { proxy_address: _, addr, port }) = connection.dial {
            law_split_text_has_parts(text, addr@, port);
        }
    }
    if exists|a: Seq<char>, b: Seq<char>, c: Seq<char>, d: Seq<char>, digits: Seq<char>|
        has_parts(text, a, b, c, d, digits) {
        let (a, b, c, d, digits) = choose|
            a: Seq<char>,
            b: Seq<char>,
            c: Seq<char>,
            d: Seq<char>,
            digits: Seq<char>,
        | has_parts(text, a, b, c, d, digits);
        law_parts_are_split(text, a, b, c, d, digits);
    }
}

/// The report of an attempt names the source and carries the value of that
/// attempt. It is `Connected`, with the stream, if there is one, and
/// `ConnectionFailed` otherwise.
pub proof fn law_report_tells_of_its_attempt<M, S>(
    reserved: usize,
    source_id: usize,
    outcome: Result<S, Error>,
    event: Event<M, S>,
)
    requires
        call_ensures(Connector::report::<M, S>, (reserved, source_id, outcome), event),
    ensures
        match event {
            Event::Connected { reserved: told, source_id: source, stream } => told == reserved
                && source == source_id && outcome == Ok::<S, Error>(stream),
            Event::ConnectionFailed { reserved: told, source_id: source } => told == reserved
                && source == source_id && outcome is Err,
            _ => false,
        },
{
}

/// What a proxy or a server answered is kept: the stream, or the error.
pub proof fn law_answers_are_kept<S>(
    through: Result<S, SocksError>,
    straight: Result<S, std::io::Error>,
    through_outcome: Result<S, Error>,
    straight_outcome: Result<S, Error>,
)
    requires
        call_ensures(via_proxy::<S>, (through,), through_outcome),
        call_ensures(directly::<S>, (straight,), straight_outcome),
    ensures
        through matches Ok(stream) ==> through_outcome == Ok::<S, Error>(stream),
        through matches Err(err) ==> through_outcome == Err::<S, Error>(Error::FastSocks(err)),
        straight matches Ok(stream) ==> straight_outcome == Ok::<S, Error>(stream),
        straight matches Err(err) ==> straight_outcome == Err::<S, Error>(Error::IO(err)),
{
}

/// An error of the operating system or of a proxy is kept as such.
pub proof fn law_errors_keep_their_origin(
    io: std::io::Error,
    socks: SocksError,
    io_error: Error,
    socks_error: Error,
)
    requires
        call_ensures(<Error as From<std::io::Error>>::from, (io,), io_error),
        call_ensures(<Error as From<SocksError>>::from, (socks,), socks_error),
    ensures
        io_error == Error::IO(io),
        socks_error == Error::FastSocks(socks),
{
}

/// A way can be asked for, a connection set out on and an attempt reported
/// whatever the texts, the numbers and the outcome are.
pub proof fn law_connecting_is_open_to_all<M, S>(
    server_address: &str,
    server: String,
    proxy: Option<String>,
    reserved: usize,
    source_id: usize,
    event_emitter: Sender<Event<M, S>>,
    outcome: Result<S, Error>,
    through: Result<S, SocksError>,
    straight: Result<S, std::io::Error>,
)
    ensures
        call_requires(parse_ipv4_address, (server_address,)),
        call_requires(connect_via_proxy_or_directly, (server_address, proxy)),
        call_requires(
            Connector::connect::<M, S>,
            (reserved, server, proxy, source_id, event_emitter),
        ),
        call_requires(Connector::report::<M, S>, (reserved, source_id, outcome)),
        call_requires(via_proxy::<S>, (through,)),
        call_requires(directly::<S>, (straight,)),
{
}

/// An error is described by what happened, whatever error lies behind it.
pub proof fn law_errors_are_described(
    io: std::io::Error,
    socks: SocksError,
    address_text: &'static str,
    io_text: &'static str,
    socks_text: &'static str,
)
    requires
        call_ensures(Error::message, (&Error::ParseIPAddress,), address_text),
        call_ensures(Error::message, (&Error::IO(io),), io_text),
        call_ensures(Error::message, (&Error::FastSocks(socks),), socks_text),
    ensures
        address_text@ == "Error parsing ip address."@,
        io_text@ == "IO error"@,
        socks_text@ == "Fast socks error"@,
{
}

// The map from sources to sinks.

/// A new map is empty.
pub proof fn law_new_map_is_empty<T>(sinks: InnerMap<T>, other: InnerMap<T>)
    requires
        call_ensures(InnerMap::<T>::new, (), sinks),
        call_ensures(<InnerMap<T> as Default>::default, (), other),
    ensures
        forall|source_id: usize| !(#[trigger] sinks.map@.contains_key(source_id)),
        sinks.next_source_id == 1,
        forall|source_id: usize| !(#[trigger] other.map@.contains_key(source_id)),
        other.next_source_id == 0,
{
}

/// Mapping a source changes that source alone: it gets the sink.
pub proof fn law_mapping_is_of_one_source<T>(
    sinks: &mut InnerMap<T>,
    sink_addr: T,
    source_id: usize,
    other: usize,
)
    requires
        call_ensures(InnerMap::<T>::map_source_to_sink, (sinks, sink_addr, source_id), ()),
    ensures
        final(sinks).map@.contains_key(source_id),
        final(sinks).map@[source_id] == sink_addr,
        other != source_id ==> {
            &&& final(sinks).map@.contains_key(other) == old(sinks).map@.contains_key(other)
            &&& final(sinks).map@[other] == old(sinks).map@[other]
        },
        final(sinks).next_source_id == old(sinks).next_source_id,
{
}

/// Unmapping a source changes that source alone: it has no sink.
pub proof fn law_unmapping_is_of_one_source<T>(
    sinks: &mut InnerMap<T>,
    source_id: usize,
    other: usize,
)
    requires
        call_ensures(InnerMap::<T>::unmap_source_from_sink, (sinks, source_id), ()),
    ensures
        !final(sinks).map@.contains_key(source_id),
        other != source_id ==> {
            &&& final(sinks).map@.contains_key(other) == old(sinks).map@.contains_key(other)
            &&& final(sinks).map@[other] == old(sinks).map@[other]
        },
        final(sinks).next_source_id == old(sinks).next_source_id,
{
}

/// What is found for a source is a clone of the address that it is mapped to,
/// and nothing is found if and only if it is not mapped.
pub proof fn law_found_sink_is_the_mapped_one<T: Clone>(
    sinks: &InnerMap<T>,
    source_id: usize,
    found: Option<T>,
)
    requires
        call_ensures(InnerMap::<T>::by_source_id, (sinks, source_id), found),
    ensures
        found is Some <==> sinks.map@.contains_key(source_id),
        found matches Some(addr) ==> cloned(sinks.map@[source_id], addr),
{
}

/// The sources that leave the map with a sink are those for whose sink `==`
/// answers that it is this one. They are listed, each once, and the others stay
/// as they are.
pub proof fn law_sources_leave_with_their_sink<T: PartialEq>(
    sinks: &mut InnerMap<T>,
    sink_addr: T,
    removed: Vec<usize>,
    source_id: usize,
)
    requires
        call_ensures(InnerMap::<T>::remove_sink, (sinks, sink_addr), removed),
    ensures
        removed@.no_duplicates(),
        removed@.contains(source_id) <==> old(sinks).map@.contains_key(source_id)
            && !final(sinks).map@.contains_key(source_id),
        old(sinks).map@.contains_key(source_id) ==> call_ensures(
            T::eq,
            (&sink_addr, &old(sinks).map@[source_id]),
            !final(sinks).map@.contains_key(source_id),
        ),
        final(sinks).map@.contains_key(source_id) ==> {
            &&& old(sinks).map@.contains_key(source_id)
            &&& final(sinks).map@[source_id] == old(sinks).map@[source_id]
        },
        final(sinks).next_source_id == old(sinks).next_source_id,
{
    let before = old(sinks).map@;
    let after = final(sinks).map@;
    assert(removed@.contains(source_id) <==> removed@.to_set().contains(source_id));
    assert(before.contains_key(source_id) ==> (removed@.contains(source_id) <==> !after.contains_key(
        source_id,
    )));
}

/// A map can be read and changed whatever it holds.
pub proof fn law_map_is_open_to_all<T: PartialEq + Clone>(
    sinks: &InnerMap<T>,
    shared: &mut InnerMap<T>,
    addr: T,
    source_id: usize,
)
    ensures
        call_requires(InnerMap::<T>::new, ()),
        call_requires(InnerMap::<T>::by_source_id, (sinks, source_id)),
        call_requires(InnerMap::<T>::map_source_to_sink, (shared, addr, source_id)),
        call_requires(InnerMap::<T>::unmap_source_from_sink, (shared, source_id)),
        call_requires(InnerMap::<T>::remove_sink, (shared, addr)),
{
}

// The handle.

/// Whether these are the two ends of a channel of their own: it has room for
/// `capacity` messages, nothing went through it, and nobody else can send.
pub open spec fn join_nothing_else<T>(outbox: Outbox<T>, inbox: Inbox<T>, capacity: int) -> bool {
    &&& inbox.channel() == outbox.tx()
    &&& inbox.order() == outbox.order()
    &&& outbox.capacity() == capacity
    &&& inbox.capacity() == capacity
    &&& outbox@.len() == 0
    &&& outbox.accepted().len() == 0
    &&& outbox.places().len() == 0
    &&& !outbox.shared()
    &&& inbox@.len() == 0
    &&& inbox.received().len() == 0
}

/// A channel is opened with the room that was asked for.
pub proof fn law_opened_channel_is_new<T>(capacity: usize, ends: (Outbox<T>, Inbox<T>))
    requires
        call_ensures(Outbox::<T>::open, (capacity,), ends),
    ensures
        join_nothing_else(ends.0, ends.1, capacity as int),
        0 < capacity <= usize::MAX / 8 ==> call_requires(Outbox::<T>::open, (capacity,)),
{
}

/// A new handle knows no source, numbers the first one 1, and has both ends of a
/// channel for 256 events.
pub proof fn law_new_handle_knows_nothing<
    M,
    T: PartialEq + Clone + EventEmitter<M, S>,
    S,
>(handle: DynamicMultiReducer<M, T, S>)
    requires
        call_ensures(DynamicMultiReducer::<M, T, S>::new, (), handle),
    ensures
        forall|source_id: usize| !(#[trigger] handle.map.map@.contains_key(source_id)),
        handle.map.next_source_id == 1,
        handle.next_source_id == 1,
        handle.event_rx matches Some(event_rx) && join_nothing_else(handle.event_tx, event_rx, 256),
        handle.wired(),
{
}

/// A connected source gets the next number and the sink that was given. The
/// other sources stay as they are, nothing is sent, and the connection is about
/// this source, with the value that was given, and reports to the handle's
/// channel.
pub proof fn law_connecting_adds_one_source<
    M,
    T: PartialEq + Clone + EventEmitter<M, S>,
    S,
>(
    handle: &mut DynamicMultiReducer<M, T, S>,
    reserved: usize,
    server_address: String,
    proxy: Option<String>,
    addr: T,
    connected: (usize, Connection<M, S>),
    other: usize,
)
    requires
        call_ensures(
            DynamicMultiReducer::<M, T, S>::connect,
            (handle, reserved, server_address, proxy, addr),
            connected,
        ),
    ensures
        connected.0 == old(handle).next_source_id,
        connected.0 < usize::MAX ==> final(handle).next_source_id == connected.0 + 1,
        connected.0 == usize::MAX ==> final(handle).next_source_id == 0,
        final(handle).map.map@.contains_key(connected.0),
        final(handle).map.map@[connected.0] == addr,
        other != connected.0 ==> {
            &&& final(handle).map.map@.contains_key(other) == old(handle).map.map@.contains_key(other)
            &&& final(handle).map.map@[other] == old(handle).map.map@[other]
        },
        final(handle).map.next_source_id == old(handle).map.next_source_id,
        final(handle).event_tx@ == old(handle).event_tx@,
        final(handle).event_tx.accepted() == old(handle).event_tx.accepted(),
        final(handle).event_tx.tx() == old(handle).event_tx.tx(),
        final(handle).event_rx == old(handle).event_rx,
        old(handle).wired() ==> final(handle).wired(),
        connected.1.reserved == reserved,
        connected.1.source_id == connected.0,
        connected.1.event_emitter == old(handle).event_tx.tx(),
        proxy is None && connected.1.dial is Ok ==> (connected.1.dial matches Ok(
            Dial::Direct { server_address: dialled },
        ) && dialled@ == server_address@),
        proxy is Some && connected.1.dial is Ok ==> (connected.1.dial matches Ok(
            Dial::Proxy { proxy_address, addr: host, port },
        ) && proxy_address@ == proxy->0@ && exists|digits: Seq<char>|
            server_address@ == host@ + seq![':'] + digits && #[trigger] number(digits) == port),
        connected.1.dial is Ok <==> exists|
            a: Seq<char>,
            b: Seq<char>,
            c: Seq<char>,
            d: Seq<char>,
            digits: Seq<char>,
        | has_parts(server_address@, a, b, c, d, digits),
        connected.1.dial matches Err(error) ==> error is ParseIPAddress,
{
    let text = server_address@;
    if connected.1.dial is Ok {
        let (host, port) = choose|host: Seq<char>, port: u16|
            splits_into(text, host, port);
        law_split_text_has_parts(text, host, port);
        if let Ok(Dial::Proxy { proxy_address: _, addr: host, port }) = connected.1.dial {
            law_split_text_has_parts(text, host@, port);
        }
    }
    if exists|a: Seq<char>, b: Seq<char>, c: Seq<char>, d: Seq<char>, digits: Seq<char>|
        has_parts(text, a, b, c, d, digits) {
        let (a, b, c, d, digits) = choose|
            a: Seq<char>,
            b: Seq<char>,
            c: Seq<char>,
            d: Seq<char>,
            digits: Seq<char>,
        | has_parts(text, a, b, c, d, digits);
        law_parts_are_split(text, a, b, c, d, digits);
    }
}

/// Two sources that are connected one after the other have two numbers, and each
/// has its own sink.
pub proof fn law_two_sources_are_kept_apart<M, T: PartialEq + Clone + EventEmitter<M, S>, S>(
    handle: &mut DynamicMultiReducer<M, T, S>,
    later: &mut DynamicMultiReducer<M, T, S>,
    reserved: (usize, usize),
    server_address: (String, String),
    proxy: (Option<String>, Option<String>),
    addr: (T, T),
    first: (usize, Connection<M, S>),
    second: (usize, Connection<M, S>),
)
    requires
        call_ensures(
            DynamicMultiReducer::<M, T, S>::connect,
            (handle, reserved.0, server_address.0, proxy.0, addr.0),
            first,
        ),
        *old(later) == *final(handle),
        call_ensures(
            DynamicMultiReducer::<M, T, S>::connect,
            (later, reserved.1, server_address.1, proxy.1, addr.1),
            second,
        ),
    ensures
        first.0 != second.0,
        final(later).map.map@[first.0] == addr.0,
        final(later).map.map@[second.0] == addr.1,
        first.1.source_id != second.1.source_id,
        first.1.event_emitter == second.1.event_emitter,
{
}

/// The driver gets the receiving end of the handle's channel, and a sending end
/// of it. It has no stream yet. The handle keeps everything else.
pub proof fn law_driver_is_made_of_the_handle<M, T: PartialEq + Clone + EventEmitter<M, S>, S>(
    handle: &mut DynamicMultiReducer<M, T, S>,
    driver: DynamicMultiReducerFuture<M, S>,
)
    requires
        call_ensures(DynamicMultiReducer::<M, T, S>::future, (handle,), driver),
    ensures
        old(handle).event_rx matches Some(event_rx) ==> driver.event_rx == event_rx,
        driver.event_tx == old(handle).event_tx.tx(),
        forall|source_id: usize| !(#[trigger] driver.streams@.contains_key(source_id)),
        final(handle).event_rx is None,
        final(handle).event_tx@ == old(handle).event_tx@,
        final(handle).event_tx.accepted() == old(handle).event_tx.accepted(),
        final(handle).event_tx.tx() == old(handle).event_tx.tx(),
        final(handle).map == old(handle).map,
        final(handle).next_source_id == old(handle).next_source_id,
        old(handle).wired() ==> final(handle).wired() && driver.wired(),
        old(handle).event_rx is Some ==> call_requires(
            DynamicMultiReducer::<M, T, S>::future,
            (handle,),
        ),
{
}

/// Asking for a disconnection sends one request, for this source, into the
/// handle's channel, and changes nothing else. It is sure to be accepted while
/// the handle has both ends of its channel, nobody else can send, and there is
/// room.
pub proof fn law_shutdown_sends_one_request<M, T: PartialEq + Clone + EventEmitter<M, S>, S>(
    handle: &mut DynamicMultiReducer<M, T, S>,
    source_id: usize,
)
    requires
        call_ensures(DynamicMultiReducer::<M, T, S>::shutdown_source, (handle, source_id), ()),
    ensures
        final(handle).event_tx@ == old(handle).event_tx@.push(Event::Disconnect { source_id }),
        final(handle).event_tx.accepted() == old(handle).event_tx.accepted()
            || final(handle).event_tx.accepted() == old(handle).event_tx.accepted().push(
            Event::Disconnect { source_id },
        ),
        old(handle).wired() && old(handle).event_rx is Some && !old(handle).event_tx.shared()
            && old(handle).event_tx.accepted().len() < old(handle).event_tx.capacity()
            ==> final(handle).event_tx.accepted() == old(handle).event_tx.accepted().push(
            Event::Disconnect { source_id },
        ),
        final(handle).event_tx.tx() == old(handle).event_tx.tx(),
        final(handle).event_tx.capacity() == old(handle).event_tx.capacity(),
        final(handle).event_tx.order() == old(handle).event_tx.order(),
        final(handle).event_tx.shared() == old(handle).event_tx.shared(),
        final(handle).event_rx == old(handle).event_rx,
        final(handle).map == old(handle).map,
        final(handle).next_source_id == old(handle).next_source_id,
        old(handle).wired() ==> final(handle).wired(),
{
    let before = old(handle).event_tx;
    let after = final(handle).event_tx;
    let request = Event::<M, S>::Disconnect { source_id };
    let requests = disconnects::<M, S>(seq![source_id]);
    assert(requests =~= seq![request]);
    assert(after@ =~= before@.push(request));
    let flags = choose|flags: Seq<bool>| takes(before, after, requests, flags);
    reveal_with_fuel(flagged, 2);
    assert(requests.drop_last() =~= Seq::empty());
    if flags[0] {
        assert(after.accepted() =~= before.accepted().push(request));
    } else {
        assert(after.accepted() =~= before.accepted());
    }
    assert(before.accepted() + requests =~= before.accepted().push(request));
}

/// Removing a sink forgets the sources for whose sink `==` answers that it is
/// this one, and leaves the others as they are. What is sent into the handle's
/// channel is one request for each source that was forgotten: however many there
/// are, and whether or not there is a driver.
pub proof fn law_each_forgotten_source_is_asked_to_disconnect<
    M,
    T: PartialEq + Clone + EventEmitter<M, S>,
    S,
>(handle: &mut DynamicMultiReducer<M, T, S>, wss: T, source_id: usize, i: int)
    requires
        call_ensures(DynamicMultiReducer::<M, T, S>::remove_sink, (handle, wss), ()),
    ensures
        old(handle).map.map@.contains_key(source_id) ==> call_ensures(
            T::eq,
            (&wss, &old(handle).map.map@[source_id]),
            !final(handle).map.map@.contains_key(source_id),
        ),
        final(handle).map.map@.contains_key(source_id) ==> {
            &&& old(handle).map.map@.contains_key(source_id)
            &&& final(handle).map.map@[source_id] == old(handle).map.map@[source_id]
        },
        old(handle).event_tx@.is_prefix_of(final(handle).event_tx@),
        ({
            let sent = final(handle).event_tx@.skip(old(handle).event_tx@.len() as int);
            &&& sent.contains(Event::Disconnect { source_id }) <==> old(handle).map.map@.contains_key(source_id) && !final(handle).map.map@.contains_key(source_id)
            &&& sent.no_duplicates()
            &&& 0 <= i < sent.len() ==> sent[i] is Disconnect
            &&& old(handle).wired() && old(handle).event_rx is Some
                && !old(handle).event_tx.shared() && old(handle).event_tx.accepted().len()
                + sent.len() <= old(handle).event_tx.capacity() ==> final(handle).event_tx.accepted() == old(handle).event_tx.accepted() + sent
        }),
        final(handle).event_tx.tx() == old(handle).event_tx.tx(),
        final(handle).event_tx.capacity() == old(handle).event_tx.capacity(),
        final(handle).event_tx.order() == old(handle).event_tx.order(),
        final(handle).event_tx.shared() == old(handle).event_tx.shared(),
        final(handle).event_rx == old(handle).event_rx,
        final(handle).map.next_source_id == old(handle).map.next_source_id,
        final(handle).next_source_id == old(handle).next_source_id,
        old(handle).wired() ==> final(handle).wired(),
{
    let before = old(handle).map.map@;
    let after = final(handle).map.map@;
    let removed = choose|removed: Seq<usize>| #[trigger]
        detaches(removed, before, wss) && after == before.remove_keys(
            removed.to_set(),
        ) && final(handle).has_asked(*old(handle), removed);
    let sent = final(handle).event_tx@.skip(old(handle).event_tx@.len() as int);
    assert(sent =~= removed.map_values(|id: usize| Event::<M, S>::Disconnect { source_id: id }));
    assert(sent =~= disconnects::<M, S>(removed));
    assert(removed.contains(source_id) <==> removed.to_set().contains(source_id));
    assert(before.contains_key(source_id) ==> (removed.contains(source_id) <==> !after.contains_key(
        source_id,
    )));
    if removed.contains(source_id) {
        let at = choose|at: int| 0 <= at < removed.len() && removed[at] == source_id;
        assert(sent[at] == Event::<M, S>::Disconnect { source_id });
    }
    if sent.contains(Event::Disconnect { source_id }) {
        let at = choose|at: int|
            0 <= at < sent.len() && sent[at] == Event::<M, S>::Disconnect { source_id };
        assert(removed[at] == source_id);
    }
}

/// The handle can be used whatever it knows, with or without a driver.
pub proof fn law_handle_is_open_to_all<M, T: PartialEq + Clone + EventEmitter<M, S>, S>(
    handle: &mut DynamicMultiReducer<M, T, S>,
    reserved: usize,
    server_address: String,
    proxy: Option<String>,
    addr: T,
    source_id: usize,
)
    ensures
        call_requires(DynamicMultiReducer::<M, T, S>::new, ()),
        call_requires(
            DynamicMultiReducer::<M, T, S>::connect,
            (handle, reserved, server_address, proxy, addr),
        ),
        call_requires(DynamicMultiReducer::<M, T, S>::shutdown_source, (handle, source_id)),
        call_requires(DynamicMultiReducer::<M, T, S>::remove_sink, (handle, addr)),
{
}

/// Offering an event hands over that event. The answer says whether the channel
/// took it, and gives it back if not.
pub proof fn law_offered_event_is_taken_or_comes_back<M, S>(
    outbox: &mut Outbox<Event<M, S>>,
    receiver: Option<&Inbox<Event<M, S>>>,
    message: Event<M, S>,
    offer: Offer<Event<M, S>>,
)
    requires
        call_ensures(Outbox::<Event<M, S>>::offer, (outbox, receiver, message), offer),
    ensures
        final(outbox)@ == old(outbox)@.push(message),
        match offer {
            Offer::Accepted => final(outbox).accepted() == old(outbox).accepted().push(message),
            Offer::Full(back) => final(outbox).accepted() == old(outbox).accepted() && back
                == message,
            Offer::Closed(back) => final(outbox).accepted() == old(outbox).accepted() && back
                == message,
        },
        final(outbox).tx() == old(outbox).tx(),
        final(outbox).capacity() == old(outbox).capacity(),
        final(outbox).order() == old(outbox).order(),
        final(outbox).shared() == old(outbox).shared(),
{
}

/// The ends that are handed out belong to the channel.
pub proof fn law_ends_belong_to_their_channel<T>(
    outbox: &mut Outbox<T>,
    copy: Sender<T>,
    whole: Outbox<T>,
    tx: Sender<T>,
    inbox: Inbox<T>,
    rx: Receiver<T>,
)
    requires
        call_ensures(Outbox::<T>::sender, (outbox,), copy),
        call_ensures(Outbox::<T>::into_sender, (whole,), tx),
        call_ensures(Inbox::<T>::into_receiver, (inbox,), rx),
    ensures
        copy == old(outbox).tx(),
        final(outbox).tx() == old(outbox).tx(),
        final(outbox)@ == old(outbox)@,
        final(outbox).accepted() == old(outbox).accepted(),
        final(outbox).shared(),
        tx == whole.tx(),
        rx == inbox.rx(),
{
}

// The driver.

/// Whether these are the steps that introduce the source to its sink: a sink is
/// started for the value and the address of the sink, the sink is told of this
/// source, and the stream is kept. Two channels that nobody else uses join the
/// two, one in each direction.
pub open spec fn introduces<M, T: Clone, S>(
    reactions: Seq<Reaction<M, T, S>>,
    reserved: usize,
    source_id: usize,
    stream: S,
    sink: T,
    event_tx: Sender<Event<M, S>>,
) -> bool {
    &&& reactions.len() == 3
    &&& reactions[0] matches Reaction::StartSink { reserved: started_for, sink_addr, data_rx }
    &&& reactions[1] matches Reaction::Greet { addr, greeting }
    &&& reactions[2] matches Reaction::Duplicate(wiring)
    &&& started_for == reserved
    &&& cloned(sink, addr)
    &&& cloned(addr, sink_addr)
    &&& greeting.reserved == reserved
    &&& greeting.source_id == source_id
    &&& wiring.reserved == reserved
    &&& wiring.source_id == source_id
    &&& wiring.stream == stream
    &&& wiring.event_tx == event_tx
    &&& join_nothing_else(wiring.data_tx, data_rx, 512)
    &&& join_nothing_else(greeting.sink_to_source, wiring.sink_to_source_rx, 128)
}

/// The driver has an answer to everything but the connection or disconnection of
/// a source whose sink it does not know.
pub proof fn law_only_a_missing_sink_stops_the_driver<
    M,
    T: PartialEq + Clone + EventEmitter<M, S>,
    S,
>(
    driver: &DynamicMultiReducerFuture<M, S>,
    answering: &mut DynamicMultiReducerFuture<M, S>,
    sinks: &InnerMap<T>,
    shared: &mut InnerMap<T>,
    polled: Polled<Event<M, S>>,
    yes: bool,
)
    requires
        call_ensures(
            DynamicMultiReducerFuture::<M, S>::can_answer::<T>,
            (driver, sinks, &polled),
            yes,
        ),
        *old(answering) == *driver,
        *old(shared) == *sinks,
    ensures
        yes <==> match polled {
            Polled::Ready(Event::Connected { source_id, .. }) => sinks.map@.contains_key(source_id),
            Polled::Ready(Event::Disconnected { source_id }) => sinks.map@.contains_key(source_id),
            _ => true,
        },
        yes ==> call_requires(
            DynamicMultiReducerFuture::<M, S>::answer::<T>,
            (answering, shared, polled),
        ),
{
}

/// When a source is connected, a sink is started for it, the sink that the source
/// is mapped to is told of this source and no other, and both are joined.
/// Nothing is known of the stream yet.
pub proof fn law_connected_source_is_introduced<M, T: PartialEq + Clone + EventEmitter<M, S>, S>(
    driver: &mut DynamicMultiReducerFuture<M, S>,
    sinks: &mut InnerMap<T>,
    reserved: usize,
    source_id: usize,
    stream: S,
    turn: Turn<M, T, S>,
)
    requires
        old(sinks).map@.contains_key(source_id),
        call_ensures(
            DynamicMultiReducerFuture::<M, S>::answer::<T>,
            (driver, sinks, Polled::Ready(Event::Connected { reserved, source_id, stream })),
            turn,
        ),
    ensures
        turn matches Turn::Continue(reactions) && introduces(
            reactions@,
            reserved,
            source_id,
            stream,
            old(sinks).map@[source_id],
            old(driver).event_tx,
        ),
        final(sinks).map@ == old(sinks).map@,
        final(driver).streams@ == old(driver).streams@,
        final(sinks).next_source_id == old(sinks).next_source_id,
        final(driver).event_rx == old(driver).event_rx,
        final(driver).event_tx == old(driver).event_tx,
{
}

/// When a source is disconnected, its stream is forgotten at once; its sink is
/// told of just that, and then the source is to be forgotten.
pub proof fn law_disconnected_source_is_taken_leave_of<
    M,
    T: PartialEq + Clone + EventEmitter<M, S>,
    S,
>(
    driver: &mut DynamicMultiReducerFuture<M, S>,
    sinks: &mut InnerMap<T>,
    source_id: usize,
    turn: Turn<M, T, S>,
)
    requires
        old(sinks).map@.contains_key(source_id),
        call_ensures(
            DynamicMultiReducerFuture::<M, S>::answer::<T>,
            (driver, sinks, Polled::Ready(Event::Disconnected { source_id })),
            turn,
        ),
    ensures
        turn matches Turn::Continue(reactions) && {
            &&& reactions@.len() == 2
            &&& reactions@[0] matches Reaction::Tell { addr, event }
            &&& cloned(old(sinks).map@[source_id], addr)
            &&& event matches Event::Disconnected { source_id: told }
            &&& told == source_id
            &&& reactions@[1] matches Reaction::Forget { source_id: forgotten }
            &&& forgotten == source_id
        },
        final(sinks).map@ == old(sinks).map@,
        final(driver).streams@ == old(driver).streams@.remove(source_id),
        final(sinks).next_source_id == old(sinks).next_source_id,
        final(driver).event_rx == old(driver).event_rx,
        final(driver).event_tx == old(driver).event_tx,
{
}

/// When a disconnection is asked for, the stream of the source is shut down if
/// there is one. Whether the source has a sink does not matter, and nothing
/// changes.
pub proof fn law_disconnection_needs_no_sink<M, T: PartialEq + Clone + EventEmitter<M, S>, S>(
    driver: &mut DynamicMultiReducerFuture<M, S>,
    sinks: &mut InnerMap<T>,
    source_id: usize,
    turn: Turn<M, T, S>,
)
    requires
        call_ensures(
            DynamicMultiReducerFuture::<M, S>::answer::<T>,
            (driver, sinks, Polled::Ready(Event::Disconnect { source_id })),
            turn,
        ),
    ensures
        call_requires(
            DynamicMultiReducerFuture::<M, S>::answer::<T>,
            (driver, sinks, Polled::Ready(Event::Disconnect { source_id })),
        ),
        turn matches Turn::Continue(reactions) && if old(driver).streams@.contains_key(source_id) {
            reactions@.len() == 1 && (reactions@[0] matches Reaction::Shutdown { source_id: shut }
                && shut == source_id)
        } else {
            reactions@.len() == 0
        },
        final(sinks).map@ == old(sinks).map@,
        final(driver).streams@ == old(driver).streams@,
        final(sinks).next_source_id == old(sinks).next_source_id,
        final(driver).event_rx == old(driver).event_rx,
        final(driver).event_tx == old(driver).event_tx,
{
}

/// When a connection failed, the source is forgotten. No other event is answered
/// by the driver: nothing is done and nothing changes.
pub proof fn law_other_events_ask_for_nothing<M, T: PartialEq + Clone + EventEmitter<M, S>, S>(
    driver: &mut DynamicMultiReducerFuture<M, S>,
    sinks: &mut InnerMap<T>,
    event: Event<M, S>,
    turn: Turn<M, T, S>,
)
    requires
        call_ensures(
            DynamicMultiReducerFuture::<M, S>::answer::<T>,
            (driver, sinks, Polled::Ready(event)),
            turn,
        ),
        !(event is Connected || event is Disconnected || event is Disconnect),
    ensures
        call_requires(
            DynamicMultiReducerFuture::<M, S>::answer::<T>,
            (driver, sinks, Polled::Ready(event)),
        ),
        turn matches Turn::Continue(reactions) && reactions@.len() == 0,
        final(sinks).map@ == match event {
            Event::ConnectionFailed { source_id, .. } => old(sinks).map@.remove(source_id),
            _ => old(sinks).map@,
        },
        final(driver).streams@ == old(driver).streams@,
        final(sinks).next_source_id == old(sinks).next_source_id,
        final(driver).event_rx == old(driver).event_rx,
        final(driver).event_tx == old(driver).event_tx,
{
}

/// Without an event nothing changes. The driver waits for one, or is done if none
/// will come.
pub proof fn law_driver_waits_for_events<M, T: PartialEq + Clone + EventEmitter<M, S>, S>(
    driver: &mut DynamicMultiReducerFuture<M, S>,
    sinks: &mut InnerMap<T>,
    polled: Polled<Event<M, S>>,
    turn: Turn<M, T, S>,
)
    requires
        call_ensures(
            DynamicMultiReducerFuture::<M, S>::answer::<T>,
            (driver, sinks, polled),
            turn,
        ),
        !(polled is Ready),
    ensures
        call_requires(
            DynamicMultiReducerFuture::<M, S>::answer::<T>,
            (driver, sinks, polled),
        ),
        polled is Pending ==> turn is Wait,
        polled is Closed ==> turn is Finished,
        final(sinks).map@ == old(sinks).map@,
        final(driver).streams@ == old(driver).streams@,
        final(sinks).next_source_id == old(sinks).next_source_id,
        final(driver).event_rx == old(driver).event_rx,
        final(driver).event_tx == old(driver).event_tx,
{
}

/// Once a second handle of a stream was made, it is kept for the source of the
/// stream and of no other, and the processor is set up with what was joined.
pub proof fn law_kept_stream_is_processed<M, T, S>(
    driver: &mut DynamicMultiReducerFuture<M, S>,
    sinks: &mut InnerMap<T>,
    handle: S,
    wiring: Wiring<M, S>,
    reactions: Vec<Reaction<M, T, S>>,
)
    requires
        call_ensures(
            DynamicMultiReducerFuture::<M, S>::resume::<T>,
            (driver, sinks, Done::Duplicated { handle, wiring }),
            reactions,
        ),
    ensures
        reactions@.len() == 1,
        reactions@[0] matches Reaction::StartProcessor(used) && used == wiring,
        final(driver).streams@ == old(driver).streams@.insert(wiring.source_id, handle),
        final(sinks).map@ == old(sinks).map@,
        final(sinks).next_source_id == old(sinks).next_source_id,
        final(driver).event_rx == old(driver).event_rx,
        final(driver).event_tx == old(driver).event_tx,
{
}

/// Once the sink was told that a source is gone, the source is forgotten, and
/// that is all.
pub proof fn law_told_source_is_forgotten<M, T, S>(
    driver: &mut DynamicMultiReducerFuture<M, S>,
    sinks: &mut InnerMap<T>,
    source_id: usize,
    reactions: Vec<Reaction<M, T, S>>,
)
    requires
        call_ensures(
            DynamicMultiReducerFuture::<M, S>::resume::<T>,
            (driver, sinks, Done::Told { source_id }),
            reactions,
        ),
    ensures
        reactions@.len() == 0,
        final(sinks).map@ == old(sinks).map@.remove(source_id),
        final(driver).streams@ == old(driver).streams@,
        final(sinks).next_source_id == old(sinks).next_source_id,
        final(driver).event_rx == old(driver).event_rx,
        final(driver).event_tx == old(driver).event_tx,
{
}

/// The stream of a source is the one that is kept for it.
pub proof fn law_stream_is_the_kept_one<M, S>(
    driver: &DynamicMultiReducerFuture<M, S>,
    source_id: usize,
    stream: Option<&S>,
)
    requires
        call_ensures(DynamicMultiReducerFuture::<M, S>::stream, (driver, source_id), stream),
    ensures
        stream is Some <==> driver.streams@.contains_key(source_id),
        stream matches Some(kept) ==> *kept == driver.streams@[source_id],
{
}

/// A greeting stands for the event that names its source and its value, and hands
/// over the sending end of its channel.
pub proof fn law_greeting_is_told_as_it_is<M, S>(greeting: Greeting, event: Event<M, S>)
    requires
        call_ensures(Greeting::into_event::<M, S>, (greeting,), event),
    ensures
        event matches Event::Connected2 { reserved, source_id, sink_to_source } && reserved
            == greeting.reserved && source_id == greeting.source_id && sink_to_source
            == greeting.sink_to_source.tx(),
{
}

/// Polling the events takes one result off the driver's channel, and changes
/// nothing else.
pub proof fn law_polling_reads_one_result<M, S>(
    driver: &mut DynamicMultiReducerFuture<M, S>,
    cx: &mut Context<'_>,
    polled: Polled<Event<M, S>>,
)
    requires
        call_ensures(DynamicMultiReducerFuture::<M, S>::poll_event, (driver, cx), polled),
    ensures
        final(driver).event_rx@ == old(driver).event_rx@.push(polled),
        final(driver).event_rx.received() == match polled {
            Polled::Ready(event) => old(driver).event_rx.received().push(event),
            _ => old(driver).event_rx.received(),
        },
        final(driver).event_rx.channel() == old(driver).event_rx.channel(),
        final(driver).event_rx.order() == old(driver).event_rx.order(),
        final(driver).event_tx == old(driver).event_tx,
        final(driver).streams@ == old(driver).streams@,
        old(driver).wired() ==> final(driver).wired(),
{
}

/// The driver takes one result off its channel and does what that result asks
/// for. It fails on the connection or disconnection of a source whose sink it
/// does not know, names that source, and fails on nothing else.
pub proof fn law_driver_does_what_the_event_asks_for<
    M,
    T: PartialEq + Clone + EventEmitter<M, S>,
    S,
>(
    driver: &mut DynamicMultiReducerFuture<M, S>,
    sinks: &mut InnerMap<T>,
    cx: &mut Context<'_>,
    turn: Result<Turn<M, T, S>, usize>,
)
    requires
        call_ensures(DynamicMultiReducerFuture::<M, S>::poll::<T>, (driver, sinks, cx), turn),
    ensures
        final(driver).event_rx@.len() == old(driver).event_rx@.len() + 1,
        old(driver).event_rx@.is_prefix_of(final(driver).event_rx@),
        ({
            let mapped = old(sinks).map@;
            let streams = old(driver).streams@;
            let unchanged = final(sinks).map@ == mapped && final(driver).streams@ == streams;
            match final(driver).event_rx@.last() {
                Polled::Ready(Event::Connected { reserved, source_id, stream }) => {
                    &&& unchanged
                    &&& if mapped.contains_key(source_id) {
                        turn matches Ok(Turn::Continue(reactions)) && introduces(
                            reactions@,
                            reserved,
                            source_id,
                            stream,
                            mapped[source_id],
                            old(driver).event_tx,
                        )
                    } else {
                        turn == Err::<Turn<M, T, S>, usize>(source_id)
                    }
                },
                Polled::Ready(Event::Disconnected { source_id }) => {
                    &&& final(sinks).map@ == mapped
                    &&& final(driver).streams@ == streams.remove(source_id)
                    &&& if mapped.contains_key(source_id) {
                        turn matches Ok(Turn::Continue(reactions)) && {
                            &&& reactions@.len() == 2
                            &&& reactions@[0] matches Reaction::Tell { addr, event }
                            &&& cloned(mapped[source_id], addr)
                            &&& event matches Event::Disconnected { source_id: told }
                            &&& told == source_id
                            &&& reactions@[1] matches Reaction::Forget { source_id: forgotten }
                            &&& forgotten == source_id
                        }
                    } else {
                        turn == Err::<Turn<M, T, S>, usize>(source_id)
                    }
                },
                Polled::Ready(Event::Disconnect { source_id }) => {
                    &&& unchanged
                    &&& turn matches Ok(Turn::Continue(reactions))
                    &&& if streams.contains_key(source_id) {
                        reactions@.len() == 1 && (reactions@[0] matches Reaction::Shutdown {
                            source_id: shut,
                        } && shut == source_id)
                    } else {
                        reactions@.len() == 0
                    }
                },
                Polled::Ready(Event::ConnectionFailed { source_id, .. }) => {
                    &&& final(sinks).map@ == mapped.remove(source_id)
                    &&& final(driver).streams@ == streams
                    &&& turn matches Ok(Turn::Continue(reactions))
                    &&& reactions@.len() == 0
                },
                Polled::Ready(_) => {
                    &&& unchanged
                    &&& turn matches Ok(Turn::Continue(reactions))
                    &&& reactions@.len() == 0
                },
                Polled::Closed => unchanged && (turn matches Ok(done) && done is Finished),
                Polled::Pending => unchanged && (turn matches Ok(idle) && idle is Wait),
            }
        }),
        final(sinks).next_source_id == old(sinks).next_source_id,
        final(driver).event_rx.channel() == old(driver).event_rx.channel(),
        final(driver).event_rx.order() == old(driver).event_rx.order(),
        final(driver).event_tx == old(driver).event_tx,
        old(driver).wired() ==> final(driver).wired(),
{
}

/// The driver can poll, and go on after a reaction, whatever it knows.
pub proof fn law_driver_is_open_to_all<M, T: PartialEq + Clone + EventEmitter<M, S>, S>(
    driver: &mut DynamicMultiReducerFuture<M, S>,
    known: &DynamicMultiReducerFuture<M, S>,
    sinks: &mut InnerMap<T>,
    mapped: &InnerMap<T>,
    cx: &mut Context<'_>,
    polled: &Polled<Event<M, S>>,
    done: Done<M, S>,
    source_id: usize,
    greeting: Greeting,
)
    ensures
        call_requires(DynamicMultiReducerFuture::<M, S>::poll::<T>, (driver, sinks, cx)),
        call_requires(DynamicMultiReducerFuture::<M, S>::poll_event, (driver, cx)),
        call_requires(DynamicMultiReducerFuture::<M, S>::resume::<T>, (driver, sinks, done)),
        call_requires(
            DynamicMultiReducerFuture::<M, S>::can_answer::<T>,
            (known, mapped, polled),
        ),
        call_requires(DynamicMultiReducerFuture::<M, S>::stream, (known, source_id)),
        call_requires(Greeting::into_event::<M, S>, (greeting,)),
{
}

// From the handle to the sink.

/// What was given for a source when it was connected arrives where it belongs:
/// the sink that is started for it, the greeting and the processor get the value
/// and the number of this source, and the sink that was given is told.
pub proof fn law_source_arrives_at_its_sink<M, T: PartialEq + Clone + EventEmitter<M, S>, S>(
    handle: &mut DynamicMultiReducer<M, T, S>,
    driver: &mut DynamicMultiReducerFuture<M, S>,
    sinks: &mut InnerMap<T>,
    reserved: usize,
    server_address: String,
    proxy: Option<String>,
    addr: T,
    stream: S,
    connected: (usize, Connection<M, S>),
    event: Event<M, S>,
    turn: Turn<M, T, S>,
)
    requires
        call_ensures(
            DynamicMultiReducer::<M, T, S>::connect,
            (handle, reserved, server_address, proxy, addr),
            connected,
        ),
        call_ensures(
            Connector::report::<M, S>,
            (connected.1.reserved, connected.1.source_id, Ok(stream)),
            event,
        ),
        *old(sinks) == final(handle).map,
        call_ensures(
            DynamicMultiReducerFuture::<M, S>::answer::<T>,
            (driver, sinks, Polled::Ready(event)),
            turn,
        ),
    ensures
        turn matches Turn::Continue(reactions) && introduces(
            reactions@,
            reserved,
            connected.0,
            stream,
            addr,
            old(driver).event_tx,
        ),
{
}

/// The streams of the sources of a removed sink are shut down: the request that is
/// sent for each of them is answered, though the source has no sink any more.
pub proof fn law_removed_sink_has_its_streams_shut_down<
    M,
    T: PartialEq + Clone + EventEmitter<M, S>,
    S,
>(
    handle: &mut DynamicMultiReducer<M, T, S>,
    driver: &mut DynamicMultiReducerFuture<M, S>,
    sinks: &mut InnerMap<T>,
    wss: T,
    source_id: usize,
    turn: Turn<M, T, S>,
)
    requires
        call_ensures(DynamicMultiReducer::<M, T, S>::remove_sink, (handle, wss), ()),
        old(handle).map.map@.contains_key(source_id),
        !final(handle).map.map@.contains_key(source_id),
        *old(sinks) == final(handle).map,
        old(driver).streams@.contains_key(source_id),
        call_ensures(
            DynamicMultiReducerFuture::<M, S>::answer::<T>,
            (driver, sinks, Polled::Ready(Event::Disconnect { source_id })),
            turn,
        ),
    ensures
        final(handle).event_tx@.skip(old(handle).event_tx@.len() as int).contains(
            Event::Disconnect { source_id },
        ),
        turn matches Turn::Continue(reactions) && reactions@.len() == 1 && (
        reactions@[0] matches Reaction::Shutdown { source_id: shut } && shut == source_id),
{
    law_each_forgotten_source_is_asked_to_disconnect(handle, wss, source_id, 0);
}

} // verus!
