//! How a source is connected to its server.
use crate::address::{parse_ipv4_address, splits_into};
use crate::error::Error;
use crate::event::Event;
use fast_socks5::SocksError;
use tokio::sync::mpsc::Sender;
use vstd::prelude::*;

verus! {

/// What to connect to for a TCP stream to the server.
#[derive(Debug)]
pub enum Dial {
    /// Ask the socks5 proxy at `proxy_address` for a connection to `addr` and `port`.
    Proxy { proxy_address: String, addr: String, port: u16 },
    /// Connect to `server_address` itself.
    Direct { server_address: String },
}

impl Dial {
    /// Whether this is the way to the server, given the proxy if there is one.
    pub open spec fn leads_to(
        self,
        server_address: Seq<char>,
        proxy_address: Option<Seq<char>>,
    ) -> bool {
        match self {
            Dial::Proxy { proxy_address: proxy, addr, port } => proxy_address == Some(proxy@)
                && splits_into(server_address, addr@, port),
            Dial::Direct { server_address: server } => proxy_address is None && server@
                == server_address && is_server_address(server_address),
        }
    }
}

/// Whether `text` is an IPv4 address and a port.
pub open spec fn is_server_address(text: Seq<char>) -> bool {
    exists|host: Seq<char>, port: u16| splits_into(text, host, port)
}

/// The text of an address that may be missing.
pub open spec fn text_of(address: Option<String>) -> Option<Seq<char>> {
    match address {
        Some(text) => Some(text@),
        None => None,
    }
}

/// Whether `dial` is the right answer to how the server is reached: a way to it,
/// or the error that its address is none.
pub open spec fn is_answer(
    dial: Result<Dial, Error>,
    server_address: Seq<char>,
    proxy_address: Option<Seq<char>>,
) -> bool {
    match dial {
        Ok(dial) => dial.leads_to(server_address, proxy_address),
        Err(error) => error is ParseIPAddress && !is_server_address(server_address),
    }
}

/// Chooses the way to the server: through the socks5 proxy if there is one, or
/// directly. Either way the server address has to be an IPv4 address and a port.
pub fn connect_via_proxy_or_directly(
    server_address: &str,
    proxy_address: Option<String>,
) -> (dial: Result<Dial, Error>)
    ensures
        is_answer(dial, server_address@, text_of(proxy_address)),
{
    let (addr, port) = match parse_ipv4_address(server_address) {
        Ok(parsed) => parsed,
        Err(error) => return Err(error),
    };
    assert(splits_into(server_address@, addr@, port));
    if let Some(proxy_address) = proxy_address {
        Ok(Dial::Proxy { proxy_address, addr, port })
    } else {
        Ok(Dial::Direct { server_address: server_address.to_owned() })
    }
}

/// What came of asking the proxy.
pub fn via_proxy<S>(answer: Result<S, SocksError>) -> (outcome: Result<S, Error>)
    ensures
        outcome == match answer {
            Ok(stream) => Ok::<S, Error>(stream),
            Err(err) => Err(Error::FastSocks(err)),
        },
{
    match answer {
        Ok(stream) => Ok(stream),
        Err(err) => Err(Error::from(err)),
    }
}

/// What came of connecting to the server itself.
pub fn directly<S>(answer: Result<S, std::io::Error>) -> (outcome: Result<S, Error>)
    ensures
        outcome == match answer {
            Ok(stream) => Ok::<S, Error>(stream),
            Err(err) => Err(Error::IO(err)),
        },
{
    match answer {
        Ok(stream) => Ok(stream),
        Err(err) => Err(Error::from(err)),
    }
}

/// A connection to be made, and where to tell of it.
#[derive(Debug)]
#[verifier::reject_recursive_types(M)]
#[verifier::reject_recursive_types(S)]
pub struct Connection<M, S> {
    /// Handed through to the sink.
    pub reserved: usize,
    /// The source that is connected.
    pub source_id: usize,
    /// The way to the server, or why there is none.
    pub dial: Result<Dial, Error>,
    /// Where the outcome is sent.
    pub event_emitter: Sender<Event<M, S>>,
}

/// The event that tells of the outcome of a connection attempt.
pub open spec fn outcome_event<M, S>(
    reserved: usize,
    source_id: usize,
    outcome: Result<S, Error>,
) -> Event<M, S> {
    match outcome {
        Ok(stream) => Event::Connected { reserved, source_id, stream },
        Err(_) => Event::ConnectionFailed { source_id, reserved },
    }
}

/// Makes connections.
pub struct Connector {}

impl Clone for Connector {
    fn clone(&self) -> (copy: Self)
        ensures
            copy == *self,
    {
        Connector {  }
    }
}

impl Connector {
    /// A connector has no state.
    pub fn new() -> (connector: Self)
        ensures
            connector == (Connector {  }),
    {
        Connector {  }
    }

    /// Sets out to obtain a tcp stream through a socks5 proxy or directly.
    pub fn connect<M, S>(
        reserved: usize,
        server_address: String,
        proxy_address: Option<String>,
        source_id: usize,
        event_emitter: Sender<Event<M, S>>,
    ) -> (connection: Connection<M, S>)
        ensures
            connection.reserved == reserved,
            connection.source_id == source_id,
            connection.event_emitter == event_emitter,
            is_answer(connection.dial, server_address@, text_of(proxy_address)),
    {
        let dial = connect_via_proxy_or_directly(server_address.as_str(), proxy_address);
        Connection { reserved, source_id, dial, event_emitter }
    }

    /// The event for `event_emitter`: the stream is sent on success, and
    /// `ConnectionFailed` on failure.
    pub fn report<M, S>(
        reserved: usize,
        source_id: usize,
        outcome: Result<S, Error>,
    ) -> (event: Event<M, S>)
        ensures
            event == outcome_event::<M, S>(reserved, source_id, outcome),
    {
        match outcome {
            Ok(stream) => Event::Connected { reserved, source_id, stream },
            Err(_) => Event::ConnectionFailed { source_id, reserved },
        }
    }
}

} // verus!
