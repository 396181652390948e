# dynamic_multi_reducer

Streams data from many sources to a changing set of sinks and back. A source is
a TCP connection, made directly or through a socks5 proxy, and is mapped to the
sink that receives its data.

- `src/` decides, and is verified with Verus.
  - `reducer.rs`: the map from sources to sinks, and the handle that adds and
    removes both.
  - `driver.rs`: what is done about each event of a source.
  - `connect.rs`, `address.rs`: how a server is reached, and what a server
    address is.
  - `mpsc.rs`: the ends of bounded tokio channels, with the record of what was
    offered, accepted and polled, and the order of the queue.
  - `channel.rs`: opening a channel, offering events to it, and what both ends
    keep to.
  - `event.rs`, `error.rs`: the events and the errors.
  - `laws.rs`: what holds over any number of calls.
- `app/` runs it on tokio: sockets, tasks, locks and wake-ups.
- `tests/` runs the library on concrete values.
