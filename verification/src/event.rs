//! What is told to the reducer and to the sinks.
use tokio::sync::mpsc::Sender;
use vstd::prelude::*;

verus! {

/// An event of a source. `M` is the message type of the sinks and `S` the
/// handle of a connected stream.
#[derive(Debug)]
pub enum Event<M, S> {
    /// Data was sent from the source to the sink.
    SourceToSink { source_id: usize, bytes: Vec<u8> },
    /// The source is to be disconnected.
    Disconnect { source_id: usize },
    /// The source was connected to the target server.
    Connected { reserved: usize, source_id: usize, stream: S },
    /// Duplicate of `Connected` for the sink: the stream stays behind, and the
    /// sink gets the way back to the source.
    Connected2 {
        reserved: usize,
        source_id: usize,
        sink_to_source: Sender<Result<Vec<u8>, std::io::Error>>,
    },
    /// The source failed to connect to the target server.
    ConnectionFailed { source_id: usize, reserved: usize },
    /// Undecoded bytes of the source.
    Raw { source_id: usize, bytes: Vec<u8> },
    /// A decoded message of the source.
    Message { reserved: usize, source_id: usize, msg: M },
    /// The source was disconnected.
    Disconnected { source_id: usize },
}

impl<M, S> Event<M, S> {
    /// Whether the events are the same but for the message and the stream. What
    /// is compared exists at run time, whatever `M` and `S` are.
    pub open spec fn alike(self, other: Self) -> bool {
        match (self, other) {
            (
                Event::SourceToSink { source_id: a, bytes: x },
                Event::SourceToSink { source_id: b, bytes: y },
            ) => a == b && x@ == y@,
            (Event::Disconnect { source_id: a }, Event::Disconnect { source_id: b }) => a == b,
            (
                Event::Connected { reserved: x, source_id: a, .. },
                Event::Connected { reserved: y, source_id: b, .. },
            ) => x == y && a == b,
            (
                Event::Connected2 { reserved: x, source_id: a, sink_to_source: v },
                Event::Connected2 { reserved: y, source_id: b, sink_to_source: w },
            ) => x == y && a == b && v == w,
            (
                Event::ConnectionFailed { reserved: x, source_id: a },
                Event::ConnectionFailed { reserved: y, source_id: b },
            ) => x == y && a == b,
            (
                Event::Raw { source_id: a, bytes: x },
                Event::Raw { source_id: b, bytes: y },
            ) => a == b && x@ == y@,
            (
                Event::Message { reserved: x, source_id: a, .. },
                Event::Message { reserved: y, source_id: b, .. },
            ) => x == y && a == b,
            (Event::Disconnected { source_id: a }, Event::Disconnected { source_id: b }) => a == b,
            _ => false,
        }
    }
}

/// The address of a sink: whatever can be told about the sink's sources.
pub trait EventEmitter<M, S> {
    /// Tells the sink of `event`.
    fn emit(&mut self, event: Event<M, S>);
}

} // verus!
