//! What the two relay strategies have in common: the events that the
//! transport reports, and the reasons for which a relay ends.

use vstd::prelude::*;

verus! {

/// The two connections of a relay.
#[derive(Clone, Copy, Debug, PartialEq, Eq, Structural)]
pub enum Side {
    /// The connection that carries TLS records, facing the peer.
    Front,
    /// The other connection.
    Back,
}

/// What waiting on a framed stream came back with.
#[derive(Clone, Copy, Debug, PartialEq, Eq, Structural)]
pub enum ReadEvent {
    /// A decode cycle has put a batch into the codec's buffer.
    Ready,
    /// The peer closed the stream.
    Closed,
    /// Reading or decoding failed.
    Failed,
}

/// Why a relay ends. Every one of them is final: the caller drops both
/// connections.
#[derive(Clone, Copy, Debug, PartialEq, Eq, Structural)]
pub enum RelayError {
    /// The stream of that side ended.
    Closed(Side),
    /// Reading from that side failed.
    Failed(Side),
    /// Buffered bytes that should be records are not: a header is cut short
    /// or declares more than is there.
    MalformedRecord,
}

} // verus!
