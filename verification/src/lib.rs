//! A multiplexed-stream session manager.
//!
//! One session multiplexes many logical byte streams over a single ordered
//! transport. The session allocates stream ids, accounts for per-stream
//! flow-control credit, and dispatches incoming frames to the addressed
//! logical stream. The transport itself, and the framing of bytes on the
//! wire, are collaborators: the session consumes and produces [`Frame`]
//! values and never touches a socket.
//!
//! Suspension is scheduler-agnostic: an operation that cannot make
//! progress yet — a read with nothing buffered, a write with no send
//! credit, an accept with nothing pending — returns an empty result
//! instead of blocking, and the caller retries after the dispatch routine
//! has taken in more frames. Cancelling such a retry loop needs no undo:
//! the operation left the session unchanged.

use vstd::prelude::*;

pub mod frame;
pub mod stream;
pub mod session;

pub use frame::Frame;
pub use frame::FrameType;
pub use session::Session;
pub use session::SessionMode;
pub use stream::LogicalStream;
pub use stream::StreamState;

verus! {

/// Errors raised by session and stream operations.
///
/// `ResourceExhausted`: the stream-id space is saturated.
/// `ProtocolError`: a malformed or misaddressed frame; fatal to the session.
/// `StreamClosed`: an operation on a closed stream; local and recoverable.
/// `ConnectionClosed`: the session has terminated; every outstanding and
/// future operation reports it.
#[derive(Clone, Copy, Debug, PartialEq, Eq, Structural)]
pub enum SessionError {
    ResourceExhausted,
    ProtocolError,
    StreamClosed,
    ConnectionClosed,
}

} // verus!
