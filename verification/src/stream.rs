//! Logical streams: one bidirectional ordered byte channel within a session.

use vstd::prelude::*;

verus! {

/// The half-close state machine of a logical stream.
///
/// `Open -> HalfClosedLocal` on a local close, `Open -> HalfClosedRemote` on
/// receipt of a remote close, and `Closed` once both sides have closed or the
/// stream is reset.
#[derive(Clone, Copy, Debug, PartialEq, Eq, Structural)]
pub enum StreamState {
    Open,
    HalfClosedLocal,
    HalfClosedRemote,
    Closed,
}

/// The state after the local side closes its sending direction.
pub open spec fn after_local_close(s: StreamState) -> StreamState {
    match s {
        StreamState::Open => StreamState::HalfClosedLocal,
        StreamState::HalfClosedRemote => StreamState::Closed,
        _ => s,
    }
}

/// The state after the remote side closes its sending direction.
pub open spec fn after_remote_close(s: StreamState) -> StreamState {
    match s {
        StreamState::Open => StreamState::HalfClosedRemote,
        StreamState::HalfClosedLocal => StreamState::Closed,
        _ => s,
    }
}

/// The local side may still send: it has not closed its own direction.
pub open spec fn can_send(s: StreamState) -> bool {
    s == StreamState::Open || s == StreamState::HalfClosedRemote
}

/// The remote side may still send: it has not closed its own direction.
pub open spec fn can_recv(s: StreamState) -> bool {
    s == StreamState::Open || s == StreamState::HalfClosedLocal
}

/// Closing both directions reaches `Closed` exactly once, in either order:
/// from any live state the two closes together end in `Closed`, a single
/// close of one direction of an `Open` stream does not, and once `Closed`
/// further closes change nothing.
pub proof fn lemma_close_both_directions(s: StreamState)
    ensures
        s != StreamState::Closed ==> after_remote_close(after_local_close(s)) == StreamState::Closed,
        s != StreamState::Closed ==> after_local_close(after_remote_close(s)) == StreamState::Closed,
        after_remote_close(after_local_close(s)) == after_local_close(after_remote_close(s)),
        after_local_close(StreamState::Open) != StreamState::Closed,
        after_remote_close(StreamState::Open) != StreamState::Closed,
        after_local_close(StreamState::Closed) == StreamState::Closed,
        after_remote_close(StreamState::Closed) == StreamState::Closed,
{
}

/// Apply the local-close transition to a state.
pub fn local_close_step(s: StreamState) -> (r: StreamState)
    ensures
        r == after_local_close(s),
{
    match s {
        StreamState::Open => StreamState::HalfClosedLocal,
        StreamState::HalfClosedRemote => StreamState::Closed,
        other => other,
    }
}

/// Apply the remote-close transition to a state.
pub fn remote_close_step(s: StreamState) -> (r: StreamState)
    ensures
        r == after_remote_close(s),
{
    match s {
        StreamState::Open => StreamState::HalfClosedRemote,
        StreamState::HalfClosedLocal => StreamState::Closed,
        other => other,
    }
}

/// The mathematical value of a logical stream.
#[verifier::ext_equal]
pub ghost struct StreamV {
    pub id: u32,
    pub state: StreamState,
    /// Bytes received and buffered, not yet read by the local side.
    pub recv: Seq<u8>,
    /// The receive credit advertised to the peer.
    pub window: u32,
    /// Bytes drained by the local reader since the last window update.
    pub consumed: u32,
    /// Bytes the local side may still send before the peer must grant more.
    pub send_credit: u32,
}

/// Flow accounting of one stream: what is buffered plus what has been
/// drained but not yet re-advertised never exceeds the advertised window.
/// In particular the buffer itself never exceeds the advertised credit.
pub open spec fn stream_wf(v: StreamV) -> bool {
    v.recv.len() + v.consumed <= v.window
}

/// One bidirectional byte channel multiplexed within a session.
///
/// The owning session is the sole mutator; the stream holds no reference
/// back to it and all frame traffic goes through the session's dispatch
/// point.
pub struct LogicalStream {
    pub id: u32,
    pub state: StreamState,
    pub recv_buf: Vec<u8>,
    pub window: u32,
    pub consumed: u32,
    pub send_credit: u32,
}

impl View for LogicalStream {
    type V = StreamV;

    open spec fn view(&self) -> StreamV {
        StreamV {
            id: self.id,
            state: self.state,
            recv: self.recv_buf@,
            window: self.window,
            consumed: self.consumed,
            send_credit: self.send_credit,
        }
    }
}

impl LogicalStream {
    /// A freshly opened stream: empty buffer, full windows, state `Open`.
    pub fn new(id: u32, window: u32, send_credit: u32) -> (s: LogicalStream)
        ensures
            s@ == (StreamV {
                id,
                state: StreamState::Open,
                recv: Seq::<u8>::empty(),
                window,
                consumed: 0,
                send_credit,
            }),
            stream_wf(s@),
    {
        LogicalStream {
            id,
            state: StreamState::Open,
            recv_buf: Vec::new(),
            window,
            consumed: 0,
            send_credit,
        }
    }
}

} // verus!
