//! The session: one multiplexed connection over a single ordered transport.

use vstd::prelude::*;

use crate::SessionError;
use crate::frame::Frame;
use crate::frame::FrameType;
use crate::stream::LogicalStream;
use crate::stream::StreamState;
use crate::stream::StreamV;
use crate::stream::after_local_close;
use crate::stream::after_remote_close;
use crate::stream::can_recv;
use crate::stream::can_send;
use crate::stream::stream_wf;

verus! {

/// Which side of the connection this session is.
///
/// Initiators allocate odd stream ids, responders even ones, so the two
/// sides can never collide.
#[derive(Clone, Copy, Debug, PartialEq, Eq, Structural)]
pub enum SessionMode {
    Initiator,
    Responder,
}

/// The receive window every new stream starts with, and the send credit it
/// grants the peer.
pub const INITIAL_WINDOW: u32 = 262144;

/// The largest stream id `open_outbound` will allocate: past it the next-id
/// counter could not step without wrapping, and the id space counts as
/// saturated.
pub const LAST_STREAM_ID: u32 = 0xffff_fffd;

/// The id parity this side allocates from: odd for an initiator, even for a
/// responder.
pub open spec fn local_parity(mode: SessionMode) -> u32 {
    if mode == SessionMode::Initiator {
        1u32
    } else {
        0u32
    }
}

/// The first stream id a session of the given mode allocates.
pub open spec fn first_id(mode: SessionMode) -> u32 {
    if mode == SessionMode::Initiator {
        1u32
    } else {
        2u32
    }
}

/// The mathematical value of a session.
#[verifier::ext_equal]
pub ghost struct SessionV {
    pub mode: SessionMode,
    /// The next outbound stream id to allocate; steps by two.
    pub next_id: u32,
    /// The live streams, every one addressable by its unique id.
    pub streams: Seq<StreamV>,
    /// Ids of inbound streams opened by the peer and not yet accepted.
    pub pending: Seq<u32>,
    /// The session has terminated; every operation fails.
    pub closed: bool,
}

/// Well-formedness of a session value.
///
/// The next-id counter has the mode's parity and never falls below the
/// mode's first id; live stream ids are pairwise distinct; every live id of
/// local parity was allocated, so it lies below the counter; no live stream
/// has reached `Closed` (a fully closed stream is destroyed); and every live
/// stream satisfies its flow accounting.
pub open spec fn session_wf(v: SessionV) -> bool {
    &&& v.next_id % 2 == local_parity(v.mode)
    &&& v.next_id >= first_id(v.mode)
    &&& forall|i: int, j: int|
        0 <= i < j < v.streams.len() ==> (#[trigger] v.streams[i].id) != (#[trigger] v.streams[j].id)
    &&& forall|i: int|
        0 <= i < v.streams.len() && (#[trigger] v.streams[i].id) % 2 == local_parity(v.mode)
            ==> v.streams[i].id < v.next_id
    &&& forall|i: int| 0 <= i < v.streams.len() ==> (#[trigger] v.streams[i].state) != StreamState::Closed
    &&& forall|i: int| 0 <= i < v.streams.len() ==> stream_wf(#[trigger] v.streams[i])
}

/// Some live stream of `v` carries the id.
pub open spec fn has_stream(v: SessionV, id: u32) -> bool {
    exists|i: int| 0 <= i < v.streams.len() && (#[trigger] v.streams[i].id) == id
}

/// The index of the live stream carrying `id`; meaningful only when
/// `has_stream(v, id)` holds, and then unique under `session_wf`.
pub open spec fn idx_of(v: SessionV, id: u32) -> int {
    choose|i: int| 0 <= i < v.streams.len() && (#[trigger] v.streams[i].id) == id
}

/// One multiplexed connection: allocates stream ids, dispatches frames to
/// logical streams, and accounts for per-stream flow-control credit.
///
/// The session is the sole mutator of its stream table; callers refer to
/// streams by id and route every operation through it.
pub struct Session {
    pub mode: SessionMode,
    pub next_id: u32,
    pub streams: Vec<LogicalStream>,
    pub pending: Vec<u32>,
    pub closed: bool,
}

impl View for Session {
    type V = SessionV;

    open spec fn view(&self) -> SessionV {
        SessionV {
            mode: self.mode,
            next_id: self.next_id,
            streams: self.streams@.map_values(|s: LogicalStream| s@),
            pending: self.pending@,
            closed: self.closed,
        }
    }
}

impl Session {
    /// A fresh session of the given mode: no streams, nothing pending, the
    /// id counter at the mode's first id.
    pub fn new(mode: SessionMode) -> (s: Session)
        ensures
            s@ == (SessionV {
                mode,
                next_id: first_id(mode),
                streams: Seq::<StreamV>::empty(),
                pending: Seq::<u32>::empty(),
                closed: false,
            }),
            session_wf(s@),
    {
        let next_id: u32 = if let SessionMode::Initiator = mode {
            1
        } else {
            2
        };
        let s = Session { mode, next_id, streams: Vec::new(), pending: Vec::new(), closed: false };
        proof {
            assert(s@.streams =~= Seq::<StreamV>::empty());
            assert(s@ =~= (SessionV {
                mode,
                next_id: first_id(mode),
                streams: Seq::<StreamV>::empty(),
                pending: Seq::<u32>::empty(),
                closed: false,
            }));
        }
        s
    }

    /// Allocate a new outbound stream.
    ///
    /// Returns the fresh id, with the mode's parity and distinct from every
    /// live stream's id, together with the `Open` frame to send to the peer.
    /// Fails with `ConnectionClosed` once the session has terminated, and
    /// with `ResourceExhausted` once the id space is saturated; in both
    /// failure cases the session is unchanged.
    pub fn open_outbound(&mut self) -> (r: Result<(u32, Frame), SessionError>)
        requires
            session_wf(old(self)@),
        ensures
            session_wf(final(self)@),
            old(self)@.closed ==> r == Err::<(u32, Frame), SessionError>(
                SessionError::ConnectionClosed,
            ) && final(self)@ == old(self)@,
            !old(self)@.closed && old(self)@.next_id > LAST_STREAM_ID ==> r == Err::<
                (u32, Frame),
                SessionError,
            >(SessionError::ResourceExhausted) && final(self)@ == old(self)@,
            !old(self)@.closed && old(self)@.next_id <= LAST_STREAM_ID ==> {
                &&& r matches Ok(p)
                &&& p.0 == old(self)@.next_id
                &&& p.0 % 2 == local_parity(old(self)@.mode)
                &&& !has_stream(old(self)@, p.0)
                &&& p.1.ftype == FrameType::Open
                &&& p.1.stream_id == p.0
                &&& p.1.length == 0
                &&& p.1.payload@.len() == 0
                &&& final(self)@.next_id == old(self)@.next_id + 2
                &&& final(self)@.streams == old(self)@.streams.push(
                    StreamV {
                        id: p.0,
                        state: StreamState::Open,
                        recv: Seq::<u8>::empty(),
                        window: INITIAL_WINDOW,
                        consumed: 0,
                        send_credit: INITIAL_WINDOW,
                    },
                )
                &&& final(self)@.pending == old(self)@.pending
                &&& final(self)@.mode == old(self)@.mode
                &&& !final(self)@.closed
            },
    {
        if self.closed {
            return Err(SessionError::ConnectionClosed);
        }
        if self.next_id > LAST_STREAM_ID {
            return Err(SessionError::ResourceExhausted);
        }
        let id = self.next_id;
        proof {
            lemma_alloc_fresh_and_parity(self@);
        }
        self.next_id = id + 2;
        let st = LogicalStream::new(id, INITIAL_WINDOW, INITIAL_WINDOW);
        self.streams.push(st);
        let f = Frame::open_frame(id);
        proof {
            let ov = old(self)@;
            assert(self@.streams =~= ov.streams.push(
                StreamV {
                    id,
                    state: StreamState::Open,
                    recv: Seq::<u8>::empty(),
                    window: INITIAL_WINDOW,
                    consumed: 0,
                    send_credit: INITIAL_WINDOW,
                },
            ));
        }
        Ok((id, f))
    }

    /// Look up the table index of the live stream carrying `id`.
    fn find(&self, id: u32) -> (r: Option<usize>)
        requires
            session_wf(self@),
        ensures
            match r {
                Some(i) => has_stream(self@, id) && idx_of(self@, id) == i as int && i
                    < self@.streams.len() && self@.streams[i as int].id == id,
                None => !has_stream(self@, id),
            },
    {
        let n = self.streams.len();
        let mut i: usize = 0;
        while i < n
            invariant
                n == self@.streams.len(),
                i <= n,
                session_wf(self@),
                forall|j: int| 0 <= j < i ==> (#[trigger] self@.streams[j].id) != id,
            decreases n - i,
        {
            if self.streams[i].id == id {
                proof {
                    lemma_idx_unique(self@, id, i as int);
                }
                return Some(i);
            }
            i = i + 1;
        }
        None
    }

    /// A protocol error is fatal to the session: terminate it, so that
    /// every stream is destroyed and all further operations fail.
    fn fail_protocol(&mut self) -> (r: Result<(), SessionError>)
        requires
            session_wf(old(self)@),
        ensures
            session_wf(final(self)@),
            r == Err::<(), SessionError>(SessionError::ProtocolError),
            final(self)@ == terminated(old(self)@),
    {
        self.closed = true;
        self.streams.clear();
        self.pending.clear();
        proof {
            assert(self@.streams =~= Seq::<StreamV>::empty());
            assert(self@ =~= terminated(old(self)@));
        }
        Err(SessionError::ProtocolError)
    }

    /// Route one incoming frame to the addressed logical stream.
    ///
    /// `Open` queues a fresh inbound stream; `Data` appends to the
    /// addressed stream's receive buffer, refusing bytes past the
    /// advertised window; `WindowUpdate` grants send credit; `Close`
    /// half-closes the remote direction, destroying the stream once both
    /// sides have closed; `Reset` destroys the stream outright. A `Close`,
    /// `WindowUpdate` or `Reset` frame for an id that is not live is
    /// silently ignored: it is expected traffic for a recently destroyed
    /// stream. Every other misaddressed or ill-flowing frame is a protocol
    /// error, which is fatal: the session terminates.
    pub fn dispatch_frame(&mut self, frame: &Frame) -> (r: Result<(), SessionError>)
        requires
            session_wf(old(self)@),
            frame.wf(),
        ensures
            session_wf(final(self)@),
            old(self)@.closed ==> r == Err::<(), SessionError>(SessionError::ConnectionClosed)
                && final(self)@ == old(self)@,
            !old(self)@.closed ==> match frame.ftype {
                FrameType::Open => if frame.stream_id % 2 != local_parity(old(self)@.mode)
                    && !has_stream(old(self)@, frame.stream_id) {
                    &&& r == Ok::<(), SessionError>(())
                    &&& final(self)@ == (SessionV {
                        streams: old(self)@.streams.push(
                            (StreamV {
                                id: frame.stream_id,
                                state: StreamState::Open,
                                recv: Seq::<u8>::empty(),
                                window: INITIAL_WINDOW,
                                consumed: 0,
                                send_credit: INITIAL_WINDOW,
                            }),
                        ),
                        pending: old(self)@.pending.push(frame.stream_id),
                        ..old(self)@
                    })
                } else {
                    r == Err::<(), SessionError>(SessionError::ProtocolError) && final(self)@
                        == terminated(old(self)@)
                },
                FrameType::Data => {
                    let i = idx_of(old(self)@, frame.stream_id);
                    if has_stream(old(self)@, frame.stream_id) && can_recv(
                        old(self)@.streams[i].state,
                    ) && old(self)@.streams[i].recv.len() + old(self)@.streams[i].consumed
                        + frame.payload@.len() <= old(self)@.streams[i].window {
                        &&& r == Ok::<(), SessionError>(())
                        &&& final(self)@ == (SessionV {
                            streams: old(self)@.streams.update(
                                i,
                                with_received(old(self)@.streams[i], frame.payload@),
                            ),
                            ..old(self)@
                        })
                    } else {
                        r == Err::<(), SessionError>(SessionError::ProtocolError) && final(self)@
                            == terminated(old(self)@)
                    }
                },
                FrameType::WindowUpdate => {
                    let i = idx_of(old(self)@, frame.stream_id);
                    if !has_stream(old(self)@, frame.stream_id) {
                        r == Ok::<(), SessionError>(()) && final(self)@ == old(self)@
                    } else if old(self)@.streams[i].send_credit + frame.length <= 0xffff_ffff {
                        &&& r == Ok::<(), SessionError>(())
                        &&& final(self)@ == (SessionV {
                            streams: old(self)@.streams.update(
                                i,
                                with_credit(old(self)@.streams[i], frame.length),
                            ),
                            ..old(self)@
                        })
                    } else {
                        r == Err::<(), SessionError>(SessionError::ProtocolError) && final(self)@
                            == terminated(old(self)@)
                    }
                },
                FrameType::Close => r == Ok::<(), SessionError>(()) && final(self)@
                    == remote_close_op(old(self)@, frame.stream_id),
                FrameType::Reset => {
                    let i = idx_of(old(self)@, frame.stream_id);
                    if !has_stream(old(self)@, frame.stream_id) {
                        r == Ok::<(), SessionError>(()) && final(self)@ == old(self)@
                    } else {
                        r == Ok::<(), SessionError>(()) && final(self)@ == (SessionV {
                            streams: old(self)@.streams.remove(i),
                            ..old(self)@
                        })
                    }
                },
            },
    {
        if self.closed {
            return Err(SessionError::ConnectionClosed);
        }
        let id = frame.stream_id;
        match frame.ftype {
            FrameType::Open => {
                let lp: u32 = if let SessionMode::Initiator = self.mode {
                    1
                } else {
                    0
                };
                if id % 2 == lp {
                    return self.fail_protocol();
                }
                match self.find(id) {
                    Some(_) => self.fail_protocol(),
                    None => {
                        let st = LogicalStream::new(id, INITIAL_WINDOW, INITIAL_WINDOW);
                        proof {
                            lemma_wf_after_open(self@, id, st@);
                        }
                        self.streams.push(st);
                        self.pending.push(id);
                        proof {
                            let ov = old(self)@;
                            assert(self@.streams =~= ov.streams.push(st@));
                            assert(self@ =~= (SessionV {
                                streams: ov.streams.push(st@),
                                pending: ov.pending.push(id),
                                ..ov
                            }));
                        }
                        Ok(())
                    },
                }
            },
            FrameType::Data => {
                match self.find(id) {
                    None => self.fail_protocol(),
                    Some(i) => {
                        let ghost ov = old(self)@;
                        let ghost ii = i as int;
                        let state = self.streams[i].state;
                        let can = state == StreamState::Open || state
                            == StreamState::HalfClosedLocal;
                        if !can {
                            return self.fail_protocol();
                        }
                        let buffered = self.streams[i].recv_buf.len();
                        let consumed = self.streams[i].consumed;
                        let window = self.streams[i].window;
                        proof {
                            assert(stream_wf(ov.streams[ii]));
                        }
                        let avail: u32 = window - consumed - (buffered as u32);
                        if frame.payload.len() > avail as usize {
                            return self.fail_protocol();
                        }
                        let mut s = self.streams.remove(i);
                        let ghost pre_s = s@;
                        let mut k: usize = 0;
                        while k < frame.payload.len()
                            invariant
                                k <= frame.payload@.len(),
                                s.id == pre_s.id,
                                s.state == pre_s.state,
                                s.window == pre_s.window,
                                s.consumed == pre_s.consumed,
                                s.send_credit == pre_s.send_credit,
                                s.recv_buf@ == pre_s.recv + frame.payload@.take(k as int),
                            decreases frame.payload@.len() - k,
                        {
                            s.recv_buf.push(frame.payload[k]);
                            proof {
                                assert(s.recv_buf@ =~= pre_s.recv + frame.payload@.take(
                                    k as int + 1,
                                ));
                            }
                            k = k + 1;
                        }
                        proof {
                            assert(frame.payload@.take(frame.payload@.len() as int)
                                =~= frame.payload@);
                        }
                        self.streams.insert(i, s);
                        proof {
                            lemma_remove_insert_is_update(ov.streams, ii, s@);
                            assert(self@.streams =~= ov.streams.remove(ii).insert(ii, s@));
                            assert(s@ =~= with_received(ov.streams[ii], frame.payload@));
                            lemma_wf_after_update(ov, ii, s@);
                            assert(self@ =~= (SessionV {
                                streams: ov.streams.update(
                                    ii,
                                    with_received(ov.streams[ii], frame.payload@),
                                ),
                                ..ov
                            }));
                        }
                        Ok(())
                    },
                }
            },
            FrameType::WindowUpdate => {
                match self.find(id) {
                    None => Ok(()),
                    Some(i) => {
                        let ghost ov = old(self)@;
                        let ghost ii = i as int;
                        let credit = self.streams[i].send_credit;
                        if frame.length > 0xffff_ffffu32 - credit {
                            return self.fail_protocol();
                        }
                        let mut s = self.streams.remove(i);
                        s.send_credit = s.send_credit + frame.length;
                        self.streams.insert(i, s);
                        proof {
                            lemma_remove_insert_is_update(ov.streams, ii, s@);
                            assert(self@.streams =~= ov.streams.remove(ii).insert(ii, s@));
                            assert(s@ =~= with_credit(ov.streams[ii], frame.length));
                            lemma_wf_after_update(ov, ii, s@);
                            assert(self@ =~= (SessionV {
                                streams: ov.streams.update(
                                    ii,
                                    with_credit(ov.streams[ii], frame.length),
                                ),
                                ..ov
                            }));
                        }
                        Ok(())
                    },
                }
            },
            FrameType::Close => {
                match self.find(id) {
                    None => Ok(()),
                    Some(i) => {
                        let ghost ov = old(self)@;
                        let ghost ii = i as int;
                        let new_state = crate::stream::remote_close_step(self.streams[i].state);
                        if new_state == StreamState::Closed {
                            self.streams.remove(i);
                            proof {
                                lemma_wf_after_remove(ov, ii);
                                assert(self@.streams =~= ov.streams.remove(ii));
                                assert(self@ =~= (SessionV { streams: ov.streams.remove(ii), ..ov }));
                            }
                            Ok(())
                        } else {
                            let mut s = self.streams.remove(i);
                            s.state = new_state;
                            self.streams.insert(i, s);
                            proof {
                                lemma_remove_insert_is_update(ov.streams, ii, s@);
                                assert(self@.streams =~= ov.streams.remove(ii).insert(ii, s@));
                                assert(s@ =~= with_remote_closed(ov.streams[ii]));
                                lemma_wf_after_update(ov, ii, s@);
                                assert(self@ =~= (SessionV {
                                    streams: ov.streams.update(
                                        ii,
                                        with_remote_closed(ov.streams[ii]),
                                    ),
                                    ..ov
                                }));
                            }
                            Ok(())
                        }
                    },
                }
            },
            FrameType::Reset => {
                match self.find(id) {
                    None => Ok(()),
                    Some(i) => {
                        let ghost ov = old(self)@;
                        let ghost ii = i as int;
                        self.streams.remove(i);
                        proof {
                            lemma_wf_after_remove(ov, ii);
                            assert(self@.streams =~= ov.streams.remove(ii));
                            assert(self@ =~= (SessionV { streams: ov.streams.remove(ii), ..ov }));
                        }
                        Ok(())
                    },
                }
            },
        }
    }
}

impl Session {
    /// Accept the next pending inbound stream, if any.
    ///
    /// Inbound streams opened by the peer are queued at dispatch and stay
    /// queued, in arrival order, until accepted here or until the session
    /// closes; they are never dropped. `None` means nothing is pending
    /// right now.
    pub fn accept_inbound(&mut self) -> (r: Result<Option<u32>, SessionError>)
        requires
            session_wf(old(self)@),
        ensures
            session_wf(final(self)@),
            old(self)@.closed ==> r == Err::<Option<u32>, SessionError>(
                SessionError::ConnectionClosed,
            ) && final(self)@ == old(self)@,
            !old(self)@.closed && old(self)@.pending.len() == 0 ==> r == Ok::<
                Option<u32>,
                SessionError,
            >(None) && final(self)@ == old(self)@,
            !old(self)@.closed && old(self)@.pending.len() > 0 ==> r == Ok::<
                Option<u32>,
                SessionError,
            >(Some(old(self)@.pending[0])) && final(self)@ == (SessionV {
                pending: old(self)@.pending.remove(0),
                ..old(self)@
            }),
    {
        if self.closed {
            return Err(SessionError::ConnectionClosed);
        }
        if self.pending.len() == 0 {
            return Ok(None);
        }
        let id = self.pending.remove(0);
        proof {
            assert(self@ =~= (SessionV { pending: old(self)@.pending.remove(0), ..old(self)@ }));
        }
        Ok(Some(id))
    }

    /// Terminate the session, on transport error or explicit close.
    ///
    /// Every stream transitions to `Closed` and is destroyed, the pending
    /// queue is dropped, and every pending and future operation fails with
    /// `ConnectionClosed`.
    pub fn terminate(&mut self)
        requires
            session_wf(old(self)@),
        ensures
            session_wf(final(self)@),
            final(self)@ == terminated(old(self)@),
    {
        self.closed = true;
        self.streams.clear();
        self.pending.clear();
        proof {
            assert(self@.streams =~= Seq::<StreamV>::empty());
            assert(self@ =~= terminated(old(self)@));
        }
    }

    /// Write bytes on a stream: spend up to the available send credit.
    ///
    /// Returns how many of the leading bytes of `data` were taken, with
    /// the `Data` frame carrying them (and no frame when nothing was
    /// taken). Zero taken from non-empty `data` means the send credit is
    /// exhausted: the caller suspends until a window update or a close
    /// arrives. Writing after a local close, or on an id that is not
    /// live, fails with `StreamClosed`.
    pub fn write_stream(&mut self, id: u32, data: &Vec<u8>) -> (r: Result<
        (usize, Option<Frame>),
        SessionError,
    >)
        requires
            session_wf(old(self)@),
        ensures
            session_wf(final(self)@),
            old(self)@.closed ==> r == Err::<(usize, Option<Frame>), SessionError>(
                SessionError::ConnectionClosed,
            ) && final(self)@ == old(self)@,
            !old(self)@.closed && !has_stream(old(self)@, id) ==> r == Err::<
                (usize, Option<Frame>),
                SessionError,
            >(SessionError::StreamClosed) && final(self)@ == old(self)@,
            !old(self)@.closed && has_stream(old(self)@, id) && !can_send(
                old(self)@.streams[idx_of(old(self)@, id)].state,
            ) ==> r == Err::<(usize, Option<Frame>), SessionError>(SessionError::StreamClosed)
                && final(self)@ == old(self)@,
            !old(self)@.closed && has_stream(old(self)@, id) && can_send(
                old(self)@.streams[idx_of(old(self)@, id)].state,
            ) ==> {
                let i = idx_of(old(self)@, id);
                let credit = old(self)@.streams[i].send_credit;
                let n = if data@.len() <= credit {
                    data@.len() as int
                } else {
                    credit as int
                };
                &&& r matches Ok(p)
                &&& p.0 == n
                &&& n == 0 ==> p.1 is None && final(self)@ == old(self)@
                &&& n > 0 ==> {
                    &&& p.1 matches Some(f)
                    &&& f.ftype == FrameType::Data
                    &&& f.stream_id == id
                    &&& f.length == n
                    &&& f.payload@ == data@.take(n)
                    &&& final(self)@ == (SessionV {
                        streams: old(self)@.streams.update(i, with_sent(old(self)@.streams[i], n)),
                        ..old(self)@
                    })
                }
            },
    {
        if self.closed {
            return Err(SessionError::ConnectionClosed);
        }
        match self.find(id) {
            None => Err(SessionError::StreamClosed),
            Some(i) => {
                let ghost ov = old(self)@;
                let ghost ii = i as int;
                let state = self.streams[i].state;
                if !(state == StreamState::Open || state == StreamState::HalfClosedRemote) {
                    return Err(SessionError::StreamClosed);
                }
                let credit = self.streams[i].send_credit;
                let n: usize = if data.len() <= credit as usize {
                    data.len()
                } else {
                    credit as usize
                };
                if n == 0 {
                    return Ok((0, None));
                }
                let mut payload: Vec<u8> = Vec::new();
                let mut k: usize = 0;
                while k < n
                    invariant
                        k <= n,
                        n <= data@.len(),
                        payload@ == data@.take(k as int),
                    decreases n - k,
                {
                    payload.push(data[k]);
                    proof {
                        assert(payload@ =~= data@.take(k as int + 1));
                    }
                    k = k + 1;
                }
                let f = Frame::data_frame(id, payload);
                let mut s = self.streams.remove(i);
                s.send_credit = s.send_credit - (n as u32);
                self.streams.insert(i, s);
                proof {
                    lemma_remove_insert_is_update(ov.streams, ii, s@);
                    assert(self@.streams =~= ov.streams.remove(ii).insert(ii, s@));
                    assert(s@ =~= with_sent(ov.streams[ii], n as int));
                    lemma_wf_after_update(ov, ii, s@);
                    assert(self@ =~= (SessionV {
                        streams: ov.streams.update(ii, with_sent(ov.streams[ii], n as int)),
                        ..ov
                    }));
                }
                Ok((n, Some(f)))
            },
        }
    }

    /// Read a stream: drain whatever its receive buffer holds.
    ///
    /// Returns the drained bytes, an end-of-stream flag, and the
    /// `WindowUpdate` frame owed to the peer once the drained total
    /// crosses the midpoint of the advertised window. The flag is set
    /// exactly when the remote direction is closed and the buffer is
    /// drained. Empty bytes with the flag clear mean no data is available
    /// yet: the caller suspends until data or a close arrives. Reading an
    /// id that is not live fails with `StreamClosed`.
    pub fn read_stream(&mut self, id: u32) -> (r: Result<
        (Vec<u8>, bool, Option<Frame>),
        SessionError,
    >)
        requires
            session_wf(old(self)@),
        ensures
            session_wf(final(self)@),
            old(self)@.closed ==> r == Err::<(Vec<u8>, bool, Option<Frame>), SessionError>(
                SessionError::ConnectionClosed,
            ) && final(self)@ == old(self)@,
            !old(self)@.closed && !has_stream(old(self)@, id) ==> r == Err::<
                (Vec<u8>, bool, Option<Frame>),
                SessionError,
            >(SessionError::StreamClosed) && final(self)@ == old(self)@,
            !old(self)@.closed && has_stream(old(self)@, id) ==> {
                let i = idx_of(old(self)@, id);
                let s = old(self)@.streams[i];
                &&& r matches Ok(t)
                &&& t.0@ == s.recv
                &&& t.1 == (s.recv.len() == 0 && s.state == StreamState::HalfClosedRemote)
                &&& update_due(s) ==> {
                    &&& t.2 matches Some(f)
                    &&& f.ftype == FrameType::WindowUpdate
                    &&& f.stream_id == id
                    &&& f.length == s.consumed + s.recv.len()
                    &&& f.payload@.len() == 0
                }
                &&& !update_due(s) ==> t.2 is None
                &&& final(self)@ == (SessionV {
                    streams: old(self)@.streams.update(i, with_drained(s, update_due(s))),
                    ..old(self)@
                })
            },
    {
        if self.closed {
            return Err(SessionError::ConnectionClosed);
        }
        match self.find(id) {
            None => Err(SessionError::StreamClosed),
            Some(i) => {
                let ghost ov = old(self)@;
                let ghost ii = i as int;
                proof {
                    assert(stream_wf(ov.streams[ii]));
                }
                let mut s = self.streams.remove(i);
                let eof = s.recv_buf.len() == 0 && s.state == StreamState::HalfClosedRemote;
                let mut out: Vec<u8> = Vec::new();
                core::mem::swap(&mut out, &mut s.recv_buf);
                let total: u32 = s.consumed + (out.len() as u32);
                let upd: Option<Frame> = if total > 0 && total >= s.window / 2 {
                    s.consumed = 0;
                    Some(Frame::window_update_frame(id, total))
                } else {
                    s.consumed = total;
                    None
                };
                self.streams.insert(i, s);
                proof {
                    lemma_remove_insert_is_update(ov.streams, ii, s@);
                    assert(self@.streams =~= ov.streams.remove(ii).insert(ii, s@));
                    assert(s@ =~= with_drained(ov.streams[ii], update_due(ov.streams[ii])));
                    lemma_wf_after_update(ov, ii, s@);
                    assert(self@ =~= (SessionV {
                        streams: ov.streams.update(
                            ii,
                            with_drained(ov.streams[ii], update_due(ov.streams[ii])),
                        ),
                        ..ov
                    }));
                }
                Ok((out, eof, upd))
            },
        }
    }

    /// Close the local direction of a stream; idempotent.
    ///
    /// Returns the `Close` frame to send when this call actually closed
    /// the direction; a repeated close, or a close of an id that is not
    /// live, changes nothing and returns no frame. Once both directions
    /// are closed the stream is destroyed.
    pub fn close_stream(&mut self, id: u32) -> (r: Result<Option<Frame>, SessionError>)
        requires
            session_wf(old(self)@),
        ensures
            session_wf(final(self)@),
            old(self)@.closed ==> r == Err::<Option<Frame>, SessionError>(
                SessionError::ConnectionClosed,
            ) && final(self)@ == old(self)@,
            !old(self)@.closed ==> {
                &&& final(self)@ == local_close_op(old(self)@, id)
                &&& if has_stream(old(self)@, id) && old(self)@.streams[idx_of(
                    old(self)@,
                    id,
                )].state != StreamState::HalfClosedLocal {
                    &&& r matches Ok(o)
                    &&& o matches Some(f)
                    &&& f.ftype == FrameType::Close
                    &&& f.stream_id == id
                    &&& f.length == 0
                    &&& f.payload@.len() == 0
                } else {
                    r == Ok::<Option<Frame>, SessionError>(None)
                }
            },
    {
        if self.closed {
            return Err(SessionError::ConnectionClosed);
        }
        match self.find(id) {
            None => Ok(None),
            Some(i) => {
                let ghost ov = old(self)@;
                let ghost ii = i as int;
                let st = self.streams[i].state;
                if st == StreamState::HalfClosedLocal {
                    return Ok(None);
                }
                let new_state = crate::stream::local_close_step(st);
                if new_state == StreamState::Closed {
                    self.streams.remove(i);
                    proof {
                        lemma_wf_after_remove(ov, ii);
                        assert(self@.streams =~= ov.streams.remove(ii));
                        assert(self@ =~= (SessionV { streams: ov.streams.remove(ii), ..ov }));
                    }
                } else {
                    let mut s = self.streams.remove(i);
                    s.state = new_state;
                    self.streams.insert(i, s);
                    proof {
                        lemma_remove_insert_is_update(ov.streams, ii, s@);
                        assert(self@.streams =~= ov.streams.remove(ii).insert(ii, s@));
                        assert(s@ =~= with_local_closed(ov.streams[ii]));
                        lemma_wf_after_update(ov, ii, s@);
                        assert(self@ =~= (SessionV {
                            streams: ov.streams.update(ii, with_local_closed(ov.streams[ii])),
                            ..ov
                        }));
                    }
                }
                Ok(Some(Frame::close_frame(id)))
            },
        }
    }
}

/// Window accounting invariant: in a well-formed session the bytes
/// buffered for any live stream never exceed its advertised credit. Every
/// session operation preserves well-formedness, so this bound holds in
/// every reachable session state.
pub proof fn lemma_buffered_within_window(v: SessionV, i: int)
    requires
        session_wf(v),
        0 <= i < v.streams.len(),
    ensures
        v.streams[i].recv.len() <= v.streams[i].window,
{
    assert(stream_wf(v.streams[i]));
}

/// Closing both directions of a live stream destroys it exactly once,
/// regardless of order: starting from an `Open` stream, the
/// local-then-remote and the remote-then-local close orders end in the
/// same session value, with the stream destroyed; a single close leaves
/// it alive; and once it is destroyed, a further close of either
/// direction changes nothing.
pub proof fn lemma_close_order_irrelevant(v: SessionV, id: u32)
    requires
        session_wf(v),
        has_stream(v, id),
        v.streams[idx_of(v, id)].state == StreamState::Open,
    ensures
        remote_close_op(local_close_op(v, id), id) == local_close_op(remote_close_op(v, id), id),
        remote_close_op(local_close_op(v, id), id) == (SessionV {
            streams: v.streams.remove(idx_of(v, id)),
            ..v
        }),
        has_stream(local_close_op(v, id), id),
        has_stream(remote_close_op(v, id), id),
        !has_stream(remote_close_op(local_close_op(v, id), id), id),
        local_close_op(remote_close_op(local_close_op(v, id), id), id) == remote_close_op(
            local_close_op(v, id),
            id,
        ),
        remote_close_op(remote_close_op(local_close_op(v, id), id), id) == remote_close_op(
            local_close_op(v, id),
            id,
        ),
{
    let i = idx_of(v, id);
    let gone = SessionV { streams: v.streams.remove(i), ..v };

    // local close first: the stream is kept, half closed
    let w1 = local_close_op(v, id);
    assert(w1.streams == v.streams.update(i, with_local_closed(v.streams[i])));
    lemma_wf_after_update(v, i, with_local_closed(v.streams[i]));
    lemma_idx_unique(w1, id, i);
    // the remote close then destroys it
    let z1 = remote_close_op(w1, id);
    assert(after_remote_close(w1.streams[i].state) == StreamState::Closed);
    assert(w1.streams.remove(i) =~= v.streams.remove(i));
    assert(z1 =~= gone);

    // remote close first: the stream is kept, half closed
    let w2 = remote_close_op(v, id);
    assert(w2.streams == v.streams.update(i, with_remote_closed(v.streams[i])));
    lemma_wf_after_update(v, i, with_remote_closed(v.streams[i]));
    lemma_idx_unique(w2, id, i);
    // the local close then destroys it
    let z2 = local_close_op(w2, id);
    assert(after_local_close(w2.streams[i].state) == StreamState::Closed);
    assert(w2.streams.remove(i) =~= v.streams.remove(i));
    assert(z2 =~= gone);

    // the destroyed stream's id is gone: ids were pairwise distinct
    assert forall|j: int| 0 <= j < gone.streams.len() implies (#[trigger] gone.streams[j].id)
        != id by {
        if j < i {
            assert(gone.streams[j] == v.streams[j]);
            assert(v.streams[j].id != v.streams[i].id);
        } else {
            assert(gone.streams[j] == v.streams[j + 1]);
            assert(v.streams[i].id != v.streams[j + 1].id);
        }
    }
    assert(!has_stream(z1, id));
}

/// Removing an element and inserting a replacement at the same position is
/// a point update of the sequence.
proof fn lemma_remove_insert_is_update<A>(s: Seq<A>, i: int, x: A)
    requires
        0 <= i < s.len(),
    ensures
        s.remove(i).insert(i, x) =~= s.update(i, x),
{
    let lhs = s.remove(i).insert(i, x);
    let rhs = s.update(i, x);
    assert(lhs.len() == rhs.len());
    assert forall|j: int| 0 <= j < rhs.len() implies lhs[j] == rhs[j] by {
        if j < i {
            assert(s.remove(i)[j] == s[j]);
        } else if j > i {
            assert(s.remove(i)[j - 1] == s[j]);
        }
    }
}

/// The session value after termination: every stream is destroyed, the
/// pending queue is dropped, and the closed flag is set.
pub open spec fn terminated(v: SessionV) -> SessionV {
    SessionV {
        mode: v.mode,
        next_id: v.next_id,
        streams: Seq::<StreamV>::empty(),
        pending: Seq::<u32>::empty(),
        closed: true,
    }
}

/// The stream value at index `i` with `bytes` appended to its receive
/// buffer.
pub open spec fn with_received(s: StreamV, bytes: Seq<u8>) -> StreamV {
    StreamV { recv: s.recv + bytes, ..s }
}

/// The stream value at index `i` with `delta` more send credit.
pub open spec fn with_credit(s: StreamV, delta: u32) -> StreamV {
    StreamV { send_credit: (s.send_credit + delta) as u32, ..s }
}

/// The stream value after the remote side closed its direction.
pub open spec fn with_remote_closed(s: StreamV) -> StreamV {
    StreamV { state: after_remote_close(s.state), ..s }
}

/// The stream value after the local side closed its direction.
pub open spec fn with_local_closed(s: StreamV) -> StreamV {
    StreamV { state: after_local_close(s.state), ..s }
}

/// The stream value after its receive buffer was drained: `emitted` tells
/// whether the drained total was re-advertised in a window update.
pub open spec fn with_drained(s: StreamV, emitted: bool) -> StreamV {
    StreamV {
        recv: Seq::<u8>::empty(),
        consumed: if emitted {
            0u32
        } else {
            (s.consumed + s.recv.len()) as u32
        },
        ..s
    }
}

/// The stream value after `n` bytes of send credit were spent.
pub open spec fn with_sent(s: StreamV, n: int) -> StreamV {
    StreamV { send_credit: (s.send_credit - n) as u32, ..s }
}

/// The session value after the local side closes its direction of the
/// stream carrying `id`, exactly as `close_stream` leaves it: no live
/// stream or one already locally closed means no change; a stream whose
/// other direction was already closed is destroyed; otherwise the stream
/// is kept, half closed.
pub open spec fn local_close_op(v: SessionV, id: u32) -> SessionV {
    if !has_stream(v, id) {
        v
    } else {
        let i = idx_of(v, id);
        let st = v.streams[i].state;
        if st == StreamState::HalfClosedLocal {
            v
        } else if after_local_close(st) == StreamState::Closed {
            SessionV { streams: v.streams.remove(i), ..v }
        } else {
            SessionV { streams: v.streams.update(i, with_local_closed(v.streams[i])), ..v }
        }
    }
}

/// The session value after a `Close` frame for `id` is dispatched: no
/// live stream means no change (already-closed tolerance); a stream whose
/// local direction was already closed is destroyed; otherwise the stream
/// is kept, half closed.
pub open spec fn remote_close_op(v: SessionV, id: u32) -> SessionV {
    if !has_stream(v, id) {
        v
    } else {
        let i = idx_of(v, id);
        if after_remote_close(v.streams[i].state) == StreamState::Closed {
            SessionV { streams: v.streams.remove(i), ..v }
        } else {
            SessionV { streams: v.streams.update(i, with_remote_closed(v.streams[i])), ..v }
        }
    }
}

/// A window update is owed once the bytes drained since the last update
/// reach the midpoint of the advertised window; the threshold avoids an
/// update per read while bounding how stale the peer's view can grow.
pub open spec fn update_due(s: StreamV) -> bool {
    let total = s.consumed + s.recv.len();
    total > 0 && total >= s.window / 2
}

/// Removing one stream from a well-formed session leaves it well-formed.
proof fn lemma_wf_after_remove(v: SessionV, i: int)
    requires
        session_wf(v),
        0 <= i < v.streams.len(),
    ensures
        session_wf((SessionV { streams: v.streams.remove(i), ..v })),
{
    let w = SessionV { streams: v.streams.remove(i), ..v };
    assert forall|a: int| 0 <= a < w.streams.len() implies #[trigger] w.streams[a] == (if a < i {
        v.streams[a]
    } else {
        v.streams[a + 1]
    }) by {}
}

/// Replacing one stream of a well-formed session with a live well-formed
/// stream of the same id leaves the session well-formed.
proof fn lemma_wf_after_update(v: SessionV, i: int, s: StreamV)
    requires
        session_wf(v),
        0 <= i < v.streams.len(),
        s.id == v.streams[i].id,
        s.state != StreamState::Closed,
        stream_wf(s),
    ensures
        session_wf((SessionV { streams: v.streams.update(i, s), ..v })),
{
}

/// Adding a fresh peer-parity stream to a well-formed session leaves it
/// well-formed.
proof fn lemma_wf_after_open(v: SessionV, id: u32, s: StreamV)
    requires
        session_wf(v),
        id % 2 != local_parity(v.mode),
        !has_stream(v, id),
        s.id == id,
        s.state != StreamState::Closed,
        stream_wf(s),
    ensures
        session_wf((SessionV { streams: v.streams.push(s), ..v })),
{
    assert forall|i: int| 0 <= i < v.streams.len() implies (#[trigger] v.streams[i].id)
        != id by {}
}

/// Under `session_wf` a live id names exactly one stream, so `idx_of`
/// returns the index it was seen at.
proof fn lemma_idx_unique(v: SessionV, id: u32, i: int)
    requires
        session_wf(v),
        0 <= i < v.streams.len(),
        v.streams[i].id == id,
    ensures
        has_stream(v, id),
        idx_of(v, id) == i,
{
    assert(has_stream(v, id));
    let j = idx_of(v, id);
    if j < i {
        assert(v.streams[j].id != v.streams[i].id);
    } else if i < j {
        assert(v.streams[i].id != v.streams[j].id);
    }
}

/// Allocated ids are unique within the session: in a well-formed session
/// the id the next allocation returns has the mode's parity and collides
/// with no live stream's id.
pub proof fn lemma_alloc_fresh_and_parity(v: SessionV)
    requires
        session_wf(v),
    ensures
        v.next_id % 2 == local_parity(v.mode),
        !has_stream(v, v.next_id),
{
    assert forall|i: int| 0 <= i < v.streams.len() implies (#[trigger] v.streams[i].id)
        != v.next_id by {
        if v.streams[i].id % 2 == local_parity(v.mode) {
        }
    }
}

/// The id the n-th successful allocation returns, counting from zero:
/// allocations start at the mode's first id and step by two.
pub open spec fn nth_allocated_id(mode: SessionMode, n: nat) -> int {
    first_id(mode) + 2 * n
}

/// Over any sequence of successful `open_outbound` calls the allocated ids
/// are pairwise distinct and all follow the mode's odd/even parity rule.
pub proof fn lemma_allocation_sequence(mode: SessionMode, a: nat, b: nat)
    ensures
        nth_allocated_id(mode, a) % 2 == local_parity(mode),
        a != b ==> nth_allocated_id(mode, a) != nth_allocated_id(mode, b),
{
    assert(nth_allocated_id(mode, a) % 2 == local_parity(mode)) by (nonlinear_arith)
        requires
            nth_allocated_id(mode, a) == first_id(mode) + 2 * a,
            first_id(mode) % 2 == local_parity(mode),
            local_parity(mode) == 0 || local_parity(mode) == 1,
    ;
}

} // verus!
