use mux_session::Frame;
use mux_session::FrameType;
use mux_session::Session;
use mux_session::SessionError;
use mux_session::SessionMode;
use mux_session::StreamState;
use mux_session::session::INITIAL_WINDOW;

#[test]
fn outbound_ids_are_odd_for_initiator() {
    let mut s = Session::new(SessionMode::Initiator);
    let mut seen = Vec::new();
    for _ in 0..5 {
        let (id, f) = s.open_outbound().unwrap();
        assert_eq!(id % 2, 1);
        assert_eq!(f.ftype, FrameType::Open);
        assert_eq!(f.stream_id, id);
        assert!(!seen.contains(&id));
        seen.push(id);
    }
    assert_eq!(seen, vec![1, 3, 5, 7, 9]);
}

#[test]
fn outbound_ids_are_even_for_responder() {
    let mut s = Session::new(SessionMode::Responder);
    let mut seen = Vec::new();
    for _ in 0..5 {
        let (id, _) = s.open_outbound().unwrap();
        assert_eq!(id % 2, 0);
        assert!(!seen.contains(&id));
        seen.push(id);
    }
    assert_eq!(seen, vec![2, 4, 6, 8, 10]);
}

#[test]
fn id_space_saturation_is_resource_exhausted() {
    let mut s = Session::new(SessionMode::Initiator);
    s.next_id = 0xffff_ffff;
    assert_eq!(s.open_outbound().unwrap_err(), SessionError::ResourceExhausted);
    // the session itself stays usable
    assert_eq!(s.accept_inbound().unwrap(), None);
}

#[test]
fn inbound_stream_is_queued_until_accepted() {
    let mut s = Session::new(SessionMode::Initiator);
    // the peer (a responder) opens stream 2; nothing accepts it yet
    s.dispatch_frame(&Frame::open_frame(2)).unwrap();
    // data for the queued stream arrives before any accept call
    s.dispatch_frame(&Frame::data_frame(2, b"kept".to_vec())).unwrap();
    // the stream was queued, not lost
    let id = s.accept_inbound().unwrap().unwrap();
    assert_eq!(id, 2);
    let (data, eof, _) = s.read_stream(id).unwrap();
    assert_eq!(data, b"kept".to_vec());
    assert!(!eof);
    // nothing else is pending
    assert_eq!(s.accept_inbound().unwrap(), None);
}

#[test]
fn inbound_streams_are_accepted_in_arrival_order() {
    let mut s = Session::new(SessionMode::Initiator);
    s.dispatch_frame(&Frame::open_frame(2)).unwrap();
    s.dispatch_frame(&Frame::open_frame(4)).unwrap();
    assert_eq!(s.accept_inbound().unwrap(), Some(2));
    assert_eq!(s.accept_inbound().unwrap(), Some(4));
    assert_eq!(s.accept_inbound().unwrap(), None);
}

#[test]
fn abrupt_termination_fails_everything_with_connection_closed() {
    let mut s = Session::new(SessionMode::Initiator);
    let (id, _) = s.open_outbound().unwrap();
    s.dispatch_frame(&Frame::open_frame(2)).unwrap();
    // the transport goes away
    s.terminate();
    assert_eq!(s.open_outbound().unwrap_err(), SessionError::ConnectionClosed);
    assert_eq!(s.accept_inbound().unwrap_err(), SessionError::ConnectionClosed);
    assert_eq!(s.read_stream(id).unwrap_err(), SessionError::ConnectionClosed);
    assert_eq!(
        s.write_stream(id, &b"x".to_vec()).unwrap_err(),
        SessionError::ConnectionClosed
    );
    assert_eq!(s.close_stream(id).unwrap_err(), SessionError::ConnectionClosed);
    assert_eq!(
        s.dispatch_frame(&Frame::close_frame(2)).unwrap_err(),
        SessionError::ConnectionClosed
    );
}

#[test]
fn data_for_unknown_stream_is_fatal() {
    let mut s = Session::new(SessionMode::Initiator);
    let r = s.dispatch_frame(&Frame::data_frame(9, b"?".to_vec()));
    assert_eq!(r.unwrap_err(), SessionError::ProtocolError);
    // a protocol error terminates the session
    assert_eq!(s.open_outbound().unwrap_err(), SessionError::ConnectionClosed);
}

#[test]
fn open_with_local_parity_is_fatal() {
    let mut s = Session::new(SessionMode::Initiator);
    // an initiator's peer must use even ids
    let r = s.dispatch_frame(&Frame::open_frame(3));
    assert_eq!(r.unwrap_err(), SessionError::ProtocolError);
}

#[test]
fn reopening_a_live_stream_is_fatal() {
    let mut s = Session::new(SessionMode::Initiator);
    s.dispatch_frame(&Frame::open_frame(2)).unwrap();
    let r = s.dispatch_frame(&Frame::open_frame(2));
    assert_eq!(r.unwrap_err(), SessionError::ProtocolError);
}

#[test]
fn data_past_the_advertised_window_is_refused() {
    let mut s = Session::new(SessionMode::Initiator);
    let (id, _) = s.open_outbound().unwrap();
    let fill = vec![0u8; INITIAL_WINDOW as usize];
    s.dispatch_frame(&Frame::data_frame(id, fill)).unwrap();
    // one more byte than advertised: refused, and fatal
    let r = s.dispatch_frame(&Frame::data_frame(id, b"!".to_vec()));
    assert_eq!(r.unwrap_err(), SessionError::ProtocolError);
}

#[test]
fn close_and_window_update_for_dead_streams_are_ignored() {
    let mut s = Session::new(SessionMode::Initiator);
    assert_eq!(s.dispatch_frame(&Frame::close_frame(2)), Ok(()));
    assert_eq!(s.dispatch_frame(&Frame::window_update_frame(2, 100)), Ok(()));
    assert_eq!(s.dispatch_frame(&Frame::reset_frame(2)), Ok(()));
    // the session is still healthy
    assert!(s.open_outbound().is_ok());
}

#[test]
fn write_is_bounded_by_send_credit() {
    let mut s = Session::new(SessionMode::Initiator);
    let (id, _) = s.open_outbound().unwrap();
    s.streams[0].send_credit = 5;
    let (n, f) = s.write_stream(id, &b"0123456789".to_vec()).unwrap();
    assert_eq!(n, 5);
    let f = f.unwrap();
    assert_eq!(f.ftype, FrameType::Data);
    assert_eq!(f.payload, b"01234".to_vec());
    // credit exhausted: the writer would now suspend
    let (n, f) = s.write_stream(id, &b"56789".to_vec()).unwrap();
    assert_eq!(n, 0);
    assert!(f.is_none());
    // a window update from the peer resumes it
    s.dispatch_frame(&Frame::window_update_frame(id, 5)).unwrap();
    let (n, f) = s.write_stream(id, &b"56789".to_vec()).unwrap();
    assert_eq!(n, 5);
    assert_eq!(f.unwrap().payload, b"56789".to_vec());
}

#[test]
fn empty_write_takes_nothing_and_sends_nothing() {
    let mut s = Session::new(SessionMode::Initiator);
    let (id, _) = s.open_outbound().unwrap();
    let (n, f) = s.write_stream(id, &Vec::new()).unwrap();
    assert_eq!(n, 0);
    assert!(f.is_none());
}

#[test]
fn empty_data_frame_is_accepted_and_buffers_nothing() {
    let mut s = Session::new(SessionMode::Initiator);
    let (id, _) = s.open_outbound().unwrap();
    s.dispatch_frame(&Frame::data_frame(id, Vec::new())).unwrap();
    let (data, eof, upd) = s.read_stream(id).unwrap();
    assert!(data.is_empty());
    assert!(!eof);
    assert!(upd.is_none());
}

#[test]
fn credit_overflow_from_window_update_is_fatal() {
    let mut s = Session::new(SessionMode::Initiator);
    let (id, _) = s.open_outbound().unwrap();
    s.streams[0].send_credit = 0xffff_ffff;
    let r = s.dispatch_frame(&Frame::window_update_frame(id, 1));
    assert_eq!(r.unwrap_err(), SessionError::ProtocolError);
}

#[test]
fn write_after_local_close_is_stream_closed() {
    let mut s = Session::new(SessionMode::Initiator);
    let (id, _) = s.open_outbound().unwrap();
    let f = s.close_stream(id).unwrap();
    assert_eq!(f.unwrap().ftype, FrameType::Close);
    assert_eq!(
        s.write_stream(id, &b"x".to_vec()).unwrap_err(),
        SessionError::StreamClosed
    );
    // reading the half-closed stream still works: nothing buffered, no eof
    let (data, eof, _) = s.read_stream(id).unwrap();
    assert!(data.is_empty());
    assert!(!eof);
}

#[test]
fn local_close_is_idempotent() {
    let mut s = Session::new(SessionMode::Initiator);
    let (id, _) = s.open_outbound().unwrap();
    assert!(s.close_stream(id).unwrap().is_some());
    assert!(s.close_stream(id).unwrap().is_none());
    assert_eq!(s.streams[0].state, StreamState::HalfClosedLocal);
}

#[test]
fn closing_both_directions_destroys_the_stream_local_first() {
    let mut s = Session::new(SessionMode::Initiator);
    let (id, _) = s.open_outbound().unwrap();
    s.close_stream(id).unwrap();
    assert_eq!(s.streams.len(), 1);
    s.dispatch_frame(&Frame::close_frame(id)).unwrap();
    // both sides closed: the stream is gone
    assert_eq!(s.streams.len(), 0);
    assert_eq!(s.read_stream(id).unwrap_err(), SessionError::StreamClosed);
    // and a repeated close is tolerated
    assert!(s.close_stream(id).unwrap().is_none());
}

#[test]
fn closing_both_directions_destroys_the_stream_remote_first() {
    let mut s = Session::new(SessionMode::Initiator);
    let (id, _) = s.open_outbound().unwrap();
    s.dispatch_frame(&Frame::close_frame(id)).unwrap();
    assert_eq!(s.streams[0].state, StreamState::HalfClosedRemote);
    s.close_stream(id).unwrap();
    assert_eq!(s.streams.len(), 0);
    assert_eq!(s.write_stream(id, &b"x".to_vec()).unwrap_err(), SessionError::StreamClosed);
}

#[test]
fn reset_destroys_the_stream_at_once() {
    let mut s = Session::new(SessionMode::Initiator);
    let (id, _) = s.open_outbound().unwrap();
    s.dispatch_frame(&Frame::reset_frame(id)).unwrap();
    assert_eq!(s.streams.len(), 0);
    assert_eq!(s.read_stream(id).unwrap_err(), SessionError::StreamClosed);
}

#[test]
fn read_returns_eof_after_remote_close_once_drained() {
    let mut s = Session::new(SessionMode::Initiator);
    let (id, _) = s.open_outbound().unwrap();
    s.dispatch_frame(&Frame::data_frame(id, b"tail".to_vec())).unwrap();
    s.dispatch_frame(&Frame::close_frame(id)).unwrap();
    let (data, eof, _) = s.read_stream(id).unwrap();
    assert_eq!(data, b"tail".to_vec());
    assert!(!eof);
    let (data, eof, _) = s.read_stream(id).unwrap();
    assert!(data.is_empty());
    assert!(eof);
}

#[test]
fn window_update_is_emitted_at_the_midpoint() {
    let mut s = Session::new(SessionMode::Initiator);
    let (id, _) = s.open_outbound().unwrap();
    // a small read leaves the update owed for later
    s.dispatch_frame(&Frame::data_frame(id, vec![1u8; 10])).unwrap();
    let (_, _, upd) = s.read_stream(id).unwrap();
    assert!(upd.is_none());
    // crossing the midpoint of the advertised window emits one update
    let half = (INITIAL_WINDOW / 2) as usize;
    s.dispatch_frame(&Frame::data_frame(id, vec![2u8; half])).unwrap();
    let (data, _, upd) = s.read_stream(id).unwrap();
    assert_eq!(data.len(), half);
    let upd = upd.unwrap();
    assert_eq!(upd.ftype, FrameType::WindowUpdate);
    assert_eq!(upd.stream_id, id);
    // the update re-advertises everything drained since the last one
    assert_eq!(upd.length, half as u32 + 10);
}
