use mux_session::Frame;
use mux_session::Session;
use mux_session::SessionMode;

/// Carry a frame across the wire: encode on one side, decode on the other.
fn over_the_wire(f: &Frame) -> Frame {
    let bytes = f.encode();
    Frame::decode(&bytes).unwrap()
}

#[test]
fn client_line_is_echoed_back_exactly() {
    let mut client = Session::new(SessionMode::Initiator);
    let mut server = Session::new(SessionMode::Responder);

    // the client opens one outbound stream
    let (id, open_f) = client.open_outbound().unwrap();
    server.dispatch_frame(&over_the_wire(&open_f)).unwrap();
    let sid = server.accept_inbound().unwrap().unwrap();
    assert_eq!(sid, id);

    // the client writes one line
    let line = "Hello, this is Tyr!".as_bytes().to_vec();
    let (n, data_f) = client.write_stream(id, &line).unwrap();
    assert_eq!(n, line.len());
    server.dispatch_frame(&over_the_wire(&data_f.unwrap())).unwrap();

    // the peer reads it and echoes it back
    let (received, eof, _) = server.read_stream(sid).unwrap();
    assert!(!eof);
    assert_eq!(received, line);
    let (m, echo_f) = server.write_stream(sid, &received).unwrap();
    assert_eq!(m, received.len());
    client.dispatch_frame(&over_the_wire(&echo_f.unwrap())).unwrap();

    // the client's read side receives exactly that line
    let (echoed, eof, _) = client.read_stream(id).unwrap();
    assert!(!eof);
    assert_eq!(String::from_utf8(echoed).unwrap(), "Hello, this is Tyr!");
}
