use mux_session::Frame;
use mux_session::FrameType;
use mux_session::SessionError;

fn round_trip(f: Frame) -> Frame {
    let bytes = f.encode();
    Frame::decode(&bytes).unwrap()
}

#[test]
fn encode_data_frame_exact_bytes() {
    let f = Frame::data_frame(0x0102_0304, vec![0xaa, 0xbb]);
    assert_eq!(
        f.encode(),
        vec![1u8, 0x01, 0x02, 0x03, 0x04, 0x00, 0x00, 0x00, 0x02, 0xaa, 0xbb]
    );
}

#[test]
fn encode_window_update_exact_bytes() {
    let f = Frame::window_update_frame(7, 0x0001_0000);
    assert_eq!(f.encode(), vec![2u8, 0, 0, 0, 7, 0x00, 0x01, 0x00, 0x00]);
}

#[test]
fn round_trip_every_frame_kind() {
    let f = round_trip(Frame::open_frame(9));
    assert_eq!(f.ftype, FrameType::Open);
    assert_eq!(f.stream_id, 9);

    let f = round_trip(Frame::data_frame(5, b"payload".to_vec()));
    assert_eq!(f.ftype, FrameType::Data);
    assert_eq!(f.stream_id, 5);
    assert_eq!(f.length, 7);
    assert_eq!(f.payload, b"payload".to_vec());

    let f = round_trip(Frame::window_update_frame(5, 4096));
    assert_eq!(f.ftype, FrameType::WindowUpdate);
    assert_eq!(f.length, 4096);

    let f = round_trip(Frame::close_frame(0xffff_ffff));
    assert_eq!(f.ftype, FrameType::Close);
    assert_eq!(f.stream_id, 0xffff_ffff);

    let f = round_trip(Frame::reset_frame(3));
    assert_eq!(f.ftype, FrameType::Reset);
    assert_eq!(f.stream_id, 3);
}

#[test]
fn decode_rejects_short_input() {
    let r = Frame::decode(&vec![1u8, 0, 0, 0, 1, 0, 0, 0]);
    assert_eq!(r.unwrap_err(), SessionError::ProtocolError);
}

#[test]
fn decode_rejects_unknown_tag() {
    let r = Frame::decode(&vec![5u8, 0, 0, 0, 1, 0, 0, 0, 0]);
    assert_eq!(r.unwrap_err(), SessionError::ProtocolError);
}

#[test]
fn decode_rejects_length_payload_mismatch() {
    // a data frame announcing two bytes but carrying one
    let r = Frame::decode(&vec![1u8, 0, 0, 0, 1, 0, 0, 0, 2, 0xaa]);
    assert_eq!(r.unwrap_err(), SessionError::ProtocolError);
}

#[test]
fn decode_rejects_payload_on_open() {
    let r = Frame::decode(&vec![0u8, 0, 0, 0, 2, 0, 0, 0, 1, 0xaa]);
    assert_eq!(r.unwrap_err(), SessionError::ProtocolError);
}

#[test]
fn decode_rejects_nonzero_length_on_close() {
    let r = Frame::decode(&vec![3u8, 0, 0, 0, 2, 0, 0, 0, 1]);
    assert_eq!(r.unwrap_err(), SessionError::ProtocolError);
}
