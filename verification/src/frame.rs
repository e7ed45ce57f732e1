//! Multiplexing frames: the values a session exchanges with its transport.

use vstd::prelude::*;

use crate::SessionError;

verus! {

/// The kind of a multiplexing frame.
#[derive(Clone, Copy, Debug, PartialEq, Eq, Structural)]
pub enum FrameType {
    Open,
    Data,
    WindowUpdate,
    Close,
    Reset,
}

/// One multiplexing frame.
///
/// On the wire a frame is `type: u8, stream_id: u32, length: u32, payload`.
/// Only `Data` frames carry a payload, and for them `length` is the payload
/// size. A `WindowUpdate` carries its credit delta in `length` and has no
/// payload. `Open`, `Close` and `Reset` use neither field.
#[derive(Debug)]
pub struct Frame {
    pub ftype: FrameType,
    pub stream_id: u32,
    pub length: u32,
    pub payload: Vec<u8>,
}

/// The mathematical value of a frame.
#[verifier::ext_equal]
pub ghost struct FrameV {
    pub ftype: FrameType,
    pub stream_id: u32,
    pub length: u32,
    pub payload: Seq<u8>,
}

impl View for Frame {
    type V = FrameV;

    open spec fn view(&self) -> FrameV {
        FrameV {
            ftype: self.ftype,
            stream_id: self.stream_id,
            length: self.length,
            payload: self.payload@,
        }
    }
}

/// A frame value whose `length` field agrees with its kind and payload.
pub open spec fn frame_wf(v: FrameV) -> bool {
    &&& v.ftype == FrameType::Data ==> v.length == v.payload.len()
    &&& v.ftype != FrameType::Data ==> v.payload.len() == 0
    &&& (v.ftype == FrameType::Open || v.ftype == FrameType::Close || v.ftype == FrameType::Reset)
        ==> v.length == 0
}

/// The byte tag of each frame kind on the wire.
pub open spec fn type_tag(t: FrameType) -> u8 {
    match t {
        FrameType::Open => 0u8,
        FrameType::Data => 1u8,
        FrameType::WindowUpdate => 2u8,
        FrameType::Close => 3u8,
        FrameType::Reset => 4u8,
    }
}

/// The big-endian bytes of a 32-bit value.
pub open spec fn be_bytes(x: u32) -> Seq<u8> {
    seq![(x >> 24) as u8, (x >> 16) as u8, (x >> 8) as u8, x as u8]
}

/// The 32-bit value read back from four big-endian bytes.
pub open spec fn be_value(b0: u8, b1: u8, b2: u8, b3: u8) -> u32 {
    ((b0 as u32) << 24) | ((b1 as u32) << 16) | ((b2 as u32) << 8) | (b3 as u32)
}

/// The wire encoding of a frame: a nine-byte header — type tag, stream id
/// and length, the integers big-endian — followed by the payload.
pub open spec fn encoding(v: FrameV) -> Seq<u8> {
    seq![type_tag(v.ftype)] + be_bytes(v.stream_id) + be_bytes(v.length) + v.payload
}

/// The frame value, if any, that a byte sequence is the encoding of.
/// Exactly the encodings of well-formed frames parse.
pub open spec fn decode_spec(s: Seq<u8>) -> Option<FrameV> {
    if s.len() < 9 {
        None
    } else {
        let sid = be_value(s[1], s[2], s[3], s[4]);
        let len = be_value(s[5], s[6], s[7], s[8]);
        if s[0] == 1u8 {
            if s.len() == 9 + len {
                Some(
                    FrameV {
                        ftype: FrameType::Data,
                        stream_id: sid,
                        length: len,
                        payload: s.subrange(9, s.len() as int),
                    },
                )
            } else {
                None
            }
        } else if s.len() != 9 {
            None
        } else if s[0] == 2u8 {
            Some(
                FrameV {
                    ftype: FrameType::WindowUpdate,
                    stream_id: sid,
                    length: len,
                    payload: Seq::<u8>::empty(),
                },
            )
        } else if len != 0 {
            None
        } else if s[0] == 0u8 {
            Some(
                FrameV {
                    ftype: FrameType::Open,
                    stream_id: sid,
                    length: 0,
                    payload: Seq::<u8>::empty(),
                },
            )
        } else if s[0] == 3u8 {
            Some(
                FrameV {
                    ftype: FrameType::Close,
                    stream_id: sid,
                    length: 0,
                    payload: Seq::<u8>::empty(),
                },
            )
        } else if s[0] == 4u8 {
            Some(
                FrameV {
                    ftype: FrameType::Reset,
                    stream_id: sid,
                    length: 0,
                    payload: Seq::<u8>::empty(),
                },
            )
        } else {
            None
        }
    }
}

/// Reading back the big-endian bytes of a value gives the value.
proof fn lemma_be_round_trip(x: u32)
    ensures
        be_value((x >> 24) as u8, (x >> 16) as u8, (x >> 8) as u8, x as u8) == x,
{
    assert((((x >> 24) as u8 as u32) << 24) | (((x >> 16) as u8 as u32) << 16) | (((x >> 8) as u8
        as u32) << 8) | ((x as u8) as u32) == x) by (bit_vector);
}

/// Encoding and then parsing a well-formed frame value gives it back.
pub proof fn lemma_decode_of_encoding(v: FrameV)
    requires
        frame_wf(v),
    ensures
        decode_spec(encoding(v)) == Some(v),
{
    let s = encoding(v);
    assert(s.len() == 9 + v.payload.len());
    assert(s[0] == type_tag(v.ftype));
    assert(s[1] == (v.stream_id >> 24) as u8 && s[2] == (v.stream_id >> 16) as u8 && s[3] == (
    v.stream_id >> 8) as u8 && s[4] == v.stream_id as u8);
    assert(s[5] == (v.length >> 24) as u8 && s[6] == (v.length >> 16) as u8 && s[7] == (v.length
        >> 8) as u8 && s[8] == v.length as u8);
    lemma_be_round_trip(v.stream_id);
    lemma_be_round_trip(v.length);
    if v.ftype == FrameType::Data {
        assert(s.subrange(9, s.len() as int) =~= v.payload);
        assert(decode_spec(s) == Some(v)) by {
            assert(decode_spec(s)->Some_0 =~= v);
        }
    } else {
        assert(v.payload =~= Seq::<u8>::empty());
        assert(decode_spec(s)->Some_0 =~= v);
    }
}

/// Only encodings parse: a byte sequence that parses to a frame value is
/// that value's encoding, and the value is well-formed.
pub proof fn lemma_encoding_of_decode(s: Seq<u8>, v: FrameV)
    requires
        decode_spec(s) == Some(v),
    ensures
        frame_wf(v),
        encoding(v) == s,
{
    lemma_be_round_trip(v.stream_id);
    lemma_be_round_trip(v.length);
    assert(be_bytes(v.stream_id) =~= seq![s[1], s[2], s[3], s[4]]) by {
        let b1 = s[1];
        let b2 = s[2];
        let b3 = s[3];
        let b4 = s[4];
        let x = be_value(b1, b2, b3, b4);
        assert((x >> 24) as u8 == b1 && (x >> 16) as u8 == b2 && (x >> 8) as u8 == b3 && x as u8
            == b4) by (bit_vector)
            requires
                x == ((b1 as u32) << 24) | ((b2 as u32) << 16) | ((b3 as u32) << 8) | (b4 as u32),
        ;
    }
    assert(be_bytes(v.length) =~= seq![s[5], s[6], s[7], s[8]]) by {
        let b1 = s[5];
        let b2 = s[6];
        let b3 = s[7];
        let b4 = s[8];
        let x = be_value(b1, b2, b3, b4);
        assert((x >> 24) as u8 == b1 && (x >> 16) as u8 == b2 && (x >> 8) as u8 == b3 && x as u8
            == b4) by (bit_vector)
            requires
                x == ((b1 as u32) << 24) | ((b2 as u32) << 16) | ((b3 as u32) << 8) | (b4 as u32),
        ;
    }
    assert(encoding(v) =~= s);
}

impl Frame {
    /// A frame whose `length` field agrees with its kind and payload.
    pub open spec fn wf(self) -> bool {
        frame_wf(self@)
    }

    /// An `Open` frame announcing a new stream.
    pub fn open_frame(stream_id: u32) -> (f: Frame)
        ensures
            f.ftype == FrameType::Open,
            f.stream_id == stream_id,
            f.length == 0,
            f.payload@ == Seq::<u8>::empty(),
            f.wf(),
    {
        Frame { ftype: FrameType::Open, stream_id, length: 0, payload: Vec::new() }
    }

    /// A `Data` frame carrying `payload` on `stream_id`.
    pub fn data_frame(stream_id: u32, payload: Vec<u8>) -> (f: Frame)
        requires
            payload@.len() <= 0xffff_ffff,
        ensures
            f.ftype == FrameType::Data,
            f.stream_id == stream_id,
            f.length == payload@.len(),
            f.payload@ == payload@,
            f.wf(),
    {
        let length = payload.len() as u32;
        Frame { ftype: FrameType::Data, stream_id, length, payload }
    }

    /// A `WindowUpdate` frame granting `delta` more bytes of credit.
    pub fn window_update_frame(stream_id: u32, delta: u32) -> (f: Frame)
        ensures
            f.ftype == FrameType::WindowUpdate,
            f.stream_id == stream_id,
            f.length == delta,
            f.payload@ == Seq::<u8>::empty(),
            f.wf(),
    {
        Frame { ftype: FrameType::WindowUpdate, stream_id, length: delta, payload: Vec::new() }
    }

    /// A `Close` frame: a half-close indication for `stream_id`.
    pub fn close_frame(stream_id: u32) -> (f: Frame)
        ensures
            f.ftype == FrameType::Close,
            f.stream_id == stream_id,
            f.length == 0,
            f.payload@ == Seq::<u8>::empty(),
            f.wf(),
    {
        Frame { ftype: FrameType::Close, stream_id, length: 0, payload: Vec::new() }
    }

    /// Serialize the frame for the wire.
    pub fn encode(&self) -> (out: Vec<u8>)
        requires
            self.wf(),
        ensures
            out@ == encoding(self@),
            decode_spec(out@) == Some(self@),
    {
        let mut out: Vec<u8> = Vec::new();
        let tag: u8 = match self.ftype {
            FrameType::Open => 0,
            FrameType::Data => 1,
            FrameType::WindowUpdate => 2,
            FrameType::Close => 3,
            FrameType::Reset => 4,
        };
        out.push(tag);
        push_be(&mut out, self.stream_id);
        push_be(&mut out, self.length);
        let mut k: usize = 0;
        while k < self.payload.len()
            invariant
                k <= self.payload@.len(),
                out@ == seq![type_tag(self.ftype)] + be_bytes(self.stream_id) + be_bytes(
                    self.length,
                ) + self.payload@.take(k as int),
            decreases self.payload@.len() - k,
        {
            out.push(self.payload[k]);
            proof {
                assert(out@ =~= seq![type_tag(self.ftype)] + be_bytes(self.stream_id) + be_bytes(
                    self.length,
                ) + self.payload@.take(k as int + 1));
            }
            k = k + 1;
        }
        proof {
            assert(self.payload@.take(self.payload@.len() as int) =~= self.payload@);
            assert(out@ =~= encoding(self@));
            lemma_decode_of_encoding(self@);
        }
        out
    }

    /// Parse one frame from its wire encoding.
    ///
    /// Exactly the encodings of well-formed frames are accepted; anything
    /// else is a malformed frame and a protocol error.
    pub fn decode(input: &Vec<u8>) -> (r: Result<Frame, SessionError>)
        ensures
            match r {
                Ok(f) => decode_spec(input@) == Some(f@) && f.wf() && encoding(f@) == input@,
                Err(e) => e == SessionError::ProtocolError && decode_spec(input@) is None,
            },
    {
        if input.len() < 9 {
            return Err(SessionError::ProtocolError);
        }
        let tag = input[0];
        let stream_id = read_be(input[1], input[2], input[3], input[4]);
        let length = read_be(input[5], input[6], input[7], input[8]);
        if tag == 1 {
            if input.len() - 9 != length as usize {
                return Err(SessionError::ProtocolError);
            }
            let mut payload: Vec<u8> = Vec::new();
            let mut k: usize = 9;
            while k < input.len()
                invariant
                    9 <= k <= input@.len(),
                    payload@ == input@.subrange(9, k as int),
                decreases input@.len() - k,
            {
                payload.push(input[k]);
                proof {
                    assert(payload@ =~= input@.subrange(9, k as int + 1));
                }
                k = k + 1;
            }
            let f = Frame { ftype: FrameType::Data, stream_id, length, payload };
            proof {
                assert(decode_spec(input@)->Some_0 =~= f@);
                lemma_encoding_of_decode(input@, f@);
            }
            Ok(f)
        } else if input.len() != 9 {
            Err(SessionError::ProtocolError)
        } else if tag == 2 {
            let f = Frame {
                ftype: FrameType::WindowUpdate,
                stream_id,
                length,
                payload: Vec::new(),
            };
            proof {
                assert(decode_spec(input@)->Some_0 =~= f@);
                lemma_encoding_of_decode(input@, f@);
            }
            Ok(f)
        } else if length != 0 {
            Err(SessionError::ProtocolError)
        } else if tag == 0 || tag == 3 || tag == 4 {
            let ftype = if tag == 0 {
                FrameType::Open
            } else if tag == 3 {
                FrameType::Close
            } else {
                FrameType::Reset
            };
            let f = Frame { ftype, stream_id, length: 0, payload: Vec::new() };
            proof {
                assert(decode_spec(input@)->Some_0 =~= f@);
                lemma_encoding_of_decode(input@, f@);
            }
            Ok(f)
        } else {
            Err(SessionError::ProtocolError)
        }
    }

    /// A `Reset` frame: an abrupt close of `stream_id`.
    pub fn reset_frame(stream_id: u32) -> (f: Frame)
        ensures
            f.ftype == FrameType::Reset,
            f.stream_id == stream_id,
            f.length == 0,
            f.payload@ == Seq::<u8>::empty(),
            f.wf(),
    {
        Frame { ftype: FrameType::Reset, stream_id, length: 0, payload: Vec::new() }
    }
}

/// Append the big-endian bytes of `x`.
fn push_be(out: &mut Vec<u8>, x: u32)
    ensures
        final(out)@ == old(out)@ + be_bytes(x),
{
    out.push((x >> 24) as u8);
    out.push((x >> 16) as u8);
    out.push((x >> 8) as u8);
    out.push(x as u8);
    proof {
        assert(out@ =~= old(out)@ + be_bytes(x));
    }
}

/// Read back a 32-bit value from its big-endian bytes.
fn read_be(b0: u8, b1: u8, b2: u8, b3: u8) -> (x: u32)
    ensures
        x == be_value(b0, b1, b2, b3),
{
    ((b0 as u32) << 24) | ((b1 as u32) << 16) | ((b2 as u32) << 8) | (b3 as u32)
}

} // verus!
