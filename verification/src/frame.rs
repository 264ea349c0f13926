//! The data channel wire format: length-prefixed binary frames.
//!
//! Wire format, big-endian: `[u32 payload_len][u64 seq][payload_len bytes]`.
//! The header is fixed at 12 bytes; framing relies on the stream's ordering,
//! there is no magic number.

use vstd::prelude::*;
use vstd::slice::{slice_subrange, slice_to_vec};
use crate::protocol::ProtocolError;

verus! {

/// The four bytes of `n`, most significant first.
pub open spec fn u32_be(n: u32) -> Seq<u8> {
    seq![
        ((n >> 24) & 0xff) as u8,
        ((n >> 16) & 0xff) as u8,
        ((n >> 8) & 0xff) as u8,
        (n & 0xff) as u8,
    ]
}

/// The eight bytes of `n`, most significant first.
pub open spec fn u64_be(n: u64) -> Seq<u8> {
    seq![
        ((n >> 56) & 0xff) as u8,
        ((n >> 48) & 0xff) as u8,
        ((n >> 40) & 0xff) as u8,
        ((n >> 32) & 0xff) as u8,
        ((n >> 24) & 0xff) as u8,
        ((n >> 16) & 0xff) as u8,
        ((n >> 8) & 0xff) as u8,
        (n & 0xff) as u8,
    ]
}

/// The value read from four big-endian bytes.
pub open spec fn u32_of_be(b: Seq<u8>) -> u32
    recommends
        b.len() == 4,
{
    ((b[0] as u32) << 24) | ((b[1] as u32) << 16) | ((b[2] as u32) << 8) | (b[3] as u32)
}

/// The value read from eight big-endian bytes.
pub open spec fn u64_of_be(b: Seq<u8>) -> u64
    recommends
        b.len() == 8,
{
    ((b[0] as u64) << 56) | ((b[1] as u64) << 48) | ((b[2] as u64) << 40)
        | ((b[3] as u64) << 32) | ((b[4] as u64) << 24) | ((b[5] as u64) << 16)
        | ((b[6] as u64) << 8) | (b[7] as u64)
}

pub proof fn lemma_u32_be_round_trip(n: u32)
    ensures
        u32_of_be(u32_be(n)) == n,
{
    assert(((((n >> 24) & 0xff) as u8 as u32) << 24
        | (((n >> 16) & 0xff) as u8 as u32) << 16
        | (((n >> 8) & 0xff) as u8 as u32) << 8
        | ((n & 0xff) as u8 as u32)) == n) by (bit_vector);
}

pub proof fn lemma_u64_be_round_trip(n: u64)
    ensures
        u64_of_be(u64_be(n)) == n,
{
    assert(((((n >> 56) & 0xff) as u8 as u64) << 56
        | (((n >> 48) & 0xff) as u8 as u64) << 48
        | (((n >> 40) & 0xff) as u8 as u64) << 40
        | (((n >> 32) & 0xff) as u8 as u64) << 32
        | (((n >> 24) & 0xff) as u8 as u64) << 24
        | (((n >> 16) & 0xff) as u8 as u64) << 16
        | (((n >> 8) & 0xff) as u8 as u64) << 8
        | ((n & 0xff) as u8 as u64)) == n) by (bit_vector);
}

/// The encoding of one frame: 12-byte header, then the payload.
pub open spec fn spec_frame_bytes(seq_no: u64, payload: Seq<u8>) -> Seq<u8> {
    u32_be(payload.len() as u32) + u64_be(seq_no) + payload
}

/// Parse one frame starting at `pos`: the sequence number, the payload, and
/// the position just past the frame. `None` when fewer bytes remain than the
/// header plus the announced payload length.
pub open spec fn spec_parse_frame_at(b: Seq<u8>, pos: int) -> Option<(u64, Seq<u8>, int)> {
    if 0 <= pos && pos + 12 <= b.len() {
        let len = u32_of_be(b.subrange(pos, pos + 4)) as int;
        if pos + 12 + len <= b.len() {
            Some((
                u64_of_be(b.subrange(pos + 4, pos + 12)),
                b.subrange(pos + 12, pos + 12 + len),
                pos + 12 + len,
            ))
        } else {
            None
        }
    } else {
        None
    }
}

/// True when the whole of `b` is exactly one frame.
pub open spec fn spec_whole_frame(b: Seq<u8>) -> bool {
    match spec_parse_frame_at(b, 0) {
        Some(t) => t.2 == b.len(),
        None => false,
    }
}

/// A frame decoded anywhere inside a byte stream is the frame that was
/// encoded there, whatever precedes or follows it.
pub proof fn lemma_frame_round_trip(front: Seq<u8>, seq_no: u64, payload: Seq<u8>, rest: Seq<u8>)
    requires
        payload.len() <= u32::MAX,
    ensures
        spec_parse_frame_at(front + spec_frame_bytes(seq_no, payload) + rest, front.len() as int)
            == Some((seq_no, payload, (front.len() + 12 + payload.len()) as int)),
{
    let b = front + spec_frame_bytes(seq_no, payload) + rest;
    let pos = front.len() as int;
    lemma_u32_be_round_trip(payload.len() as u32);
    lemma_u64_be_round_trip(seq_no);
    assert(b.subrange(pos, pos + 4) =~= u32_be(payload.len() as u32));
    assert(b.subrange(pos + 4, pos + 12) =~= u64_be(seq_no));
    assert(u32_of_be(b.subrange(pos, pos + 4)) == payload.len() as u32);
    assert(b.subrange(pos + 12, pos + 12 + payload.len()) =~= payload);
}

/// The back-to-back encoding of a sequence of frames.
pub open spec fn encode_frames(frames: Seq<(u64, Seq<u8>)>) -> Seq<u8>
    decreases frames.len(),
{
    if frames.len() == 0 {
        Seq::empty()
    } else {
        spec_frame_bytes(frames[0].0, frames[0].1) + encode_frames(frames.drop_first())
    }
}

/// Parse frames from the front of `b` until it is exhausted; `None` when the
/// bytes do not form a whole number of frames.
pub open spec fn decode_frames(b: Seq<u8>) -> Option<Seq<(u64, Seq<u8>)>>
    decreases b.len(),
{
    if b.len() == 0 {
        Some(Seq::empty())
    } else {
        match spec_parse_frame_at(b, 0) {
            Some(t) => {
                if 0 < t.2 <= b.len() {
                    match decode_frames(b.subrange(t.2, b.len() as int)) {
                        Some(tail) => Some(seq![(t.0, t.1)] + tail),
                        None => None,
                    }
                } else {
                    None
                }
            },
            None => None,
        }
    }
}

/// A frame parsed at the very front of a stream is the frame encoded there.
proof fn lemma_parse_front(seq_no: u64, payload: Seq<u8>, rest: Seq<u8>)
    requires
        payload.len() <= u32::MAX,
    ensures
        spec_parse_frame_at(spec_frame_bytes(seq_no, payload) + rest, 0)
            == Some((seq_no, payload, (12 + payload.len()) as int)),
{
    lemma_frame_round_trip(Seq::empty(), seq_no, payload, rest);
    assert(Seq::<u8>::empty() + spec_frame_bytes(seq_no, payload) + rest
        =~= spec_frame_bytes(seq_no, payload) + rest);
}

/// The encoding of one frame is the 12-byte header plus the payload.
proof fn lemma_frame_bytes_len(seq_no: u64, payload: Seq<u8>)
    ensures
        spec_frame_bytes(seq_no, payload).len() == 12 + payload.len(),
{
}

/// One step of stream decoding: a parsed frame followed by decoded frames.
proof fn lemma_decode_cons(b: Seq<u8>, s: u64, p: Seq<u8>, n: int, tail: Seq<(u64, Seq<u8>)>)
    requires
        b.len() > 0,
        spec_parse_frame_at(b, 0) == Some((s, p, n)),
        0 < n <= b.len(),
        decode_frames(b.subrange(n, b.len() as int)) == Some(tail),
    ensures
        decode_frames(b) == Some(seq![(s, p)] + tail),
{
}

/// Law: a stream of frames written back to back into one buffer reads back
/// as exactly the same frames, in the same order.
pub proof fn lemma_stream_round_trip(frames: Seq<(u64, Seq<u8>)>)
    requires
        forall|i: int| 0 <= i < frames.len() ==> (#[trigger] frames[i]).1.len() <= u32::MAX,
    ensures
        decode_frames(encode_frames(frames)) == Some(frames),
    decreases frames.len(),
{
    if frames.len() == 0 {
        assert(frames =~= Seq::<(u64, Seq<u8>)>::empty());
    } else {
        let f0 = frames[0];
        let tailf = frames.drop_first();
        let fb = spec_frame_bytes(f0.0, f0.1);
        let tb = encode_frames(tailf);
        assert(forall|i: int| 0 <= i < tailf.len()
            ==> (#[trigger] tailf[i]).1.len() <= u32::MAX) by {
            assert(forall|i: int| 0 <= i < tailf.len() ==> #[trigger] tailf[i] == frames[i + 1]);
        }
        lemma_stream_round_trip(tailf);
        lemma_parse_front(f0.0, f0.1, tb);
        lemma_frame_bytes_len(f0.0, f0.1);
        let n = (12 + f0.1.len()) as int;
        assert((fb + tb).subrange(n, (fb + tb).len() as int) =~= tb);
        lemma_decode_cons(fb + tb, f0.0, f0.1, n, tailf);
        assert(encode_frames(frames) == fb + tb);
        assert(seq![(f0.0, f0.1)] + tailf =~= frames);
    }
}

/// One unit on the data channel: a sequence number and a payload.
#[derive(Debug, Clone, Eq)]
pub struct DataFrame {
    /// Sequence number for ordering.
    pub seq: u64,
    /// Payload bytes (a line or a chunk).
    pub payload: Vec<u8>,
}

impl PartialEq for DataFrame {
    fn eq(&self, other: &Self) -> (r: bool) {
        if self.seq != other.seq {
            return false;
        }
        let r = self.payload == other.payload;
        proof {
            if r {
                assert(self.payload@ =~= other.payload@);
            } else {
                if self.payload@ == other.payload@ {
                    assert(forall|i: int| 0 <= i < self.payload@.len()
                        ==> self.payload@[i] == other.payload@[i]);
                }
            }
        }
        r
    }
}

impl vstd::std_specs::cmp::PartialEqSpecImpl for DataFrame {
    open spec fn obeys_eq_spec() -> bool {
        true
    }

    open spec fn eq_spec(&self, other: &DataFrame) -> bool {
        self.seq == other.seq && self.payload@ == other.payload@
    }
}

/// Append the four big-endian bytes of `n`.
fn push_be32(v: &mut Vec<u8>, n: u32)
    ensures
        final(v)@ == old(v)@ + u32_be(n),
{
    v.push(((n >> 24) & 0xff) as u8);
    v.push(((n >> 16) & 0xff) as u8);
    v.push(((n >> 8) & 0xff) as u8);
    v.push((n & 0xff) as u8);
    proof {
        assert(v@ =~= old(v)@ + u32_be(n));
    }
}

/// Append the eight big-endian bytes of `n`.
fn push_be64(v: &mut Vec<u8>, n: u64)
    ensures
        final(v)@ == old(v)@ + u64_be(n),
{
    v.push(((n >> 56) & 0xff) as u8);
    v.push(((n >> 48) & 0xff) as u8);
    v.push(((n >> 40) & 0xff) as u8);
    v.push(((n >> 32) & 0xff) as u8);
    v.push(((n >> 24) & 0xff) as u8);
    v.push(((n >> 16) & 0xff) as u8);
    v.push(((n >> 8) & 0xff) as u8);
    v.push((n & 0xff) as u8);
    proof {
        assert(v@ =~= old(v)@ + u64_be(n));
    }
}

/// Read four big-endian bytes starting at `i`.
fn be32_read(b: &[u8], i: usize) -> (n: u32)
    requires
        i + 4 <= b@.len(),
    ensures
        n == u32_of_be(b@.subrange(i as int, i as int + 4)),
{
    let n = ((b[i] as u32) << 24) | ((b[i + 1] as u32) << 16) | ((b[i + 2] as u32) << 8)
        | (b[i + 3] as u32);
    proof {
        let s = b@.subrange(i as int, i as int + 4);
        assert(s[0] == b@[i as int] && s[1] == b@[i as int + 1] && s[2] == b@[i as int + 2]
            && s[3] == b@[i as int + 3]);
    }
    n
}

/// Read eight big-endian bytes starting at `i`.
fn be64_read(b: &[u8], i: usize) -> (n: u64)
    requires
        i + 8 <= b@.len(),
    ensures
        n == u64_of_be(b@.subrange(i as int, i as int + 8)),
{
    let n = ((b[i] as u64) << 56) | ((b[i + 1] as u64) << 48) | ((b[i + 2] as u64) << 40)
        | ((b[i + 3] as u64) << 32) | ((b[i + 4] as u64) << 24) | ((b[i + 5] as u64) << 16)
        | ((b[i + 6] as u64) << 8) | (b[i + 7] as u64);
    proof {
        let s = b@.subrange(i as int, i as int + 8);
        assert(s[0] == b@[i as int] && s[1] == b@[i as int + 1] && s[2] == b@[i as int + 2]
            && s[3] == b@[i as int + 3] && s[4] == b@[i as int + 4] && s[5] == b@[i as int + 5]
            && s[6] == b@[i as int + 6] && s[7] == b@[i as int + 7]);
    }
    n
}

impl DataFrame {
    /// Create a new data frame.
    pub fn new(seq: u64, payload: Vec<u8>) -> (f: DataFrame)
        ensures
            f.seq == seq,
            f.payload == payload,
    {
        DataFrame { seq, payload }
    }

    /// Serialize to the wire format.
    pub fn to_bytes(&self) -> (r: Vec<u8>)
        requires
            self.payload@.len() <= u32::MAX,
        ensures
            r@ == spec_frame_bytes(self.seq, self.payload@),
    {
        let mut r: Vec<u8> = Vec::new();
        push_be32(&mut r, self.payload.len() as u32);
        push_be64(&mut r, self.seq);
        r.extend_from_slice(self.payload.as_slice());
        proof {
            assert(r@ =~= spec_frame_bytes(self.seq, self.payload@));
        }
        r
    }

    /// Append the frame's wire encoding to an outgoing buffer.
    pub fn write_to(&self, out: &mut Vec<u8>)
        requires
            self.payload@.len() <= u32::MAX,
            old(out)@.len() + 12 + self.payload@.len() <= usize::MAX,
        ensures
            final(out)@ == old(out)@ + spec_frame_bytes(self.seq, self.payload@),
    {
        let bytes = self.to_bytes();
        out.extend_from_slice(bytes.as_slice());
    }

    /// Read one frame starting at `*pos`, advancing `*pos` past it. Succeeds
    /// exactly when a whole frame lies at `*pos`; at the very end of the
    /// buffer the error reports end of stream, anywhere else a partial frame.
    pub fn read_from(bytes: &[u8], pos: &mut usize) -> (r: Result<DataFrame, ProtocolError>)
        requires
            *old(pos) <= bytes@.len(),
        ensures
            match r {
                Ok(f) => {
                    &&& spec_parse_frame_at(bytes@, *old(pos) as int)
                        == Some((f.seq, f.payload@, *final(pos) as int))
                    &&& *old(pos) < *final(pos) <= bytes@.len()
                },
                Err(e) => {
                    &&& *final(pos) == *old(pos)
                    &&& spec_parse_frame_at(bytes@, *old(pos) as int) is None
                    &&& if *old(pos) == bytes@.len() {
                        e matches ProtocolError::Io(m) && m@ == "end of stream"@
                    } else {
                        e matches ProtocolError::InvalidFrame(m) && m@ == "partial frame"@
                    }
                },
            },
    {
        let n = bytes.len();
        if *pos == n {
            return Err(ProtocolError::Io(String::from_str("end of stream")));
        }
        if n - *pos < 12 {
            return Err(ProtocolError::InvalidFrame(String::from_str("partial frame")));
        }
        let len = be32_read(bytes, *pos) as usize;
        if n - *pos - 12 < len {
            return Err(ProtocolError::InvalidFrame(String::from_str("partial frame")));
        }
        let seq = be64_read(bytes, *pos + 4);
        let payload = slice_to_vec(slice_subrange(bytes, *pos + 12, *pos + 12 + len));
        *pos = *pos + 12 + len;
        Ok(DataFrame { seq, payload })
    }

    /// Deserialize from bytes that hold exactly one frame.
    pub fn from_bytes(bytes: &[u8]) -> (r: Result<DataFrame, ProtocolError>)
        ensures
            (r is Ok) == spec_whole_frame(bytes@),
            r matches Ok(f) ==> spec_parse_frame_at(bytes@, 0)
                == Some((f.seq, f.payload@, bytes@.len() as int)),
            r matches Err(e) ==> e matches ProtocolError::InvalidFrame(m)
                && if bytes@.len() < 12 {
                    m@ == "frame too short"@
                } else {
                    m@ == "frame length mismatch"@
                },
    {
        let n = bytes.len();
        if n < 12 {
            return Err(ProtocolError::InvalidFrame(String::from_str("frame too short")));
        }
        let len = be32_read(bytes, 0) as usize;
        if n - 12 != len {
            return Err(ProtocolError::InvalidFrame(String::from_str("frame length mismatch")));
        }
        let seq = be64_read(bytes, 4);
        let payload = slice_to_vec(slice_subrange(bytes, 12, n));
        Ok(DataFrame { seq, payload })
    }
}

} // verus!
