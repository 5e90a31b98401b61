//! Length-prefixed frames: `VarInt(length) ++ payload`.
use vstd::prelude::*;
use crate::varint::{
    encode_var_int, lemma_var_int_round_trip, read_var_int_at, read_var_int_spec, var_int_bytes,
    VarIntRead,
};

verus! {

/// The largest payload that a frame can carry: its length must fit in an `i32`.
pub const MAX_FRAME_PAYLOAD: usize = 0x7fff_ffff;

/// The largest packet payload that a connection accepts: what a three-byte
/// VarInt can count.
pub const MAX_PACKET_LEN: usize = 2_097_151;

/// What the front of a byte stream holds, read as a frame.
pub enum FrameRead {
    /// A whole frame: its payload and the bytes it took, prefix included.
    Complete { payload: Seq<u8>, used: nat },
    /// More bytes are needed before the frame is whole.
    Incomplete,
    /// The length prefix is not a valid VarInt.
    MalformedLength,
    /// The length prefix is negative.
    NegativeLength,
}

/// The bytes of a frame around `payload`.
pub open spec fn frame_bytes(payload: Seq<u8>) -> Seq<u8> {
    var_int_bytes(payload.len() as i32) + payload
}

/// The frame at the front of `b`.
pub open spec fn read_frame_spec(b: Seq<u8>) -> FrameRead {
    match read_var_int_spec(b) {
        VarIntRead::Overlong => FrameRead::MalformedLength,
        VarIntRead::Truncated => FrameRead::Incomplete,
        VarIntRead::Value { value, len } => if value < 0 {
            FrameRead::NegativeLength
        } else if len + value > b.len() {
            FrameRead::Incomplete
        } else {
            FrameRead::Complete {
                payload: b.subrange(len as int, len + value),
                used: (len + value) as nat,
            }
        },
    }
}

/// Appends the bytes of `b` to `out`.
pub fn append_slice(out: &mut Vec<u8>, b: &[u8])
    ensures
        final(out)@ == old(out)@ + b@,
{
    let ghost start = out@;
    let mut i: usize = 0;
    while i < b.len()
        invariant
            i <= b@.len(),
            out@ == start + b@.subrange(0, i as int),
        decreases b@.len() - i,
    {
        out.push(b[i]);
        i = i + 1;
        assert(b@.subrange(0, i as int) == b@.subrange(0, i - 1) + seq![b@[i - 1]]);
    }
    assert(b@.subrange(0, b@.len() as int) == b@);
}

/// The bytes of `data` from `start` up to `end`.
pub fn copy_range(data: &[u8], start: usize, end: usize) -> (r: Vec<u8>)
    requires
        start <= end <= data@.len(),
    ensures
        r@ == data@.subrange(start as int, end as int),
{
    let mut out: Vec<u8> = Vec::new();
    let mut i: usize = start;
    while i < end
        invariant
            start <= i <= end <= data@.len(),
            out@ == data@.subrange(start as int, i as int),
        decreases end - i,
    {
        out.push(data[i]);
        i = i + 1;
        assert(data@.subrange(start as int, i as int) == data@.subrange(start as int, i - 1)
            + seq![data@[i - 1]]);
    }
    out
}

/// The frame that carries `payload`.
pub fn write_frame(payload: &[u8]) -> (r: Vec<u8>)
    requires
        payload@.len() <= MAX_FRAME_PAYLOAD,
    ensures
        r@ == frame_bytes(payload@),
{
    let mut out = encode_var_int(payload.len() as i32);
    append_slice(&mut out, payload);
    out
}

/// Reads the frame at the front of `buf`: its payload and the number of bytes
/// it took, or `None` while the frame is not yet whole. A malformed or
/// negative length prefix is an error.
pub fn read_frame(buf: &[u8]) -> (r: Result<Option<(Vec<u8>, usize)>, FrameError>)
    ensures
        match read_frame_spec(buf@) {
            FrameRead::Complete { payload, used } => r matches Ok(Some((p, n))) && p@ == payload
                && n == used,
            FrameRead::Incomplete => r == Ok::<Option<(Vec<u8>, usize)>, FrameError>(None),
            FrameRead::MalformedLength => r == Err::<Option<(Vec<u8>, usize)>, FrameError>(
                FrameError::MalformedLength,
            ),
            FrameRead::NegativeLength => r == Err::<Option<(Vec<u8>, usize)>, FrameError>(
                FrameError::NegativeLength,
            ),
        },
{
    assert(buf@.subrange(0, buf@.len() as int) == buf@);
    match read_var_int_at(buf, 0) {
        VarIntRead::Overlong => Err(FrameError::MalformedLength),
        VarIntRead::Truncated => Ok(None),
        VarIntRead::Value { value, len } => {
            if value < 0 {
                Err(FrameError::NegativeLength)
            } else if value as usize > buf.len() - len {
                Ok(None)
            } else {
                let end = len + value as usize;
                Ok(Some((copy_range(buf, len, end), end)))
            }
        },
    }
}

/// Errors in a frame's length prefix.
#[derive(Debug, Clone, Copy, PartialEq, Eq, Structural)]
pub enum FrameError {
    MalformedLength,
    NegativeLength,
}

/// A frame is read back whole, whatever follows it on the stream.
pub proof fn lemma_frame_round_trip(payload: Seq<u8>, rest: Seq<u8>)
    requires
        payload.len() <= MAX_FRAME_PAYLOAD,
    ensures
        read_frame_spec(frame_bytes(payload) + rest) == (FrameRead::Complete {
            payload,
            used: frame_bytes(payload).len(),
        }),
{
    let v = payload.len() as i32;
    let e = var_int_bytes(v);
    lemma_var_int_round_trip(v, payload + rest);
    assert(frame_bytes(payload) + rest == e + (payload + rest));
    let b = frame_bytes(payload) + rest;
    assert(b.subrange(e.len() as int, e.len() + v) == payload);
}

} // verus!
