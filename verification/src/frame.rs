//! The frame codec: discrete messages over a byte stream.
//!
//! A frame is a four-byte little-endian unsigned length followed by that
//! many payload bytes. `spec_read_frame` models reading one frame from the
//! front of a closed stream's contents: an empty stream is a clean close,
//! while a short header or a short payload is a fatal transport error,
//! never a clean close.

use vstd::prelude::*;
use vstd::bytes::*;
use vstd::slice::*;

verus! {

/// Why no frame could be read from a stream's remaining contents.
#[derive(Clone, Copy, Debug, PartialEq, Eq, Structural)]
pub enum FrameError {
    /// The stream ended exactly on a frame boundary: a clean close.
    CleanClose,
    /// The stream ended inside a header or a payload: a fatal transport
    /// error for the connection.
    Truncated,
}

/// The encoded form of a frame around `payload`.
pub open spec fn spec_frame(payload: Seq<u8>) -> Seq<u8> {
    spec_u32_to_le_bytes(payload.len() as u32) + payload
}

/// What reading one frame from the front of `b` yields: the payload and the
/// unread remainder, or why no frame could be read.
pub open spec fn spec_read_frame(b: Seq<u8>) -> Result<(Seq<u8>, Seq<u8>), FrameError> {
    if b.len() == 0 {
        Err(FrameError::CleanClose)
    } else if b.len() < 4 {
        Err(FrameError::Truncated)
    } else {
        let n = spec_u32_from_le_bytes(b.subrange(0, 4)) as int;
        if b.len() < 4 + n {
            Err(FrameError::Truncated)
        } else {
            Ok((b.subrange(4, 4 + n), b.subrange(4 + n, b.len() as int)))
        }
    }
}

/// Wraps a payload in one frame: length prefix, then the payload.
pub fn encode_frame(payload: &[u8]) -> (r: Vec<u8>)
    requires
        payload@.len() <= u32::MAX,
    ensures
        r@ == spec_frame(payload@),
{
    let mut bytes = u32_to_le_bytes(payload.len() as u32);
    bytes.extend_from_slice(payload);
    proof {
        assert(bytes@ =~= spec_frame(payload@));
    }
    bytes
}

/// Reads one frame from the front of `bytes`, returning the payload and
/// how many bytes the frame occupied.
pub fn decode_frame(bytes: &[u8]) -> (r: Result<(Vec<u8>, usize), FrameError>)
    ensures
        match r {
            Ok(p) => {
                &&& spec_read_frame(bytes@) is Ok
                &&& p.0@ == spec_read_frame(bytes@)->Ok_0.0
                &&& p.1 == 4 + p.0@.len()
                &&& bytes@.subrange(p.1 as int, bytes@.len() as int) == spec_read_frame(
                    bytes@,
                )->Ok_0.1
            },
            Err(e) => {
                &&& spec_read_frame(bytes@) is Err
                &&& spec_read_frame(bytes@)->Err_0 == e
            },
        },
{
    if bytes.len() == 0 {
        return Err(FrameError::CleanClose);
    }
    if bytes.len() < 4 {
        return Err(FrameError::Truncated);
    }
    let len_bytes = slice_subrange(bytes, 0, 4);
    let n = u32_from_le_bytes(len_bytes) as usize;
    if bytes.len() - 4 < n {
        return Err(FrameError::Truncated);
    }
    let payload = slice_to_vec(slice_subrange(bytes, 4, 4 + n));
    Ok((payload, 4 + n))
}

/// Reading a frame from its encoded form followed by the stream's further
/// contents yields exactly the payload and those further contents.
pub proof fn lemma_frame_round_trip(payload: Seq<u8>, rest: Seq<u8>)
    requires
        payload.len() <= u32::MAX,
    ensures
        spec_read_frame(spec_frame(payload) + rest) == Ok::<(Seq<u8>, Seq<u8>), FrameError>(
            (payload, rest),
        ),
{
    let b = spec_frame(payload) + rest;
    lemma_auto_spec_u32_to_from_le_bytes();
    assert(b.subrange(0, 4) =~= spec_u32_to_le_bytes(payload.len() as u32));
    assert(b.subrange(4, 4 + payload.len() as int) =~= payload);
    assert(b.subrange(4 + payload.len() as int, b.len() as int) =~= rest);
}

} // verus!
