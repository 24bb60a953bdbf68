//! Framing of control messages: a four-byte big-endian length, then that many
//! payload bytes.
use vstd::prelude::*;

use crate::bytes::{append_all, be_u32, be_u32_at, lemma_be_u32_roundtrip, u32_be_bytes, u32_to_be};

verus! {

/// Why a payload cannot be framed.
#[derive(Debug, Clone, Copy, PartialEq, Eq)]
pub enum FrameError {
    /// The payload is longer than a four-byte length can say.
    TooLarge,
}

impl FrameError {
    /// The protocol error message for this failure.
    pub fn message(&self) -> (s: &'static str)
        ensures
            s@ == "frame payload exceeds u32::MAX"@,
    {
        match self {
            FrameError::TooLarge => "frame payload exceeds u32::MAX",
        }
    }
}

/// The bytes of the frame that carries `payload`.
pub open spec fn frame_bytes(payload: Seq<u8>) -> Seq<u8> {
    u32_be_bytes(payload.len() as u32) + payload
}

/// Frames `payload`: its length as four big-endian bytes, then the payload.
pub fn encode_frame(payload: &[u8]) -> (r: Result<Vec<u8>, FrameError>)
    ensures
        match r {
            Ok(v) => payload@.len() <= u32::MAX && v@ == frame_bytes(payload@),
            Err(e) => payload@.len() > u32::MAX && e == FrameError::TooLarge,
        },
{
    if payload.len() > 0xFFFF_FFFF {
        return Err(FrameError::TooLarge);
    }
    let header = u32_to_be(payload.len() as u32);
    let mut out: Vec<u8> = Vec::new();
    append_all(&mut out, &header);
    append_all(&mut out, payload);
    assert(out@ =~= frame_bytes(payload@));
    Ok(out)
}

/// The payload length announced by a frame header.
pub fn frame_payload_len(header: [u8; 4]) -> (n: usize)
    ensures
        n == be_u32(header@, 0),
{
    let v = be_u32_at(&header, 0);
    v as usize
}

/// Law: reading the header of a frame gives back the payload's length, and
/// the payload follows the header unchanged.
pub proof fn law_frame_roundtrip(payload: Seq<u8>)
    requires
        payload.len() <= u32::MAX,
    ensures
        be_u32(frame_bytes(payload), 0) == payload.len(),
        frame_bytes(payload).subrange(4, frame_bytes(payload).len() as int) == payload,
{
    let n = payload.len() as u32;
    lemma_be_u32_roundtrip(n);
    let f = frame_bytes(payload);
    assert(f.subrange(0, 4) =~= u32_be_bytes(n));
    assert(be_u32(f, 0) == be_u32(f.subrange(0, 4), 0));
    assert(f.subrange(4, f.len() as int) =~= payload);
}

} // verus!
