//! Decisions a connection makes on the bytes it reads and writes:
//! admitting a stream frame by its length header, framing an outgoing
//! publish, and admitting a WebSocket message.

use vstd::prelude::*;
use crate::protocol::{be_u16_bytes, be_u32_bytes, be_u32_value, publish_bytes, MAX_FRAME_BYTES};

verus! {

/// Largest WebSocket message the gateway parses (16 MiB).
pub const MAX_WS_FRAME_BYTES: usize = 16777216usize;

/// Why a stream frame header was rejected.
#[derive(Debug, Clone, Copy, PartialEq, Eq, Structural)]
pub enum FrameLengthError {
    /// The header announces an empty body.
    ZeroLength,
    /// The header announces more than `MAX_FRAME_BYTES`; the announced length is kept.
    TooLarge(u32),
}

/// Reads the 4-byte big-endian length header of a stream frame and admits it
/// when it announces between 1 and `MAX_FRAME_BYTES` bytes.
pub fn frame_length(header: [u8; 4]) -> (r: Result<usize, FrameLengthError>)
    ensures
        be_u32_value(header@) == 0 ==> r == Err::<usize, FrameLengthError>(
            FrameLengthError::ZeroLength,
        ),
        be_u32_value(header@) > MAX_FRAME_BYTES ==> r == Err::<usize, FrameLengthError>(
            FrameLengthError::TooLarge(be_u32_value(header@) as u32),
        ),
        0 < be_u32_value(header@) <= MAX_FRAME_BYTES ==> r == Ok::<usize, FrameLengthError>(
            be_u32_value(header@) as usize,
        ),
{
    let length: u32 = (header[0] as u32) * 16777216 + (header[1] as u32) * 65536 + (header[2] as u32)
        * 256 + (header[3] as u32);
    if length == 0 {
        return Err(FrameLengthError::ZeroLength);
    }
    if length > MAX_FRAME_BYTES {
        return Err(FrameLengthError::TooLarge(length));
    }
    Ok(length as usize)
}

/// The bytes that precede the payload of an outgoing publish frame.
pub open spec fn publish_header_bytes(topic: Seq<u8>, payload_len: nat) -> Seq<u8> {
    be_u32_bytes((3 + topic.len() + payload_len) as u32) + seq![2u8] + be_u16_bytes(
        topic.len() as u16,
    ) + topic
}

/// Frames the header of a publish frame delivered to a stream subscriber:
/// length prefix, type byte `0x02`, topic length and topic. The payload is
/// written right after it. The body length is written modulo 2^32 and the
/// topic length modulo 2^16: each keeps the low bits that fit its field.
pub fn publish_header(topic: &[u8], payload_len: usize) -> (r: Vec<u8>)
    requires
        topic@.len() + payload_len + 7 <= usize::MAX,
    ensures
        r@ == publish_header_bytes(topic@, payload_len as nat),
{
    let topic_len = topic.len();
    let body_len = 1 + 2 + topic_len + payload_len;
    let mut hdr: Vec<u8> = Vec::with_capacity(7 + topic_len);
    let b = body_len as u32;
    hdr.push((b / 16777216) as u8);
    hdr.push(((b / 65536) % 256) as u8);
    hdr.push(((b / 256) % 256) as u8);
    hdr.push((b % 256) as u8);
    hdr.push(2u8);
    let t = topic_len as u16;
    hdr.push((t / 256) as u8);
    hdr.push((t % 256) as u8);
    let ghost fixed = hdr@;
    assert(fixed == be_u32_bytes(b) + seq![2u8] + be_u16_bytes(t));
    let mut i: usize = 0;
    while i < topic_len
        invariant
            i <= topic_len,
            topic_len == topic@.len(),
            hdr@ == fixed + topic@.take(i as int),
        decreases topic_len - i,
    {
        hdr.push(topic[i]);
        i = i + 1;
        assert(topic@.take(i as int) == topic@.take((i - 1) as int).push(topic@[i - 1]));
    }
    assert(topic@.take(topic_len as int) == topic@);
    hdr
}

/// A frame delivered to a stream subscriber is the header followed by the
/// payload, and that is byte for byte what `encode_publish` writes for the
/// same topic and payload.
pub proof fn lemma_delivered_frame_is_publish_frame(topic: Seq<u8>, payload: Seq<u8>)
    ensures
        publish_header_bytes(topic, payload.len()) + payload == publish_bytes(topic, payload),
{
    assert(publish_header_bytes(topic, payload.len()) + payload =~= publish_bytes(topic, payload));
}

/// A WebSocket binary message is parsed only when it is non-empty and at most
/// `MAX_WS_FRAME_BYTES` long; other messages are skipped.
pub fn ws_message_accepted(len: usize) -> (r: bool)
    ensures
        r == (0 < len && len <= MAX_WS_FRAME_BYTES),
{
    len != 0 && len <= MAX_WS_FRAME_BYTES
}

} // verus!
