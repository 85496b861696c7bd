//! Client-side adapter between an LLM runtime and the broker.

use vstd::prelude::*;
use vstd::string::*;
use vstd::utf8::*;
use crate::protocol::{be_u16_bytes, parse_outcome, ParseOutcome, MAX_FRAME_BYTES};

verus! {

broadcast use vstd::utf8::encode_utf8_valid_utf8;

/// Largest frame the broker accepts, enforced client-side too (16 MiB).
pub const MAX_CLIENT_FRAME_BYTES: usize = 16777216usize;

/// Type byte of a subscribe frame.
pub const OP_SUBSCRIBE: u8 = 1u8;

/// Type byte of a publish frame.
pub const OP_PUBLISH: u8 = 2u8;

/// The topics of the LLM fabric.
#[derive(Debug, Clone, Copy, PartialEq, Eq, Hash, Structural)]
pub enum Topic {
    PromptIn,
    TokensOut,
    ModelLogits,
    ModelNextToken,
    StreamText,
    KvUpdate,
    Metrics,
}

/// What a consumer does when it falls behind on a topic.
#[derive(Debug, Clone, Copy, PartialEq, Eq, Structural)]
pub enum LagPolicy {
    /// Skipping forward is acceptable; the consumer handles gaps.
    DropOldestOk,
    /// Falling behind is an error for this topic.
    MustNotLag,
}

/// The wire name of a topic.
pub open spec fn topic_name(t: Topic) -> Seq<char> {
    match t {
        Topic::PromptIn => "prompt.in"@,
        Topic::TokensOut => "tokens.out"@,
        Topic::ModelLogits => "model.logits"@,
        Topic::ModelNextToken => "model.next_token"@,
        Topic::StreamText => "stream.text"@,
        Topic::KvUpdate => "kv.update"@,
        Topic::Metrics => "metrics"@,
    }
}

impl Topic {
    pub fn as_str(&self) -> (r: &'static str)
        ensures
            r@ == topic_name(*self),
    {
        match self {
            Topic::PromptIn => "prompt.in",
            Topic::TokensOut => "tokens.out",
            Topic::ModelLogits => "model.logits",
            Topic::ModelNextToken => "model.next_token",
            Topic::StreamText => "stream.text",
            Topic::KvUpdate => "kv.update",
            Topic::Metrics => "metrics",
        }
    }

    /// Only `kv.update` must not lag; every other topic may skip forward.
    pub fn lag_policy(&self) -> (r: LagPolicy)
        ensures
            r == (if *self == Topic::KvUpdate { LagPolicy::MustNotLag } else { LagPolicy::DropOldestOk }),
    {
        match self {
            Topic::KvUpdate => LagPolicy::MustNotLag,
            _ => LagPolicy::DropOldestOk,
        }
    }
}

/// Header of a `tokens.out` / `model.next_token` payload.
#[derive(Debug, Clone, Copy)]
pub struct TokensHeader {
    pub seq_id: u64,
    pub length: u32,
    /// 0 = u32 token ids.
    pub dtype: u8,
}

/// Header of a `model.logits` payload.
#[derive(Debug, Clone, Copy)]
pub struct LogitsHeader {
    pub seq_id: u64,
    pub vocab_size: u32,
    /// 0 = f32, 1 = f16, 2 = bf16, 3 = int8 with scale/zero trailer.
    pub dtype: u8,
}

/// Header of a `kv.update` payload.
#[derive(Debug, Clone, Copy)]
pub struct KvHeader {
    pub layer: u16,
    pub head: u16,
    pub seq_start: u32,
    pub seq_len: u32,
    /// 0 = f32, 1 = f16, 2 = bf16.
    pub dtype: u8,
}

/// Declares `std::io::Error` to the verifier as an opaque type, so that the
/// adapter's error can carry it.
#[verifier::external_type_specification]
#[verifier::external_body]
pub struct ExIoError(std::io::Error);

/// Errors of the adapter.
#[derive(Debug)]
pub enum AdapterError {
    Io(std::io::Error),
    /// The frame would exceed the broker's limit; its size is kept.
    FrameTooLarge(usize),
    Closed,
    /// A consumer fell behind on a topic that must not lag.
    Lagged(Topic),
}

/// Bytes of a publish frame body (no length prefix).
pub open spec fn publish_body(topic: Seq<u8>, payload: Seq<u8>) -> Seq<u8> {
    seq![OP_PUBLISH] + be_u16_bytes(topic.len() as u16) + topic + payload
}

/// Appends `src` to `buf`.
fn append(buf: &mut Vec<u8>, src: &[u8])
    ensures
        final(buf)@ == old(buf)@ + src@,
{
    let mut i: usize = 0;
    while i < src.len()
        invariant
            i <= src@.len(),
            buf@ == old(buf)@ + src@.take(i as int),
        decreases src@.len() - i,
    {
        buf.push(src[i]);
        i = i + 1;
        assert(src@.take(i as int) =~= src@.take((i - 1) as int).push(src@[i - 1]));
    }
    assert(src@.take(src@.len() as int) =~= src@);
}

/// Frames a publish of `payload` on `topic`: type byte, topic length (16
/// bits, the length modulo 2^16), topic, payload. Refused when
/// the frame would exceed `MAX_CLIENT_FRAME_BYTES`.
pub fn encode_publish(topic: &str, payload: Vec<u8>) -> (r: Result<Vec<u8>, AdapterError>)
    requires
        topic.spec_bytes().len() + payload@.len() + 3 <= usize::MAX,
    ensures
        topic.spec_bytes().len() + payload@.len() + 3 > MAX_CLIENT_FRAME_BYTES ==> (r matches Err(
            AdapterError::FrameTooLarge(n),
        ) && n == topic.spec_bytes().len() + payload@.len() + 3),
        topic.spec_bytes().len() + payload@.len() + 3 <= MAX_CLIENT_FRAME_BYTES ==> (r matches Ok(
            f,
        ) && f@ == publish_body(topic.spec_bytes(), payload@)),
{
    let topic_bytes = topic.as_bytes();
    let total = 1 + 2 + topic_bytes.len() + payload.len();
    if total > MAX_CLIENT_FRAME_BYTES {
        return Err(AdapterError::FrameTooLarge(total));
    }
    let mut out: Vec<u8> = Vec::with_capacity(total);
    out.push(OP_PUBLISH);
    let t = topic_bytes.len() as u16;
    out.push((t / 256) as u8);
    out.push((t % 256) as u8);
    assert(out@ =~= seq![OP_PUBLISH] + be_u16_bytes(t));
    append(&mut out, topic_bytes);
    append(&mut out, payload.as_slice());
    Ok(out)
}

/// Frames a subscribe to `topic`: type byte then topic.
pub fn encode_subscribe(topic: &str) -> (r: Vec<u8>)
    ensures
        r@ == seq![OP_SUBSCRIBE] + topic.spec_bytes(),
{
    let topic_bytes = topic.as_bytes();
    let mut buf: Vec<u8> = Vec::new();
    buf.push(OP_SUBSCRIBE);
    append(&mut buf, topic_bytes);
    buf
}

/// A publish frame built by the adapter parses on the broker as a publish of
/// the same topic and payload.
proof fn lemma_adapter_publish_parses(t: Seq<u8>, payload: Seq<u8>)
    requires
        valid_utf8(t),
        t.len() <= u16::MAX,
        t.len() + payload.len() + 3 <= MAX_CLIENT_FRAME_BYTES,
    ensures
        parse_outcome(publish_body(t, payload)) == (ParseOutcome::Publish { topic: t, payload }),
{
    crate::protocol::lemma_publish_roundtrip(t, payload);
    assert(crate::protocol::publish_bytes(t, payload).skip(4) =~= publish_body(t, payload));
}

/// A subscribe frame built by the adapter parses on the broker as a
/// subscribe to the same topic.
proof fn lemma_adapter_subscribe_parses(t: Seq<u8>)
    requires
        valid_utf8(t),
        t.len() + 1 <= MAX_FRAME_BYTES,
    ensures
        parse_outcome(seq![OP_SUBSCRIBE] + t) == (ParseOutcome::Subscribe { topic: t }),
{
    crate::protocol::lemma_subscribe_roundtrip(t);
    assert(crate::protocol::subscribe_bytes(t).skip(4) =~= seq![OP_SUBSCRIBE] + t);
}

/// The adapter speaks the broker's protocol: a publish frame it builds
/// (with a topic of at most 65535 bytes) parses on the broker as a publish
/// of the same topic and payload, and a subscribe frame within the broker's
/// limit parses as a subscribe to the same topic.
pub proof fn lemma_adapter_frames_parse(topic: Seq<char>, payload: Seq<u8>)
    ensures
        ({
            let t = encode_utf8(topic);
            &&& (t.len() <= u16::MAX && t.len() + payload.len() + 3 <= MAX_CLIENT_FRAME_BYTES) ==> parse_outcome(
                publish_body(t, payload),
            ) == (ParseOutcome::Publish { topic: t, payload })
            &&& t.len() + 1 <= MAX_FRAME_BYTES ==> parse_outcome(seq![OP_SUBSCRIBE] + t) == (ParseOutcome::Subscribe { topic: t })
        }),
{
    let t = encode_utf8(topic);
    if t.len() <= u16::MAX && t.len() + payload.len() + 3 <= MAX_CLIENT_FRAME_BYTES {
        lemma_adapter_publish_parses(t, payload);
    }
    if t.len() + 1 <= MAX_FRAME_BYTES {
        lemma_adapter_subscribe_parses(t);
    }
}

} // verus!
