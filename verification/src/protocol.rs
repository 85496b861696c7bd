//! Binary wire protocol: frame parser and encoders.
//!
//! A frame body is one type byte followed by its fields:
//! - `0x01` subscribe: `[topic]` (the topic runs to the end of the body)
//! - `0x02` publish: `[topic_len: u16 BE] [topic] [payload]`
//! - `0x03` queue subscribe: `[topic_len: u16 BE] [topic] [group]`
//!
//! On a stream the body is preceded by a 4-byte big-endian length. The parser
//! accepts a body with or without that prefix: the first four bytes are taken
//! as a prefix exactly when they announce the length of the rest.

use vstd::prelude::*;
use vstd::utf8::*;
use vstd::string::*;
use core::str::Utf8Error;

verus! {

broadcast use vstd::utf8::encode_utf8_valid_utf8;

/// Largest frame body the stream reader accepts (16 MiB).
pub const MAX_FRAME_BYTES: u32 = 16777216u32;

/// Declares `core::str::Utf8Error` to the verifier as an opaque type, so that
/// a parse error can carry it.
#[verifier::external_type_specification]
#[verifier::external_body]
pub struct ExUtf8Error(Utf8Error);

/// Why a frame body was rejected.
#[derive(Debug)]
pub enum ProtocolError {
    /// The type byte is not one of `0x01`, `0x02`, `0x03`.
    UnknownMessageType(u8),
    /// A publish or queue-subscribe body has fewer than two bytes after the type byte.
    PublishTooShort,
    /// The announced topic length (first field) exceeds the bytes that follow (second field).
    TopicLenOverflow(usize, usize),
    /// A topic or group name is not valid UTF-8.
    InvalidUtf8(Utf8Error),
    /// Nothing is left once the optional length prefix is removed.
    EmptyFrame,
}

/// A decoded client frame.
#[derive(Debug, Clone)]
pub enum Frame {
    Subscribe { topic: Vec<u8> },
    Publish { topic: Vec<u8>, payload: Vec<u8> },
    /// Join the consumer group `group` on `topic`: each message goes to one member.
    QueueSubscribe { topic: Vec<u8>, group: Vec<u8> },
}

/// The mathematical result of parsing: a frame, or which error is reported.
pub enum ParseOutcome {
    Subscribe { topic: Seq<u8> },
    Publish { topic: Seq<u8>, payload: Seq<u8> },
    QueueSubscribe { topic: Seq<u8>, group: Seq<u8> },
    UnknownMessageType(u8),
    PublishTooShort,
    TopicLenOverflow(nat, nat),
    InvalidUtf8,
    EmptyFrame,
}

/// Value of two bytes read big-endian.
pub open spec fn be_u16_value(hi: u8, lo: u8) -> nat {
    (hi as nat) * 256 + (lo as nat)
}

/// Value of the first four bytes of `s` read big-endian.
pub open spec fn be_u32_value(s: Seq<u8>) -> nat
    recommends
        s.len() >= 4,
{
    (s[0] as nat) * 16777216 + (s[1] as nat) * 65536 + (s[2] as nat) * 256 + (s[3] as nat)
}

/// Big-endian bytes of a `u16`.
pub open spec fn be_u16_bytes(x: u16) -> Seq<u8> {
    seq![(x / 256) as u8, (x % 256) as u8]
}

/// Big-endian bytes of a `u32`.
pub open spec fn be_u32_bytes(x: u32) -> Seq<u8> {
    seq![(x / 16777216) as u8, ((x / 65536) % 256) as u8, ((x / 256) % 256) as u8, (x % 256) as u8]
}

/// The body of `raw`: the four leading bytes are dropped when they announce
/// the length of what follows them.
pub open spec fn frame_body(raw: Seq<u8>) -> Seq<u8> {
    if raw.len() >= 4 && be_u32_value(raw) == raw.len() - 4 {
        raw.skip(4)
    } else {
        raw
    }
}

/// What parsing the fields after a `0x02` or `0x03` type byte gives.
pub open spec fn parse_two_field(kind: u8, rest: Seq<u8>) -> ParseOutcome {
    if rest.len() < 2 {
        ParseOutcome::PublishTooShort
    } else {
        let topic_len = be_u16_value(rest[0], rest[1]);
        let after = rest.skip(2);
        if topic_len > after.len() {
            ParseOutcome::TopicLenOverflow(topic_len, after.len())
        } else {
            let topic = after.take(topic_len as int);
            let tail = after.skip(topic_len as int);
            if kind == 2 {
                if valid_utf8(topic) {
                    ParseOutcome::Publish { topic, payload: tail }
                } else {
                    ParseOutcome::InvalidUtf8
                }
            } else {
                if valid_utf8(topic) && valid_utf8(tail) {
                    ParseOutcome::QueueSubscribe { topic, group: tail }
                } else {
                    ParseOutcome::InvalidUtf8
                }
            }
        }
    }
}

/// What parsing `raw` gives, by the frame format.
pub open spec fn parse_outcome(raw: Seq<u8>) -> ParseOutcome {
    let body = frame_body(raw);
    if body.len() == 0 {
        ParseOutcome::EmptyFrame
    } else {
        let kind = body[0];
        let rest = body.skip(1);
        if kind == 1 {
            if valid_utf8(rest) {
                ParseOutcome::Subscribe { topic: rest }
            } else {
                ParseOutcome::InvalidUtf8
            }
        } else if kind == 2 || kind == 3 {
            parse_two_field(kind, rest)
        } else {
            ParseOutcome::UnknownMessageType(kind)
        }
    }
}

/// The outcome that an executable parse result stands for.
pub open spec fn outcome_of(r: Result<Frame, ProtocolError>) -> ParseOutcome {
    match r {
        Ok(Frame::Subscribe { topic }) => ParseOutcome::Subscribe { topic: topic@ },
        Ok(Frame::Publish { topic, payload }) => ParseOutcome::Publish {
            topic: topic@,
            payload: payload@,
        },
        Ok(Frame::QueueSubscribe { topic, group }) => ParseOutcome::QueueSubscribe {
            topic: topic@,
            group: group@,
        },
        Err(ProtocolError::UnknownMessageType(t)) => ParseOutcome::UnknownMessageType(t),
        Err(ProtocolError::PublishTooShort) => ParseOutcome::PublishTooShort,
        Err(ProtocolError::TopicLenOverflow(a, b)) => ParseOutcome::TopicLenOverflow(
            a as nat,
            b as nat,
        ),
        Err(ProtocolError::InvalidUtf8(_)) => ParseOutcome::InvalidUtf8,
        Err(ProtocolError::EmptyFrame) => ParseOutcome::EmptyFrame,
    }
}

/// Checks a byte string with `std::str::from_utf8`.
/// Trusted: std documents that `from_utf8` succeeds exactly on valid UTF-8,
/// which is what `vstd::utf8::valid_utf8` defines; the error value itself is
/// left unspecified.
#[verifier::external_body]
fn check_utf8(bytes: &[u8]) -> (r: Result<(), Utf8Error>)
    ensures
        r is Ok <==> valid_utf8(bytes@),
{
    match core::str::from_utf8(bytes) {
        Ok(_) => Ok(()),
        Err(e) => Err(e),
    }
}

/// The bytes `v[lo..hi]` as a new vector.
pub fn copy_range(v: &Vec<u8>, lo: usize, hi: usize) -> (r: Vec<u8>)
    requires
        lo <= hi <= v.len(),
    ensures
        r@ == v@.subrange(lo as int, hi as int),
{
    let mut r: Vec<u8> = Vec::new();
    let mut i: usize = lo;
    while i < hi
        invariant
            lo <= i <= hi,
            hi <= v.len(),
            r@ == v@.subrange(lo as int, i as int),
        decreases hi - i,
    {
        r.push(v[i]);
        i = i + 1;
    }
    r
}

/// Appends all of `src` to `buf`.
fn push_all(buf: &mut Vec<u8>, src: &[u8])
    ensures
        final(buf)@ == old(buf)@ + src@,
{
    let mut i: usize = 0;
    while i < src.len()
        invariant
            i <= src@.len(),
            buf@ == old(buf)@ + src@.take(i as int),
        decreases src@.len() - i,
    {
        buf.push(src[i]);
        i = i + 1;
        assert(src@.take(i as int) == src@.take((i - 1) as int).push(src@[i - 1]));
    }
    assert(src@.take(src@.len() as int) == src@);
}

/// Appends the big-endian bytes of `x`.
fn push_be_u32(buf: &mut Vec<u8>, x: u32)
    ensures
        final(buf)@ == old(buf)@ + be_u32_bytes(x),
{
    buf.push((x / 16777216) as u8);
    buf.push(((x / 65536) % 256) as u8);
    buf.push(((x / 256) % 256) as u8);
    buf.push((x % 256) as u8);
    assert(buf@ == old(buf)@ + be_u32_bytes(x));
}

/// Appends the big-endian bytes of `x`.
fn push_be_u16(buf: &mut Vec<u8>, x: u16)
    ensures
        final(buf)@ == old(buf)@ + be_u16_bytes(x),
{
    buf.push((x / 256) as u8);
    buf.push((x % 256) as u8);
    assert(buf@ == old(buf)@ + be_u16_bytes(x));
}

impl Frame {
    /// Parses a frame body, optionally preceded by its 4-byte length prefix.
    pub fn parse(raw: Vec<u8>) -> (r: Result<Frame, ProtocolError>)
        ensures
            outcome_of(r) == parse_outcome(raw@),
    {
        let n = raw.len();
        let mut start: usize = 0;
        if n >= 4 {
            let length_prefix: u64 = (raw[0] as u64) * 16777216 + (raw[1] as u64) * 65536
                + (raw[2] as u64) * 256 + (raw[3] as u64);
            if length_prefix == (n - 4) as u64 {
                start = 4;
            }
        }
        let ghost body = frame_body(raw@);
        assert(body == raw@.skip(start as int));
        if start == n {
            return Err(ProtocolError::EmptyFrame);
        }
        let msg_type = raw[start];
        let rest_start = start + 1;
        assert(body.skip(1) == raw@.skip(rest_start as int));
        if msg_type == 1 {
            let topic = copy_range(&raw, rest_start, n);
            assert(topic@ == raw@.skip(rest_start as int));
            match check_utf8(topic.as_slice()) {
                Ok(()) => Ok(Frame::Subscribe { topic }),
                Err(e) => Err(ProtocolError::InvalidUtf8(e)),
            }
        } else if msg_type == 2 || msg_type == 3 {
            if n - rest_start < 2 {
                return Err(ProtocolError::PublishTooShort);
            }
            let topic_len: usize = (raw[rest_start] as usize) * 256 + (raw[rest_start + 1] as usize);
            let after = rest_start + 2;
            let remaining = n - after;
            assert(raw@.skip(rest_start as int).skip(2) == raw@.skip(after as int));
            if topic_len > remaining {
                return Err(ProtocolError::TopicLenOverflow(topic_len, remaining));
            }
            let topic = copy_range(&raw, after, after + topic_len);
            let tail = copy_range(&raw, after + topic_len, n);
            assert(topic@ == raw@.skip(after as int).take(topic_len as int));
            assert(tail@ == raw@.skip(after as int).skip(topic_len as int));
            match check_utf8(topic.as_slice()) {
                Ok(()) => {},
                Err(e) => {
                    return Err(ProtocolError::InvalidUtf8(e));
                },
            }
            if msg_type == 2 {
                Ok(Frame::Publish { topic, payload: tail })
            } else {
                match check_utf8(tail.as_slice()) {
                    Ok(()) => Ok(Frame::QueueSubscribe { topic, group: tail }),
                    Err(e) => Err(ProtocolError::InvalidUtf8(e)),
                }
            }
        } else {
            Err(ProtocolError::UnknownMessageType(msg_type))
        }
    }

    /// The topic the frame is about.
    pub fn topic(&self) -> (r: &Vec<u8>)
        ensures
            r@ == self.topic_spec(),
    {
        match self {
            Frame::Subscribe { topic } => topic,
            Frame::Publish { topic, .. } => topic,
            Frame::QueueSubscribe { topic, .. } => topic,
        }
    }

    /// The topic field of every variant.
    pub open spec fn topic_spec(&self) -> Seq<u8> {
        match self {
            Frame::Subscribe { topic } => topic@,
            Frame::Publish { topic, .. } => topic@,
            Frame::QueueSubscribe { topic, .. } => topic@,
        }
    }
}

/// Wire bytes of a subscribe frame, length prefix included.
pub open spec fn subscribe_bytes(topic: Seq<u8>) -> Seq<u8> {
    be_u32_bytes((1 + topic.len()) as u32) + seq![1u8] + topic
}

/// Wire bytes of a publish frame, length prefix included.
pub open spec fn publish_bytes(topic: Seq<u8>, message: Seq<u8>) -> Seq<u8> {
    be_u32_bytes((3 + topic.len() + message.len()) as u32) + seq![2u8] + be_u16_bytes(
        topic.len() as u16,
    ) + topic + message
}

/// Wire bytes of a queue-subscribe frame, length prefix included.
pub open spec fn queue_subscribe_bytes(topic: Seq<u8>, group: Seq<u8>) -> Seq<u8> {
    be_u32_bytes((3 + topic.len() + group.len()) as u32) + seq![3u8] + be_u16_bytes(
        topic.len() as u16,
    ) + topic + group
}

/// Encodes a subscribe frame for `topic`, with its length prefix.
/// The length field is the body length modulo 2^32 (its low 32 bits).
pub fn encode_subscribe(topic: &str) -> (r: Vec<u8>)
    requires
        topic.spec_bytes().len() + 5 <= usize::MAX,
    ensures
        r@ == subscribe_bytes(topic.spec_bytes()),
{
    let topic_bytes = topic.as_bytes();
    let length = 1 + topic_bytes.len();
    let mut buf: Vec<u8> = Vec::with_capacity(4 + length);
    push_be_u32(&mut buf, length as u32);
    buf.push(1u8);
    push_all(&mut buf, topic_bytes);
    buf
}

/// Encodes a publish frame for `topic` carrying `message`, with its length prefix.
/// The length field is the body length modulo 2^32 and the topic-length field
/// the topic's length modulo 2^16 (the low bits that fit each field).
pub fn encode_publish(topic: &str, message: &[u8]) -> (r: Vec<u8>)
    requires
        topic.spec_bytes().len() + message@.len() + 7 <= usize::MAX,
    ensures
        r@ == publish_bytes(topic.spec_bytes(), message@),
{
    let topic_bytes = topic.as_bytes();
    let length = 1 + 2 + topic_bytes.len() + message.len();
    let mut buf: Vec<u8> = Vec::with_capacity(4 + length);
    push_be_u32(&mut buf, length as u32);
    buf.push(2u8);
    push_be_u16(&mut buf, topic_bytes.len() as u16);
    push_all(&mut buf, topic_bytes);
    push_all(&mut buf, message);
    buf
}

/// Encodes a queue-subscribe frame (join `group` on `topic`), with its length prefix.
pub fn encode_queue_subscribe(topic: &str, group: &str) -> (r: Vec<u8>)
    requires
        topic.spec_bytes().len() + group.spec_bytes().len() + 7 <= usize::MAX,
    ensures
        r@ == queue_subscribe_bytes(topic.spec_bytes(), group.spec_bytes()),
{
    let topic_bytes = topic.as_bytes();
    let group_bytes = group.as_bytes();
    let length = 1 + 2 + topic_bytes.len() + group_bytes.len();
    let mut buf: Vec<u8> = Vec::with_capacity(4 + length);
    push_be_u32(&mut buf, length as u32);
    buf.push(3u8);
    push_be_u16(&mut buf, topic_bytes.len() as u16);
    push_all(&mut buf, topic_bytes);
    push_all(&mut buf, group_bytes);
    buf
}

/// Reading back the big-endian bytes of a `u32` gives the number.
pub proof fn lemma_be_u32_roundtrip(x: u32)
    ensures
        be_u32_bytes(x).len() == 4,
        be_u32_value(be_u32_bytes(x)) == x,
{
}

/// Reading back the big-endian bytes of a `u16` gives the number.
pub proof fn lemma_be_u16_roundtrip(x: u16)
    ensures
        be_u16_bytes(x).len() == 2,
        be_u16_value(be_u16_bytes(x)[0], be_u16_bytes(x)[1]) == x,
{
}

/// A body whose type byte is at least 1 and whose length is at most
/// `MAX_FRAME_BYTES` is never mistaken for a length-prefixed frame.
proof fn lemma_short_body_has_no_prefix(body: Seq<u8>)
    requires
        body.len() >= 1,
        body[0] >= 1,
        body.len() <= MAX_FRAME_BYTES,
    ensures
        frame_body(body) == body,
{
    if body.len() >= 4 {
        assert(be_u32_value(body) >= 16777216);
    }
}

/// The length prefix written by the encoders is recognised and removed.
proof fn lemma_prefix_removed(len: nat, body: Seq<u8>)
    requires
        len == body.len(),
        len <= u32::MAX,
    ensures
        frame_body(be_u32_bytes(len as u32) + body) == body,
{
    let raw = be_u32_bytes(len as u32) + body;
    lemma_be_u32_roundtrip(len as u32);
    assert(raw[0] == be_u32_bytes(len as u32)[0]);
    assert(raw[1] == be_u32_bytes(len as u32)[1]);
    assert(raw[2] == be_u32_bytes(len as u32)[2]);
    assert(raw[3] == be_u32_bytes(len as u32)[3]);
    assert(be_u32_value(raw) == len);
    assert(raw.skip(4) =~= body);
}

/// The two-field part of a publish or queue-subscribe body parses back to its fields.
proof fn lemma_two_field_roundtrip(kind: u8, topic: Seq<u8>, tail: Seq<u8>)
    requires
        kind == 2 || kind == 3,
        topic.len() <= u16::MAX,
        valid_utf8(topic),
        kind == 3 ==> valid_utf8(tail),
    ensures
        parse_two_field(kind, be_u16_bytes(topic.len() as u16) + topic + tail) == (if kind == 2 {
            ParseOutcome::Publish { topic, payload: tail }
        } else {
            ParseOutcome::QueueSubscribe { topic, group: tail }
        }),
{
    let rest = be_u16_bytes(topic.len() as u16) + topic + tail;
    lemma_be_u16_roundtrip(topic.len() as u16);
    assert(rest[0] == be_u16_bytes(topic.len() as u16)[0]);
    assert(rest[1] == be_u16_bytes(topic.len() as u16)[1]);
    assert(rest.skip(2) =~= topic + tail);
    assert((topic + tail).take(topic.len() as int) =~= topic);
    assert((topic + tail).skip(topic.len() as int) =~= tail);
}

/// Parsing a raw frame whose body starts with type byte 2 or 3 is parsing its two fields.
proof fn lemma_outcome_of_two_field_body(raw: Seq<u8>, body: Seq<u8>)
    requires
        frame_body(raw) == body,
        body.len() >= 1,
        body[0] == 2 || body[0] == 3,
    ensures
        parse_outcome(raw) == parse_two_field(body[0], body.skip(1)),
{
}

/// Roundtrip law for subscribe frames: the bytes written by `encode_subscribe`
/// parse back to the same topic, both as written (with the length prefix) and
/// without the prefix (as a WebSocket message carries them) when the body fits
/// in `MAX_FRAME_BYTES`.
pub proof fn lemma_subscribe_roundtrip(topic: Seq<u8>)
    requires
        valid_utf8(topic),
        topic.len() + 1 <= u32::MAX,
    ensures
        parse_outcome(subscribe_bytes(topic)) == (ParseOutcome::Subscribe { topic }),
        topic.len() + 1 <= MAX_FRAME_BYTES ==> parse_outcome(subscribe_bytes(topic).skip(4))
            == (ParseOutcome::Subscribe { topic }),
{
    let body = seq![1u8] + topic;
    assert(subscribe_bytes(topic) =~= be_u32_bytes((1 + topic.len()) as u32) + body);
    lemma_prefix_removed(body.len(), body);
    assert(body.skip(1) =~= topic);
    assert(subscribe_bytes(topic).skip(4) =~= body);
    if topic.len() + 1 <= MAX_FRAME_BYTES {
        lemma_short_body_has_no_prefix(body);
    }
}

/// Roundtrip law for publish frames: the bytes written by `encode_publish`
/// parse back to the same topic and payload, with the length prefix and,
/// when the body fits in `MAX_FRAME_BYTES`, without it. The topic length must
/// fit the 16-bit field.
pub proof fn lemma_publish_roundtrip(topic: Seq<u8>, message: Seq<u8>)
    requires
        valid_utf8(topic),
        topic.len() <= u16::MAX,
        topic.len() + message.len() + 3 <= u32::MAX,
    ensures
        parse_outcome(publish_bytes(topic, message)) == (ParseOutcome::Publish {
            topic,
            payload: message,
        }),
        topic.len() + message.len() + 3 <= MAX_FRAME_BYTES ==> parse_outcome(
            publish_bytes(topic, message).skip(4),
        ) == (ParseOutcome::Publish { topic, payload: message }),
{
    let rest = be_u16_bytes(topic.len() as u16) + topic + message;
    let body = seq![2u8] + rest;
    assert(publish_bytes(topic, message) =~= be_u32_bytes(
        (3 + topic.len() + message.len()) as u32,
    ) + body);
    lemma_prefix_removed(body.len(), body);
    assert(body.skip(1) =~= rest);
    assert(body[0] == 2u8);
    lemma_two_field_roundtrip(2, topic, message);
    lemma_outcome_of_two_field_body(publish_bytes(topic, message), body);
    assert(publish_bytes(topic, message).skip(4) =~= body);
    if topic.len() + message.len() + 3 <= MAX_FRAME_BYTES {
        lemma_short_body_has_no_prefix(body);
        lemma_outcome_of_two_field_body(body, body);
    }
}

/// Roundtrip law for queue-subscribe frames: the bytes written by
/// `encode_queue_subscribe` parse back to the same topic and group, with the
/// length prefix and, when the body fits in `MAX_FRAME_BYTES`, without it.
#[verifier::spinoff_prover]
#[verifier::rlimit(40)]
pub proof fn lemma_queue_subscribe_roundtrip(topic: Seq<u8>, group: Seq<u8>)
    requires
        valid_utf8(topic),
        valid_utf8(group),
        topic.len() <= u16::MAX,
        topic.len() + group.len() + 3 <= u32::MAX,
    ensures
        parse_outcome(queue_subscribe_bytes(topic, group)) == (ParseOutcome::QueueSubscribe {
            topic,
            group,
        }),
        topic.len() + group.len() + 3 <= MAX_FRAME_BYTES ==> parse_outcome(
            queue_subscribe_bytes(topic, group).skip(4),
        ) == (ParseOutcome::QueueSubscribe { topic, group }),
{
    let rest = be_u16_bytes(topic.len() as u16) + topic + group;
    let body = seq![3u8] + rest;
    assert(queue_subscribe_bytes(topic, group) =~= be_u32_bytes(
        (3 + topic.len() + group.len()) as u32,
    ) + body);
    lemma_prefix_removed(body.len(), body);
    assert(body.skip(1) =~= rest);
    assert(body[0] == 3u8);
    lemma_two_field_roundtrip(3, topic, group);
    lemma_outcome_of_two_field_body(queue_subscribe_bytes(topic, group), body);
    assert(queue_subscribe_bytes(topic, group).skip(4) =~= body);
    if topic.len() + group.len() + 3 <= MAX_FRAME_BYTES {
        lemma_short_body_has_no_prefix(body);
        lemma_outcome_of_two_field_body(body, body);
    }
}

} // verus!
