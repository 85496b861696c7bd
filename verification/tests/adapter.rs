use switchboard::llm::adapter::{
    encode_publish, encode_subscribe, AdapterError, KvHeader, LagPolicy, LogitsHeader,
    TokensHeader, Topic, MAX_CLIENT_FRAME_BYTES, OP_PUBLISH, OP_SUBSCRIBE,
};
use switchboard::protocol::Frame;

#[test]
fn topic_names() {
    assert_eq!(Topic::PromptIn.as_str(), "prompt.in");
    assert_eq!(Topic::TokensOut.as_str(), "tokens.out");
    assert_eq!(Topic::ModelLogits.as_str(), "model.logits");
    assert_eq!(Topic::ModelNextToken.as_str(), "model.next_token");
    assert_eq!(Topic::StreamText.as_str(), "stream.text");
    assert_eq!(Topic::KvUpdate.as_str(), "kv.update");
    assert_eq!(Topic::Metrics.as_str(), "metrics");
}

#[test]
fn only_kv_update_must_not_lag() {
    assert_eq!(Topic::KvUpdate.lag_policy(), LagPolicy::MustNotLag);
    for t in [
        Topic::PromptIn,
        Topic::TokensOut,
        Topic::ModelLogits,
        Topic::ModelNextToken,
        Topic::StreamText,
        Topic::Metrics,
    ] {
        assert_eq!(t.lag_policy(), LagPolicy::DropOldestOk);
    }
}

#[test]
fn adapter_publish_frame_bytes() {
    let frame = encode_publish("tokens.out", vec![1, 2, 3]).unwrap();
    let mut expected = vec![OP_PUBLISH, 0, 10];
    expected.extend_from_slice(b"tokens.out");
    expected.extend_from_slice(&[1, 2, 3]);
    assert_eq!(frame, expected);
}

#[test]
fn adapter_subscribe_frame_bytes() {
    let frame = encode_subscribe("metrics");
    let mut expected = vec![OP_SUBSCRIBE];
    expected.extend_from_slice(b"metrics");
    assert_eq!(frame, expected);
}

#[test]
fn adapter_frames_parse_on_the_broker() {
    match Frame::parse(encode_publish("stream.text", b"hi".to_vec()).unwrap()).unwrap() {
        Frame::Publish { topic, payload } => {
            assert_eq!(topic, b"stream.text".to_vec());
            assert_eq!(payload, b"hi".to_vec());
        }
        _ => panic!("expected Publish"),
    }
    match Frame::parse(encode_subscribe("kv.update")).unwrap() {
        Frame::Subscribe { topic } => assert_eq!(topic, b"kv.update".to_vec()),
        _ => panic!("expected Subscribe"),
    }
}

#[test]
fn oversized_publish_is_refused_with_its_size() {
    let payload = vec![0u8; MAX_CLIENT_FRAME_BYTES - 3];
    match encode_publish("t", payload) {
        Err(AdapterError::FrameTooLarge(n)) => assert_eq!(n, MAX_CLIENT_FRAME_BYTES + 1),
        _ => panic!("expected FrameTooLarge"),
    }
    let payload = vec![0u8; MAX_CLIENT_FRAME_BYTES - 4];
    assert!(encode_publish("t", payload).is_ok());
}

#[test]
fn headers_hold_their_fields() {
    let t = TokensHeader { seq_id: 7, length: 1, dtype: 0 };
    let l = LogitsHeader { seq_id: 8, vocab_size: 32000, dtype: 1 };
    let k = KvHeader { layer: 2, head: 3, seq_start: 4, seq_len: 5, dtype: 2 };
    assert_eq!({ t.seq_id }, 7);
    assert_eq!({ l.vocab_size }, 32000);
    assert_eq!({ k.seq_len }, 5);
}
