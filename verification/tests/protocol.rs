use switchboard::protocol::{
    encode_publish, encode_queue_subscribe, encode_subscribe, Frame, ProtocolError,
    MAX_FRAME_BYTES,
};

#[test]
fn roundtrip_subscribe() {
    let encoded = encode_subscribe("telemetry");
    let raw = encoded[4..].to_vec();
    let frame = Frame::parse(raw).unwrap();
    match frame {
        Frame::Subscribe { topic } => {
            assert_eq!(&topic[..], b"telemetry");
        }
        _ => panic!("expected Subscribe"),
    }
}

#[test]
fn roundtrip_publish() {
    let msg = b"hello world";
    let encoded = encode_publish("telemetry", msg);
    let raw = encoded[4..].to_vec();
    let frame = Frame::parse(raw).unwrap();
    match frame {
        Frame::Publish { topic, payload } => {
            assert_eq!(&topic[..], b"telemetry");
            assert_eq!(&payload[..], b"hello world");
        }
        _ => panic!("expected Publish"),
    }
}

#[test]
fn parse_prefixed_publish() {
    let encoded = encode_publish("telemetry", b"hello world");
    let raw = encoded;
    let frame = Frame::parse(raw).unwrap();
    match frame {
        Frame::Publish { topic, payload } => {
            assert_eq!(&topic[..], b"telemetry");
            assert_eq!(&payload[..], b"hello world");
        }
        _ => panic!("expected Publish"),
    }
}

#[test]
fn unknown_type_is_error() {
    let raw = vec![0xFF, 0x01, 0x02];
    assert!(matches!(
        Frame::parse(raw),
        Err(ProtocolError::UnknownMessageType(0xFF))
    ));
}

#[test]
fn publish_too_short_is_error() {
    let raw = vec![0x02];
    assert!(matches!(Frame::parse(raw), Err(ProtocolError::PublishTooShort)));
}

#[test]
fn roundtrip_queue_subscribe() {
    let encoded = encode_queue_subscribe("tasks", "workers");
    let raw = encoded[4..].to_vec();
    let frame = Frame::parse(raw).unwrap();
    match frame {
        Frame::QueueSubscribe { topic, group } => {
            assert_eq!(&topic[..], b"tasks");
            assert_eq!(&group[..], b"workers");
        }
        _ => panic!("expected QueueSubscribe"),
    }
}

#[test]
fn queue_subscribe_with_prefix() {
    let encoded = encode_queue_subscribe("images", "gpu_cluster");
    let raw = encoded;
    let frame = Frame::parse(raw).unwrap();
    match frame {
        Frame::QueueSubscribe { topic, group } => {
            assert_eq!(&topic[..], b"images");
            assert_eq!(&group[..], b"gpu_cluster");
        }
        _ => panic!("expected QueueSubscribe"),
    }
}

#[test]
fn encode_subscribe_exact_bytes() {
    assert_eq!(encode_subscribe("ab"), vec![0, 0, 0, 3, 1, b'a', b'b']);
}

#[test]
fn encode_publish_exact_bytes() {
    assert_eq!(
        encode_publish("t", b"xy"),
        vec![0, 0, 0, 6, 2, 0, 1, b't', b'x', b'y']
    );
}

#[test]
fn encode_queue_subscribe_exact_bytes() {
    assert_eq!(
        encode_queue_subscribe("t", "g"),
        vec![0, 0, 0, 5, 3, 0, 1, b't', b'g']
    );
}

#[test]
fn empty_frame_is_error() {
    assert!(matches!(Frame::parse(vec![]), Err(ProtocolError::EmptyFrame)));
    // A prefix announcing an empty body leaves nothing to parse.
    assert!(matches!(
        Frame::parse(vec![0, 0, 0, 0]),
        Err(ProtocolError::EmptyFrame)
    ));
}

#[test]
fn topic_len_overflow_reports_both_lengths() {
    let raw = vec![0x02, 0x00, 0x05, b'a', b'b'];
    assert!(matches!(
        Frame::parse(raw),
        Err(ProtocolError::TopicLenOverflow(5, 2))
    ));
}

#[test]
fn queue_subscribe_too_short_is_error() {
    assert!(matches!(
        Frame::parse(vec![0x03, 0x00]),
        Err(ProtocolError::PublishTooShort)
    ));
}

#[test]
fn invalid_utf8_topic_is_error() {
    assert!(matches!(
        Frame::parse(vec![0x01, 0xFF, 0xFE]),
        Err(ProtocolError::InvalidUtf8(_))
    ));
    assert!(matches!(
        Frame::parse(vec![0x02, 0x00, 0x01, 0xFF, b'p']),
        Err(ProtocolError::InvalidUtf8(_))
    ));
}

#[test]
fn invalid_utf8_group_is_error() {
    assert!(matches!(
        Frame::parse(vec![0x03, 0x00, 0x01, b't', 0xC0]),
        Err(ProtocolError::InvalidUtf8(_))
    ));
}

#[test]
fn publish_payload_may_be_binary() {
    let frame = Frame::parse(vec![0x02, 0x00, 0x01, b't', 0xFF, 0x00]).unwrap();
    match frame {
        Frame::Publish { topic, payload } => {
            assert_eq!(topic, b"t".to_vec());
            assert_eq!(payload, vec![0xFF, 0x00]);
        }
        _ => panic!("expected Publish"),
    }
}

#[test]
fn prefix_not_matching_length_is_part_of_body() {
    // The first four bytes do not announce the length of the rest, so the
    // whole input is the body and its first byte is the type.
    assert!(matches!(
        Frame::parse(vec![0x09, 0, 0, 1, 0x01]),
        Err(ProtocolError::UnknownMessageType(0x09))
    ));
}

#[test]
fn frame_topic_of_each_variant() {
    let f = Frame::parse(encode_subscribe("a.b")).unwrap();
    assert_eq!(f.topic(), &b"a.b".to_vec());
    let f = Frame::parse(encode_publish("c", b"x")).unwrap();
    assert_eq!(f.topic(), &b"c".to_vec());
    let f = Frame::parse(encode_queue_subscribe("d", "g")).unwrap();
    assert_eq!(f.topic(), &b"d".to_vec());
}

#[test]
fn max_frame_bytes_is_sixteen_mebibytes() {
    assert_eq!(MAX_FRAME_BYTES, 16 * 1024 * 1024);
}

#[test]
fn bytes_clone_is_zero_copy() {
    // Payloads are held in `Vec<u8>` here, so a clone copies them; what
    // carries over is that the clone holds the same payload.
    let msg = b"payload data";
    let encoded = encode_publish("t", msg);
    let raw = encoded[4..].to_vec();

    let frame = Frame::parse(raw).unwrap();
    let clone = frame.clone();

    match (frame, clone) {
        (Frame::Publish { payload: p1, .. }, Frame::Publish { payload: p2, .. }) => {
            assert_eq!(p1, p2);
            assert_eq!(&p1[..], b"payload data");
        }
        _ => panic!("expected Publish"),
    }
}
