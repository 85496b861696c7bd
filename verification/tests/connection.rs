use switchboard::connection::{
    frame_length, publish_header, ws_message_accepted, FrameLengthError, MAX_WS_FRAME_BYTES,
};
use switchboard::protocol::{encode_publish, Frame};

#[test]
fn frame_length_reads_big_endian() {
    assert_eq!(frame_length([0, 0, 1, 2]), Ok(258));
    assert_eq!(frame_length([0, 0, 0, 1]), Ok(1));
    assert_eq!(frame_length([1, 0, 0, 0]), Ok(16 * 1024 * 1024));
}

#[test]
fn frame_length_rejects_zero() {
    assert_eq!(frame_length([0, 0, 0, 0]), Err(FrameLengthError::ZeroLength));
}

#[test]
fn frame_length_rejects_oversized() {
    assert_eq!(
        frame_length([1, 0, 0, 1]),
        Err(FrameLengthError::TooLarge(16 * 1024 * 1024 + 1))
    );
    assert_eq!(
        frame_length([0xFF, 0xFF, 0xFF, 0xFF]),
        Err(FrameLengthError::TooLarge(u32::MAX))
    );
}

#[test]
fn publish_header_then_payload_is_a_publish_frame() {
    let mut frame = publish_header(b"news", 3);
    assert_eq!(frame, vec![0, 0, 0, 10, 2, 0, 4, b'n', b'e', b'w', b's']);
    frame.extend_from_slice(b"abc");
    assert_eq!(frame, encode_publish("news", b"abc"));
    match Frame::parse(frame).unwrap() {
        Frame::Publish { topic, payload } => {
            assert_eq!(topic, b"news".to_vec());
            assert_eq!(payload, b"abc".to_vec());
        }
        _ => panic!("expected Publish"),
    }
}

#[test]
fn websocket_message_limit() {
    assert!(!ws_message_accepted(0));
    assert!(ws_message_accepted(1));
    assert!(ws_message_accepted(MAX_WS_FRAME_BYTES));
    assert!(!ws_message_accepted(MAX_WS_FRAME_BYTES + 1));
}
