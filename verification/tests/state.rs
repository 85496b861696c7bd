use switchboard::state::{ConnectionState, MessageState};

#[test]
fn connection_state_transitions() {
    let s = ConnectionState::Handshake;
    let s = s.on_first_frame();
    assert_eq!(s, ConnectionState::Ready);

    let s = s.close();
    assert_eq!(s, ConnectionState::Closed);

    let s = s.on_first_frame();
    assert_eq!(s, ConnectionState::Closed);
}

#[test]
fn message_state_transitions() {
    let s = MessageState::Parsed;
    let s = s.on_routed();
    assert_eq!(s, MessageState::Routed);

    let s = s.on_delivered();
    assert_eq!(s, MessageState::Delivered);
}

#[test]
fn ready_connection_stays_ready_on_frames() {
    let s = ConnectionState::Ready.on_first_frame();
    assert_eq!(s, ConnectionState::Ready);
    assert!(s.is_ready());
    assert!(!s.is_closed());
}

#[test]
fn closed_is_absorbing() {
    let s = ConnectionState::Handshake.close();
    assert!(s.is_closed());
    assert!(!s.is_ready());
    assert_eq!(s.on_first_frame().close(), ConnectionState::Closed);
}

#[test]
fn message_state_never_goes_back() {
    assert_eq!(MessageState::Delivered.on_routed(), MessageState::Delivered);
    assert_eq!(MessageState::Parsed.on_delivered(), MessageState::Parsed);
    assert_eq!(MessageState::Routed.on_routed(), MessageState::Routed);
    assert_eq!(MessageState::Delivered.on_delivered(), MessageState::Delivered);
}
