use switchboard::transport::shm::{PollOutcome, SHMRing, SHMSubscriber, SHMTransport};
use switchboard::transport::TransportError;

#[test]
fn shm_ring_basic_write_read() {
    let topic = b"test.topic".to_vec();
    let mut ring = SHMRing::new(10, &topic);

    let payload = b"hello".to_vec();
    let seq = ring.try_write(payload.clone()).unwrap();

    assert_eq!(seq, 0);
    assert_eq!(ring.head(), 1);
}

#[test]
fn shm_ring_capacity_check() {
    let topic = b"test.topic".to_vec();
    let mut ring = SHMRing::new(2, &topic);

    let p1 = b"msg1".to_vec();
    let p2 = b"msg2".to_vec();

    ring.try_write(p1).unwrap();
    assert_eq!(ring.head(), 1);

    let result = ring.try_write(p2);

    assert!(matches!(result, Err(TransportError::RingFull)));
}

#[test]
fn refused_write_still_takes_a_sequence_number() {
    let mut ring = SHMRing::new(2, b"t");
    ring.try_write(b"a".to_vec()).unwrap();
    assert!(ring.try_write(b"b".to_vec()).is_err());
    assert_eq!(ring.head(), 2);
    assert_eq!(ring.tail(), 0);
    assert_eq!(ring.capacity(), 2);
    assert_eq!(ring.topic(), &b"t".to_vec());
}

#[test]
fn subscriber_reads_what_was_written() {
    let mut ring = SHMRing::new(4, b"t");
    let mut sub = SHMSubscriber::new(&ring);
    assert_eq!(sub.cursor(), 0);
    assert!(matches!(sub.poll_next(&mut ring), PollOutcome::Pending(0)));
    ring.try_write(b"one".to_vec()).unwrap();
    ring.try_write(b"two".to_vec()).unwrap();
    match sub.poll_next(&mut ring) {
        PollOutcome::Ready(m) => assert_eq!(m, b"one".to_vec()),
        PollOutcome::Pending(_) => panic!("expected a message"),
    }
    assert_eq!(ring.tail(), 1);
    match sub.poll_next(&mut ring) {
        PollOutcome::Ready(m) => assert_eq!(m, b"two".to_vec()),
        PollOutcome::Pending(_) => panic!("expected a message"),
    }
    assert_eq!(sub.cursor(), 2);
    assert!(matches!(sub.poll_next(&mut ring), PollOutcome::Pending(2)));
}

#[test]
fn slot_of_wraps_around_capacity() {
    let ring = SHMRing::new(3, b"t");
    assert_eq!(ring.slot_of(0), 0);
    assert_eq!(ring.slot_of(4), 1);
}

#[test]
fn shm_transport_publish_then_poll() {
    let mut transport = SHMTransport::new(10);
    let (ring, mut sub) = transport.subscribe(b"test.topic");
    assert!(transport.has_topic(b"test.topic"));
    assert!(!transport.has_topic(b"other"));
    let seq = transport.publish(b"test.topic", b"test message".to_vec()).unwrap();
    assert_eq!(seq, 0);
    match transport.poll(ring, &mut sub) {
        PollOutcome::Ready(m) => assert_eq!(m, b"test message".to_vec()),
        PollOutcome::Pending(_) => panic!("expected a message"),
    }
}

#[test]
fn transport_creates_ring_on_first_publish() {
    let mut transport = SHMTransport::new(2);
    assert!(!transport.has_topic(b"x"));
    assert_eq!(transport.publish(b"x", b"1".to_vec()).unwrap(), 0);
    assert!(transport.has_topic(b"x"));
    assert!(matches!(
        transport.publish(b"x", b"2".to_vec()),
        Err(TransportError::RingFull)
    ));
}

#[test]
fn transport_error_messages() {
    assert_eq!(TransportError::RingFull.message(), "shared memory ring is full");
    assert_eq!(TransportError::NotAvailable.message(), "transport not available");
    assert_eq!(
        TransportError::IoError("disk".to_string()).message(),
        "transport IO error: disk"
    );
    assert_eq!(TransportError::TopicNotFound.message(), "topic not found in transport");
}

#[test]
fn shm_transport_subscribe_publish() {
    let mut transport = SHMTransport::new(10);
    let topic = b"test.topic".to_vec();
    let (ring, mut sub) = transport.subscribe(&topic);
    let msg = b"test message".to_vec();
    transport.publish(&topic, msg.clone()).unwrap();
    match transport.poll(ring, &mut sub) {
        PollOutcome::Ready(received) => assert_eq!(received, msg),
        PollOutcome::Pending(_) => panic!("expected the message"),
    }
}
