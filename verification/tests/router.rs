use switchboard::router::{ConsumerGroup, PublishResult, Router, CHANNEL_CAPACITY};
use switchboard::state::MessageState;

fn targets(plan: &Option<Vec<(Vec<u8>, Option<usize>)>>) -> Vec<Option<usize>> {
    plan.as_ref().unwrap().iter().map(|(_, w)| *w).collect()
}

#[test]
fn subscribe_creates_topic_once() {
    let mut router = Router::new();
    assert!(router.subscribe(b"a"));
    assert!(router.subscribe(b"b"));
    assert!(!router.subscribe(b"a"));
    assert_eq!(router.topic_count(), 2);
}

#[test]
fn publish_to_unknown_topic_plans_nothing() {
    let mut router = Router::new();
    assert!(router.publish(b"ghost").is_none());
    assert_eq!(router.topic_count(), 0);
}

#[test]
fn binary_topic_is_accepted() {
    let mut router = Router::new();
    let topic = [0xFFu8, 0xFE, 0x00];
    assert!(router.subscribe(&topic));
    let plan = router.publish(&topic).unwrap();
    assert!(plan.is_empty());
}

#[test]
fn worker_ids_are_consecutive_per_group() {
    let mut router = Router::new();
    assert_eq!(router.queue_subscribe(b"images", b"gpu_cluster"), 0);
    assert_eq!(router.queue_subscribe(b"images", b"gpu_cluster"), 1);
    assert_eq!(router.queue_subscribe(b"images", b"gpu_cluster"), 2);
    assert_eq!(router.queue_subscribe(b"images", b"cpu"), 0);
    assert_eq!(router.group_count(b"images"), 2);
    assert_eq!(router.group_count(b"unknown"), 0);
}

#[test]
fn round_robin_over_three_workers() {
    let mut router = Router::new();
    for _ in 0..3 {
        router.queue_subscribe(b"images", b"gpu_cluster");
    }
    let mut got = Vec::new();
    for _ in 0..6 {
        let plan = router.publish(b"images");
        got.push(targets(&plan)[0].unwrap());
    }
    assert_eq!(got, vec![0, 1, 2, 0, 1, 2]);
}

#[test]
fn groups_advance_independently() {
    let mut router = Router::new();
    router.queue_subscribe(b"orders", b"group_a");
    router.queue_subscribe(b"orders", b"group_a");
    router.queue_subscribe(b"orders", b"group_b");
    let plan = router.publish(b"orders");
    let p = plan.as_ref().unwrap();
    assert_eq!(p[0].0, b"group_a".to_vec());
    assert_eq!(p[1].0, b"group_b".to_vec());
    assert_eq!(targets(&plan), vec![Some(0), Some(0)]);
    assert_eq!(targets(&router.publish(b"orders")), vec![Some(1), Some(0)]);
    assert_eq!(targets(&router.publish(b"orders")), vec![Some(0), Some(0)]);
}

#[test]
fn publish_on_other_topic_leaves_groups_alone() {
    let mut router = Router::new();
    router.queue_subscribe(b"x", b"g");
    router.queue_subscribe(b"x", b"g");
    router.subscribe(b"y");
    router.publish(b"y");
    router.publish(b"y");
    assert_eq!(targets(&router.publish(b"x")), vec![Some(0)]);
}

#[test]
fn consumer_group_dispatch() {
    let mut g = ConsumerGroup::new();
    assert_eq!(g.dispatch(), None);
    assert_eq!(g.add_worker(), 0);
    assert_eq!(g.add_worker(), 1);
    assert_eq!(g.worker_count(), 2);
    assert_eq!(g.dispatch(), Some(0));
    assert_eq!(g.dispatch(), Some(1));
    assert_eq!(g.dispatch(), Some(0));
    let d = ConsumerGroup::default();
    assert_eq!(d.worker_count(), 0);
}

#[test]
fn publish_result_from_receivers() {
    let r = PublishResult::from_receivers(0);
    assert_eq!(r.state, MessageState::Routed);
    assert_eq!(r.subscribers, 0);
    let r = PublishResult::from_receivers(3);
    assert_eq!(r.state, MessageState::Delivered);
    assert_eq!(r.subscribers, 3);
}

#[test]
fn default_router_is_empty() {
    let router = Router::default();
    assert_eq!(router.topic_count(), 0);
    assert_eq!(CHANNEL_CAPACITY, 1024);
}
