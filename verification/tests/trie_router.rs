use switchboard::trie_router::{TrieNode, TrieRouter};

#[test]
fn exact_pattern_subscribe() {
    let mut router = TrieRouter::new();
    assert!(router.subscribe_pattern("trades.us.aapl").is_ok());
    assert!(router.subscribe_pattern("trades.us.spy").is_ok());
}

#[test]
fn exact_pattern_match() {
    let mut router = TrieRouter::new();
    router.subscribe_pattern("trades.us.aapl").unwrap();

    let matches = router.match_topic("trades.us.aapl");
    assert_eq!(matches.len(), 1);
    assert_eq!(matches[0], b"trades.us.aapl".to_vec());
}

#[test]
fn exact_pattern_no_match() {
    let mut router = TrieRouter::new();
    router.subscribe_pattern("trades.us.aapl").unwrap();

    let matches = router.match_topic("trades.us.spy");
    assert_eq!(matches.len(), 0);
}

#[test]
fn single_wildcard_pattern() {
    let mut router = TrieRouter::new();
    router.subscribe_pattern("trades.us.*").unwrap();

    let m1 = router.match_topic("trades.us.aapl");
    assert_eq!(m1.len(), 1);
    assert_eq!(m1[0], b"trades.us.*".to_vec());

    let m2 = router.match_topic("trades.us.spy");
    assert_eq!(m2.len(), 1);
    assert_eq!(m2[0], b"trades.us.*".to_vec());

    let m3 = router.match_topic("trades.us");
    assert_eq!(m3.len(), 0);

    let m4 = router.match_topic("trades.us.aapl.extra");
    assert_eq!(m4.len(), 0);
}

#[test]
fn recursive_wildcard_pattern() {
    let mut router = TrieRouter::new();
    router.subscribe_pattern("sensor.>").unwrap();

    let m1 = router.match_topic("sensor.floor1.temp");
    assert_eq!(m1.len(), 1);

    let m2 = router.match_topic("sensor.floor1.room5.humidity");
    assert_eq!(m2.len(), 1);

    let m3 = router.match_topic("sensor.a.b.c.d.e");
    assert_eq!(m3.len(), 1);

    let m4 = router.match_topic("actuator.floor1.temp");
    assert_eq!(m4.len(), 0);
}

#[test]
fn mixed_patterns() {
    let mut router = TrieRouter::new();
    router.subscribe_pattern("trades.us.aapl").unwrap();
    router.subscribe_pattern("trades.us.*").unwrap();
    router.subscribe_pattern("trades.>").unwrap();

    let matches = router.match_topic("trades.us.aapl");
    assert_eq!(matches.len(), 3);

    let matches = router.match_topic("trades.us.spy");
    assert_eq!(matches.len(), 2);

    let matches = router.match_topic("trades.eu.paris.dax");
    assert_eq!(matches.len(), 1);
}

#[test]
fn wildcard_in_middle_is_error() {
    let mut router = TrieRouter::new();
    let result = router.subscribe_pattern("trades.*.aapl");
    assert!(result.is_err());
}

#[test]
fn recursive_wildcard_in_middle_is_error() {
    let mut router = TrieRouter::new();
    let result = router.subscribe_pattern("trades.>.aapl");
    assert!(result.is_err());
}

#[test]
fn empty_pattern_is_error() {
    let mut router = TrieRouter::new();
    let result = router.subscribe_pattern("");
    assert!(result.is_err());
}

#[test]
fn multiple_subscribers_same_pattern() {
    let mut router = TrieRouter::new();
    router.subscribe_pattern("sensor.floor1.*").unwrap();
    router.subscribe_pattern("sensor.floor1.*").unwrap();

    let patterns = router.all_patterns();
    let count = patterns
        .iter()
        .filter(|p| p.as_slice() == b"sensor.floor1.*")
        .count();
    assert_eq!(count, 1);
}

#[test]
fn trie_depth_scaling() {
    let mut router = TrieRouter::new();

    for i in 0..100 {
        let pattern = format!("prefix.segment.{}.value", i);
        router.subscribe_pattern(&pattern).unwrap();
    }

    let matches = router.match_topic("prefix.segment.50.value");
    assert_eq!(matches.len(), 1);
    assert_eq!(matches[0], b"prefix.segment.50.value".to_vec());
}

#[test]
fn error_messages_name_the_misplaced_wildcard() {
    let mut router = TrieRouter::new();
    assert_eq!(
        router.subscribe_pattern("a.*.b"),
        Err("single-level wildcard `*` must be at end of pattern".to_string())
    );
    assert_eq!(
        router.subscribe_pattern("a.>.b"),
        Err("recursive wildcard `>` must be at end of pattern".to_string())
    );
    assert_eq!(
        router.subscribe_pattern(""),
        Err("empty pattern".to_string())
    );
}

#[test]
fn refused_pattern_is_not_registered() {
    let mut router = TrieRouter::new();
    let _ = router.subscribe_pattern("x.*.y");
    assert!(router.all_patterns().is_empty());
    assert!(router.match_topic("x.a.y").is_empty());
}

#[test]
fn lone_wildcards_match_by_depth() {
    let mut router = TrieRouter::new();
    router.subscribe_pattern("*").unwrap();
    router.subscribe_pattern(">").unwrap();
    // `*` matches exactly one segment, `>` one or more.
    assert_eq!(router.match_topic("a").len(), 2);
    assert_eq!(router.match_topic("a.b"), vec![b">".to_vec()]);
}

#[test]
fn recursive_wildcard_needs_a_segment() {
    let mut router = TrieRouter::new();
    router.subscribe_pattern("sensor.>").unwrap();
    assert!(router.match_topic("sensor").is_empty());
}

#[test]
fn all_patterns_lists_each_once() {
    let mut router = TrieRouter::new();
    router.subscribe_pattern("a.b").unwrap();
    router.subscribe_pattern("a.*").unwrap();
    router.subscribe_pattern("a.>").unwrap();
    router.subscribe_pattern("a.b").unwrap();
    let mut all = router.all_patterns();
    all.sort();
    assert_eq!(all, vec![b"a.*".to_vec(), b"a.>".to_vec(), b"a.b".to_vec()]);
}

#[test]
fn defaults_are_empty() {
    let router = TrieRouter::default();
    assert!(router.all_patterns().is_empty());
    let node = TrieNode::default();
    assert!(node.children.is_empty());
    assert!(node.handlers.is_none());
    assert!(node.wildcard_handler.is_none());
    assert!(node.recursive_handler.is_none());
}
