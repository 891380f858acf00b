use std::collections::hash_map::DefaultHasher;
use std::hash::{Hash, Hasher};

use concurrency::{shard_index, AtomicMetrics, Counters, Error, LockedMetrics, ShardedMetrics};

#[test]
fn atomic_metrics_count_registered_names() {
    let metrics = AtomicMetrics::new(&["a", "b", "a"]);
    assert!(metrics.inc("a").is_ok());
    assert!(metrics.inc("a").is_ok());
    assert!(metrics.inc("b").is_ok());
    assert_eq!(metrics.to_string(), "a: 2\nb: 1\n");
}

#[test]
fn atomic_metrics_reject_unknown_name() {
    let metrics = AtomicMetrics::new(&["a"]);
    match metrics.inc("zz") {
        Err(Error::UnknownMetric(name)) => assert_eq!(name, "zz"),
        other => panic!("expected an unknown metric, got {other:?}"),
    }
    assert_eq!(metrics.to_string(), "a: 0\n");
}

#[test]
fn atomic_metrics_clones_share_counts() {
    let metrics = AtomicMetrics::new(&["x"]);
    let other = metrics.clone();
    other.inc("x").unwrap();
    metrics.inc("x").unwrap();
    assert_eq!(metrics.to_string(), "x: 2\n");
}

#[test]
fn counters_list_names_in_order() {
    let mut c = Counters::new();
    c.increment("b".to_string());
    c.increment("a".to_string());
    c.increment("b".to_string());
    c.increment("ab".to_string());
    assert_eq!(c.to_string(), "a: 1\nab: 1\nb: 2\n");
}

#[test]
fn counters_order_of_increments_does_not_matter() {
    let mut one = Counters::new();
    let mut two = Counters::new();
    for k in ["x", "y", "x", "z"] {
        one.increment(k.to_string());
    }
    for k in ["z", "x", "y", "x"] {
        two.increment(k.to_string());
    }
    assert_eq!(one.to_string(), two.to_string());
}

#[test]
fn locked_metrics_count_every_name() {
    let metrics = LockedMetrics::new();
    assert_eq!(metrics.to_string(), "");
    let other = metrics.clone();
    metrics.inc("req.page.1".to_string());
    other.inc("call.thread.worker.0".to_string());
    metrics.inc("req.page.1".to_string());
    assert_eq!(
        metrics.to_string(),
        "call.thread.worker.0: 1\nreq.page.1: 2\n"
    );
}

#[test]
fn locked_metrics_default_is_empty() {
    let metrics = LockedMetrics::default();
    assert_eq!(metrics.to_string(), "");
}

#[test]
fn sharded_metrics_count_every_name() {
    let metrics = ShardedMetrics::default();
    let other = metrics.clone();
    for n in 0..10 {
        other.inc(format!("key.{}", n % 4));
    }
    let text = metrics.to_string();
    assert_eq!(text.lines().count(), 4);
    assert!(text.contains("key.0: 3\n"));
    assert!(text.contains("key.1: 3\n"));
    assert!(text.contains("key.2: 2\n"));
    assert!(text.contains("key.3: 2\n"));
}

#[test]
fn shard_index_is_stable_and_in_range() {
    for key in ["", "a", "key.1", "你好"] {
        let i = shard_index(key);
        assert!(i < 16);
        assert_eq!(i, shard_index(key));
    }
}

#[test]
fn shard_index_is_the_hash_modulo_shards() {
    for key in ["", "a", "key.1", "你好", "call.thread.worker.0"] {
        let mut hasher = DefaultHasher::new();
        key.hash(&mut hasher);
        assert_eq!(shard_index(key) as u64, hasher.finish() % 16);
    }
}

#[test]
fn sharded_metrics_start_empty() {
    assert_eq!(ShardedMetrics::new().to_string(), "");
}

#[test]
fn counters_show_negative_free_counts_and_long_names() {
    let mut c = Counters::new();
    assert_eq!(c.to_string(), "");
    for _ in 0..12 {
        c.increment("é".to_string());
    }
    c.increment("e".to_string());
    assert_eq!(c.to_string(), "e: 1\né: 12\n");
}
