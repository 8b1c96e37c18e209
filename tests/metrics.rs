use metrics_store::counters::Counters;
use metrics_store::metrics::Metrics;
use std::collections::HashMap;

fn as_map(entries: Vec<(String, i64)>) -> HashMap<String, i64> {
    let n = entries.len();
    let map: HashMap<String, i64> = entries.into_iter().collect();
    assert_eq!(map.len(), n, "a key was listed twice");
    map
}

#[test]
fn fresh_store_is_empty() {
    let metrics = Metrics::new();
    assert!(metrics.snapshot().unwrap().is_empty());
}

#[test]
fn first_increment_creates_key_at_one() {
    let metrics = Metrics::new();
    metrics.inc("x").unwrap();
    let snap = as_map(metrics.snapshot().unwrap());
    assert_eq!(snap, HashMap::from([("x".to_string(), 1)]));
}

#[test]
fn first_decrement_creates_key_at_minus_one() {
    let metrics = Metrics::new();
    metrics.dec("x").unwrap();
    let snap = as_map(metrics.snapshot().unwrap());
    assert_eq!(snap, HashMap::from([("x".to_string(), -1)]));
}

#[test]
fn snapshot_is_independent_of_later_updates() {
    let metrics = Metrics::new();
    metrics.inc("a").unwrap();
    metrics.inc("a").unwrap();
    let before = metrics.snapshot().unwrap();
    metrics.inc("a").unwrap();
    metrics.dec("b").unwrap();
    assert_eq!(before, vec![("a".to_string(), 2)]);
    let after = as_map(metrics.snapshot().unwrap());
    assert_eq!(after.get("a"), Some(&3));
    assert_eq!(after.get("b"), Some(&-1));
}

#[test]
fn clones_share_one_store() {
    let metrics = Metrics::new();
    let other = metrics.clone();
    other.inc("shared").unwrap();
    assert_eq!(metrics.snapshot().unwrap(), vec![("shared".to_string(), 1)]);
}

#[test]
fn interleaved_increments_and_decrements_are_not_lost() {
    // Two producers increment "a" 100 times each, a third decrements it 50
    // times; their calls arrive interleaved, through three handles.
    let metrics = Metrics::new();
    let producers = [metrics.clone(), metrics.clone(), metrics.clone()];
    for step in 0..100 {
        producers[0].inc("a").unwrap();
        if step % 2 == 0 {
            producers[2].dec("a").unwrap();
        }
        producers[1].inc("a").unwrap();
    }
    let snap = as_map(metrics.snapshot().unwrap());
    assert_eq!(snap.get("a"), Some(&150));
    assert_eq!(snap.get("b"), None);
    assert_eq!(snap.len(), 1);
}

#[test]
fn interleaved_disjoint_keys_stay_apart() {
    let metrics = Metrics::new();
    let n = 8;
    let producers: Vec<Metrics> = (0..n).map(|_| metrics.clone()).collect();
    for _ in 0..1000 {
        for (t, m) in producers.iter().enumerate() {
            m.inc(&format!("worker.{}.calls", t)).unwrap();
        }
    }
    let snap = as_map(metrics.snapshot().unwrap());
    assert_eq!(snap.len(), n);
    for t in 0..n {
        assert_eq!(snap.get(&format!("worker.{}.calls", t)), Some(&1000));
    }
}

#[test]
fn snapshots_between_updates_show_completed_counts() {
    let metrics = Metrics::new();
    let mut ups = 0;
    let mut downs = 0;
    for step in 0..300 {
        if step % 3 == 0 {
            metrics.dec("k").unwrap();
            downs += 1;
        } else {
            metrics.inc("k").unwrap();
            ups += 1;
        }
        let snap = as_map(metrics.snapshot().unwrap());
        assert_eq!(snap.get("k"), Some(&(ups - downs)));
    }
    assert_eq!((ups, downs), (200, 100));
}

#[test]
fn keys_are_plain_strings() {
    let metrics = Metrics::new();
    metrics.inc("a.b.c").unwrap();
    metrics.inc("").unwrap();
    metrics.inc("ключ").unwrap();
    metrics.dec("a.b").unwrap();
    let snap = as_map(metrics.snapshot().unwrap());
    assert_eq!(snap.len(), 4);
    assert_eq!(snap.get("a.b.c"), Some(&1));
    assert_eq!(snap.get(""), Some(&1));
    assert_eq!(snap.get("ключ"), Some(&1));
    assert_eq!(snap.get("a.b"), Some(&-1));
}

#[test]
fn counters_table_tracks_values() {
    let mut table = Counters::new();
    assert_eq!(table.get("x"), None);
    table.inc("x").unwrap();
    table.inc("x").unwrap();
    table.dec("y").unwrap();
    assert_eq!(table.get("x"), Some(2));
    assert_eq!(table.get("y"), Some(-1));
    let snap = table.snapshot().unwrap();
    assert_eq!(snap, vec![("x".to_string(), 2), ("y".to_string(), -1)]);
}
