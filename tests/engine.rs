use kvs::{Command, KVStoreError, KvStore, Segment, COMPACTION_THRESHOLD};

fn s(x: &str) -> String {
    x.to_owned()
}

fn record_count(store: &KvStore) -> usize {
    store.segments().iter().map(|seg| seg.records.len()).sum()
}

#[test]
fn set_then_get_round_trip() {
    let mut store = KvStore::new();
    for (k, v) in [("key1", "value1"), ("ключ", "значение"), ("键", "值🙂"), ("", "empty key")] {
        store.set(s(k), s(v));
        assert_eq!(store.get(&s(k)), Some(s(v)));
    }
}

#[test]
fn get_missing_key_is_none() {
    let store = KvStore::new();
    assert_eq!(store.get(&s("missing")), None);
}

#[test]
fn remove_then_get_is_none() {
    let mut store = KvStore::new();
    store.set(s("key1"), s("value1"));
    assert_eq!(store.remove(s("key1")), Ok(()));
    assert_eq!(store.get(&s("key1")), None);
}

#[test]
fn remove_missing_key_fails() {
    let mut store = KvStore::new();
    assert_eq!(store.remove(s("never")), Err(KVStoreError::KeyNotFound));
    store.set(s("once"), s("v"));
    assert_eq!(store.remove(s("once")), Ok(()));
    assert_eq!(store.remove(s("once")), Err(KVStoreError::KeyNotFound));
}

#[test]
fn overwrite_last_write_wins() {
    let mut store = KvStore::new();
    store.set(s("key1"), s("value1"));
    store.set(s("key1"), s("value2"));
    assert_eq!(store.get(&s("key1")), Some(s("value2")));
}

#[test]
fn log_holds_tombstones() {
    let mut store = KvStore::new();
    store.set(s("a"), s("1"));
    store.remove(s("a")).unwrap();
    let segs = store.segments();
    assert_eq!(segs.len(), 1);
    assert_eq!(segs[0].records, vec![Command::Put(s("a"), s("1")), Command::Rm(s("a"))]);
}

#[test]
fn recovery_restores_every_pair() {
    let mut store = KvStore::new();
    for i in 0..100 {
        store.set(format!("key{}", i), format!("value{}", i));
    }
    store.remove(s("key7")).unwrap();
    store.set(s("key8"), s("changed"));
    let reopened = KvStore::recover(store.segments().clone()).unwrap();
    for i in 0..100 {
        let expected = match i {
            7 => None,
            8 => Some(s("changed")),
            _ => Some(format!("value{}", i)),
        };
        assert_eq!(reopened.get(&format!("key{}", i)), expected);
    }
    assert_eq!(record_count(&reopened), record_count(&store));
}

#[test]
fn recovery_replays_segments_in_order() {
    let segments = vec![
        Segment { gen: 1, records: vec![Command::Put(s("a"), s("1")), Command::Put(s("b"), s("2"))] },
        Segment { gen: 3, records: vec![Command::Put(s("a"), s("3")), Command::Rm(s("b"))] },
    ];
    let store = KvStore::recover(segments).unwrap();
    assert_eq!(store.get(&s("a")), Some(s("3")));
    assert_eq!(store.get(&s("b")), None);
    assert_eq!(store.segments().len(), 2);
    assert_eq!(store.segments()[1].gen, 3);
}

#[test]
fn recovery_of_nothing_is_empty() {
    let store = KvStore::recover(Vec::new()).unwrap();
    assert_eq!(store.get(&s("a")), None);
    assert_eq!(store.segments().len(), 1);
}

#[test]
fn recovery_rejects_out_of_order_generations() {
    let segments = vec![
        Segment { gen: 2, records: vec![] },
        Segment { gen: 2, records: vec![] },
    ];
    assert!(matches!(KvStore::recover(segments), Err(KVStoreError::CorruptRecord(_))));
}

#[test]
fn compaction_keeps_values_and_shrinks_log() {
    let mut store = KvStore::new();
    for round in 0..5 {
        for k in 0..10 {
            store.set(format!("k{}", k), format!("v{}-{}", k, round));
        }
    }
    store.remove(s("k0")).unwrap();
    let before = record_count(&store);
    assert_eq!(before, 51);
    store.compact();
    assert_eq!(record_count(&store), 9);
    assert_eq!(store.segments().len(), 1);
    assert_eq!(store.get(&s("k0")), None);
    for k in 1..10 {
        assert_eq!(store.get(&format!("k{}", k)), Some(format!("v{}-4", k)));
    }
}

#[test]
fn compaction_triggers_past_threshold() {
    let mut store = KvStore::new();
    let big = "x".repeat(64 * 1024);
    let rounds = (COMPACTION_THRESHOLD as usize) / (big.len() * 4) + 3;
    let mut largest = 0;
    for round in 0..rounds {
        for k in 0..4 {
            store.set(format!("k{}", k), format!("{}{}", big, round));
            largest = largest.max(record_count(&store));
        }
    }
    assert!(record_count(&store) < largest);
    for k in 0..4 {
        assert_eq!(store.get(&format!("k{}", k)), Some(format!("{}{}", big, rounds - 1)));
    }
}

#[test]
fn segments_roll_over_with_increasing_generations() {
    let mut store = KvStore::new();
    let big = "y".repeat(300 * 1024);
    for k in 0..8 {
        store.set(format!("k{}", k), big.clone());
    }
    let segs = store.segments();
    assert!(segs.len() > 1);
    for w in segs.windows(2) {
        assert!(w[0].gen < w[1].gen);
    }
    for k in 0..8 {
        assert_eq!(store.get(&format!("k{}", k)), Some(big.clone()));
    }
}

#[test]
fn stale_bytes_count_overwritten_records() {
    let mut store = KvStore::new();
    store.set(s("ab"), s("cde"));
    assert_eq!(store.stale_bytes(), 0);
    store.set(s("ab"), s("x"));
    assert_eq!(store.stale_bytes(), 5);
    store.remove(s("ab")).unwrap();
    assert_eq!(store.stale_bytes(), 5 + 3 + 2);
    store.compact();
    assert_eq!(store.stale_bytes(), 0);
}
