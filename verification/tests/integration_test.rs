use log_kv::cache::Cache;
use log_kv::log::{Log, WriteError};
use log_kv::record::Record;
use log_kv::sync::{bootstrap_entries, process_record, replay};

#[test]
fn test_subscribe() {
    let log = Log::new();
    let batch = log.records_from(0);
    assert!(batch.is_empty());
}

#[test]
fn test_write() {
    let mut log = Log::new();
    let result = log.write(1, "test_key".to_string(), b"test_value".to_vec(), 0);
    assert!(result.is_ok());
    assert_eq!(result.unwrap(), 1);
}

#[test]
fn write_conflict_reports_latest_ordinal() {
    let mut log = Log::new();
    assert!(log.write(1, "k1".to_string(), b"a".to_vec(), 0).is_ok());
    // A second writer that also saw ordinal 0 conflicts and is told 1.
    let second = log.write(2, "k2".to_string(), b"b".to_vec(), 0);
    match second {
        Err(WriteError::Conflict(latest)) => assert_eq!(latest, 1),
        _ => panic!("expected a conflict"),
    }
    // Catching up to ordinal 1 makes the retry succeed.
    let retried = log.write(2, "k2".to_string(), b"b".to_vec(), 1);
    assert_eq!(retried.unwrap(), 2);
}

#[test]
fn ordinals_ascend_without_gaps() {
    let mut log = Log::new();
    for i in 0..5u64 {
        let o = log.append(format!("map:{}", i), b"v".to_vec());
        assert_eq!(o, i + 1);
    }
    let batch = log.records_from(0);
    let ordinals: Vec<u64> = batch.iter().map(|r| r.ordinal).collect();
    assert_eq!(ordinals, vec![1, 2, 3, 4, 5]);
    let tail = log.records_from(3);
    let tail_ordinals: Vec<u64> = tail.iter().map(|r| r.ordinal).collect();
    assert_eq!(tail_ordinals, vec![4, 5]);
}

#[test]
fn cache_basic_operations() {
    let mut cache = Cache::new();
    assert!(cache.is_empty());
    assert_eq!(cache.len(), 0);
    cache.insert(1, "one".to_string());
    cache.insert(2, "two".to_string());
    assert_eq!(cache.get(&1), Some("one".to_string()));
    assert_eq!(cache.get(&3), None);
    assert!(cache.contains_key(&2));
    assert_eq!(cache.len(), 2);
    cache.remove(&1);
    assert!(!cache.contains_key(&1));
    assert_eq!(cache.len(), 1);
    assert!(!cache.is_empty());
}

#[test]
fn cache_insert_all_applies_in_order() {
    let mut cache = Cache::new();
    let entries = vec![
        (1, "first".to_string()),
        (2, "second".to_string()),
        (1, "override".to_string()),
    ];
    cache.insert_all(&entries);
    assert_eq!(cache.get(&1), Some("override".to_string()));
    assert_eq!(cache.get(&2), Some("second".to_string()));
    assert_eq!(cache.len(), 2);
}

fn record(ordinal: u64, key: &str, value: &[u8]) -> Record {
    Record::new(key.to_string(), value.to_vec(), ordinal)
}

#[test]
fn process_record_updates_cache_and_counters() {
    let mut cache = Cache::new();
    let mut last_sync = 0u64;
    let mut latest_known = 0u64;
    process_record(&mut cache, &mut last_sync, &mut latest_known, &record(3, "map:5", b"hello"));
    assert_eq!(cache.get(&5), Some("hello".to_string()));
    assert_eq!(last_sync, 3);
    assert_eq!(latest_known, 3);
    // Counters never decrease.
    process_record(&mut cache, &mut last_sync, &mut latest_known, &record(2, "map:6", b"x"));
    assert_eq!(last_sync, 3);
    assert_eq!(latest_known, 3);
    assert_eq!(cache.get(&6), Some("x".to_string()));
}

#[test]
fn process_record_ignores_foreign_keys() {
    let mut cache = Cache::new();
    let mut last_sync = 0u64;
    let mut latest_known = 0u64;
    process_record(&mut cache, &mut last_sync, &mut latest_known, &record(1, "other:5", b"v"));
    process_record(&mut cache, &mut last_sync, &mut latest_known, &record(2, "map:zzz", b"v"));
    assert!(cache.is_empty());
    assert_eq!(last_sync, 0);
    assert_eq!(latest_known, 0);
}

#[test]
fn tombstone_removes_key() {
    let mut cache = Cache::new();
    let mut last_sync = 0u64;
    let mut latest_known = 0u64;
    process_record(&mut cache, &mut last_sync, &mut latest_known, &record(1, "map:1", b"a"));
    assert!(cache.contains_key(&1));
    process_record(&mut cache, &mut last_sync, &mut latest_known, &record(2, "map:1", b""));
    assert!(!cache.contains_key(&1));
    assert!(cache.is_empty());
}

#[test]
fn replay_reaches_live_state() {
    let records = vec![
        record(1, "map:1", b"A"),
        record(2, "map:2", b"B"),
        record(3, "map:1", b"A2"),
        record(4, "map:2", b""),
        record(5, "unrelated", b"ignored"),
    ];
    let mut cache = Cache::new();
    let mut last_sync = 0u64;
    let mut latest_known = 0u64;
    replay(&mut cache, &mut last_sync, &mut latest_known, &records);
    assert_eq!(cache.get(&1), Some("A2".to_string()));
    assert!(!cache.contains_key(&2));
    assert_eq!(cache.len(), 1);
    assert_eq!(last_sync, 4);
    assert_eq!(latest_known, 4);

    // A second client replaying the same log observes the same state.
    let mut other = Cache::new();
    let mut ls = 0u64;
    let mut lk = 0u64;
    replay(&mut other, &mut ls, &mut lk, &records);
    assert_eq!(other.get(&1), Some("A2".to_string()));
    assert_eq!(other.len(), 1);
}

#[test]
fn bootstrap_filters_to_map_entries() {
    let loaded = vec![
        ("map:1".to_string(), b"x".to_vec()),
        ("map:-2".to_string(), b"".to_vec()),
        ("other".to_string(), b"y".to_vec()),
        ("map:zzz".to_string(), b"w".to_vec()),
        ("map:7".to_string(), b"seven".to_vec()),
    ];
    let entries = bootstrap_entries(&loaded);
    assert_eq!(entries, vec![(1, "x".to_string()), (7, "seven".to_string())]);
}

#[test]
fn invalid_utf8_values_are_cached_lossily() {
    let mut cache = Cache::new();
    let mut last_sync = 0u64;
    let mut latest_known = 0u64;
    process_record(
        &mut cache,
        &mut last_sync,
        &mut latest_known,
        &record(1, "map:1", &[0xFF, 0x68, 0x69]),
    );
    assert_eq!(cache.get(&1), Some("\u{FFFD}hi".to_string()));
}

#[test]
fn record_new_keeps_fields() {
    let r = Record::new("map:9".to_string(), b"payload".to_vec(), 42);
    assert_eq!(r.ordinal, 42);
    assert_eq!(r.key, "map:9");
    assert_eq!(r.value, b"payload".to_vec());
    let copy = r.duplicate();
    assert_eq!(copy.ordinal, r.ordinal);
    assert_eq!(copy.key, r.key);
    assert_eq!(copy.value, r.value);
    assert_eq!(copy.timestamp, r.timestamp);
}
