use solana_block_cache::decimal::parse_count;
use solana_block_cache::ingest::Ingestor;
use solana_block_cache::lag::LagBuffer;
use solana_block_cache::store::{block_key, StoreKey, StoreValue, StoreWrite};
use std::collections::HashMap;

/// Applies writes to an in-memory map of texts, as the store would hold them.
fn apply(store: &mut HashMap<String, String>, writes: &[StoreWrite]) {
    for w in writes {
        let value = match w.value.text() {
            Some(t) => t,
            None => format!("payload-{}", match w.value {
                StoreValue::Payload(slot) => slot,
                _ => unreachable!(),
            }),
        };
        store.insert(w.key.name(), value);
    }
}

#[test]
fn lag_buffer_releases_in_arrival_order() {
    let mut buf = LagBuffer::new(3);
    let mut released = Vec::new();
    for slot in 10u64..20 {
        if let Some(s) = buf.push(slot) {
            released.push(s);
        }
    }
    assert_eq!(released, vec![10, 11, 12, 13, 14, 15, 16]);
    assert_eq!(buf.len(), 3);
    assert_eq!(buf.lag(), 3);
}

#[test]
fn lag_buffer_primes_before_releasing() {
    let mut buf = LagBuffer::new(2);
    assert_eq!(buf.push(1), None);
    assert_eq!(buf.push(2), None);
    assert_eq!(buf.push(3), Some(1));
    assert_eq!(buf.push(4), Some(2));
}

#[test]
fn lag_zero_releases_at_once() {
    let mut buf = LagBuffer::new(0);
    assert_eq!(buf.push(7), Some(7));
    assert_eq!(buf.len(), 0);
}

#[test]
fn consecutive_fetches_are_numbered_in_order() {
    let mut ing = Ingestor::resume(1, 0, None);
    let mut store = HashMap::new();
    let mut fetched = Vec::new();
    for slot in [100u64, 101, 102, 103] {
        if let Some(s) = ing.on_notification(slot) {
            let writes = ing.record_fetch(s, true);
            apply(&mut store, &writes);
            fetched.push(s);
        }
    }
    assert_eq!(fetched, vec![100, 101, 102]);
    assert_eq!(ing.count(), 3);
    assert_eq!(store["nblocks"], "3");
    assert_eq!(store["key_1"], "block-100");
    assert_eq!(store["key_2"], "block-101");
    assert_eq!(store["key_3"], "block-102");
    assert_eq!(store["first_key"], store["key_1"]);
    assert_eq!(store["last_key"], store["key_3"]);
    assert_eq!(store["block-101"], "payload-101");
    assert!(!store.contains_key("key_4"));
}

#[test]
fn first_insert_writes_in_order() {
    let mut ing = Ingestor::resume(0, 0, None);
    let writes = ing.record_fetch(42, true);
    let keys: Vec<String> = writes.iter().map(|w| w.key.name()).collect();
    assert_eq!(keys, vec!["block-42", "nblocks", "key_1", "first_key", "last_key"]);
    assert_eq!(writes[1].value, StoreValue::Count(1));
    assert_eq!(writes[2].value, StoreValue::BlockKey(42));
    let writes = ing.record_fetch(43, true);
    let keys: Vec<String> = writes.iter().map(|w| w.key.name()).collect();
    assert_eq!(keys, vec!["block-43", "nblocks", "key_2", "last_key"]);
}

#[test]
fn miss_changes_nothing() {
    let mut ing = Ingestor::resume(0, 0, Some("2"));
    let writes = ing.record_fetch(9, false);
    assert!(writes.is_empty());
    assert_eq!(ing.count(), 2);
    let writes = ing.record_fetch(10, true);
    assert_eq!(writes[2].key, StoreKey::Ordinal(3));
}

#[test]
fn restart_resumes_after_stored_count() {
    let mut store = HashMap::new();
    let mut first = Ingestor::resume(0, 0, None);
    for slot in 1u64..=5 {
        let writes = first.record_fetch(slot * 10, true);
        apply(&mut store, &writes);
    }
    let before = store.clone();
    let mut again = Ingestor::resume(0, 0, Some(store["nblocks"].as_str()));
    assert_eq!(again.count(), 5);
    let slot = again.on_notification(60).unwrap();
    let writes = again.record_fetch(slot, true);
    apply(&mut store, &writes);
    assert_eq!(store["key_6"], "block-60");
    assert_eq!(store["nblocks"], "6");
    for i in 1..=5 {
        let k = format!("key_{}", i);
        assert_eq!(store[&k], before[&k]);
        assert_eq!(store[&before[&k]], before[&before[&k]]);
    }
    assert_eq!(store["first_key"], "block-10");
    assert_eq!(store["last_key"], "block-60");
}

#[test]
fn unreadable_stored_count_resumes_at_zero() {
    assert_eq!(Ingestor::resume(0, 0, Some("abc")).count(), 0);
    assert_eq!(Ingestor::resume(0, 0, Some("")).count(), 0);
    assert_eq!(Ingestor::resume(0, 0, None).count(), 0);
}

#[test]
fn stops_at_maximum() {
    let mut ing = Ingestor::resume(0, 2, None);
    assert!(!ing.finished());
    ing.record_fetch(1, true);
    assert!(!ing.finished());
    ing.record_fetch(2, true);
    assert!(ing.finished());
    let unbounded = Ingestor::resume(0, 0, Some("1000"));
    assert!(!unbounded.finished());
}

#[test]
fn count_text_parses() {
    assert_eq!(parse_count("0"), Some(0));
    assert_eq!(parse_count("5"), Some(5));
    assert_eq!(parse_count("18446744073709551615"), Some(u64::MAX));
    assert_eq!(parse_count("18446744073709551616"), None);
    assert_eq!(parse_count(""), None);
    assert_eq!(parse_count("1a"), None);
    assert_eq!(parse_count("-1"), None);
}

#[test]
fn store_key_names() {
    assert_eq!(StoreKey::Count.name(), "nblocks");
    assert_eq!(StoreKey::FirstKey.name(), "first_key");
    assert_eq!(StoreKey::LastKey.name(), "last_key");
    assert_eq!(StoreKey::Ordinal(12).name(), "key_12");
    assert_eq!(StoreKey::Block(250000).name(), "block-250000");
    assert_eq!(block_key(0), "block-0");
    assert_eq!(StoreValue::Count(1234).text(), Some("1234".to_string()));
    assert_eq!(StoreValue::BlockKey(7).text(), Some("block-7".to_string()));
    assert_eq!(StoreValue::Payload(7).text(), None);
}
