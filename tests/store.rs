use txradar::store::{Database, SignalBatchEntry};
use txradar::tags::AddressTag;

fn open_memory_db() -> Database {
    Database::open()
}

#[test]
fn utxo_cache_roundtrip() {
    let mut db = open_memory_db();
    db.cache_utxo("abc123", 0, 50_000, "p2wpkh", 800_000, 1700000000);
    let result = db.get_utxo("abc123", 0);
    assert!(result.is_some());
    let (value, script_type, height, time) = result.unwrap();
    assert_eq!(value, 50_000);
    assert_eq!(script_type, "p2wpkh");
    assert_eq!(height, 800_000);
    assert_eq!(time, 1700000000);
}

#[test]
fn utxo_cache_miss() {
    let db = open_memory_db();
    assert!(db.get_utxo("nonexistent", 0).is_none());
}

#[test]
fn utxo_cache_overwrite() {
    let mut db = open_memory_db();
    db.cache_utxo("tx1", 0, 100, "p2pkh", 1, 1);
    db.cache_utxo("tx1", 0, 200, "p2wpkh", 2, 2);
    let (value, _, _, _) = db.get_utxo("tx1", 0).unwrap();
    assert_eq!(value, 200);
}

#[test]
fn utxo_cache_keys_are_distinct() {
    let mut db = open_memory_db();
    db.cache_utxo("tx1", 0, 100, "p2pkh", 1, 1);
    db.cache_utxo("tx1", 1, 300, "p2tr", 3, 3);
    db.cache_utxo("tx2", 0, 400, "p2sh", 4, 4);
    assert_eq!(db.get_utxo("tx1", 0).unwrap().0, 100);
    assert_eq!(db.get_utxo("tx1", 1).unwrap().0, 300);
    assert_eq!(db.get_utxo("tx2", 0).unwrap().1, "p2sh");
    assert!(db.get_utxo("tx2", 1).is_none());
}

#[test]
fn store_and_query_signals() {
    let mut db = open_memory_db();
    db.store_signal("tx1", 8500, "Critical", "{}", true, 1_000_000, 50_000, Some(500 * 100_000_000), 800_000);
    db.store_signal("tx2", 4500, "Medium", "{}", false, 500_000, 10_000, None, 800_001);

    let recent = db.get_recent_signals(10);
    assert_eq!(recent.len(), 2);

    let count = db.get_signal_count();
    assert_eq!(count, 2);
}

#[test]
fn recent_signals_newest_first_with_limit() {
    let mut db = open_memory_db();
    db.store_signal("tx1", 8500, "Critical", "{}", true, 1, 1, None, 1);
    db.store_signal("tx2", 4500, "Medium", "{}", false, 2, 2, None, 2);
    db.store_signal("tx3", 100, "Low", "{}", false, 3, 3, None, 3);
    let recent = db.get_recent_signals(2);
    assert_eq!(recent.len(), 2);
    assert_eq!(recent[0].txid, "tx3");
    assert_eq!(recent[1].txid, "tx2");
    assert_eq!(recent[0].id, 3);
}

#[test]
fn signals_above_score() {
    let mut db = open_memory_db();
    db.store_signal("tx1", 8500, "Critical", "{}", true, 1_000_000, 50_000, Some(500 * 100_000_000), 800_000);
    db.store_signal("tx2", 4500, "Medium", "{}", false, 500_000, 10_000, None, 800_001);

    let high = db.get_signals_above_score(8000, 10);
    assert_eq!(high.len(), 1);
    assert_eq!(high[0].txid, "tx1");
}

#[test]
fn signals_above_score_ordered_and_limited() {
    let mut db = open_memory_db();
    db.store_signal("a", 3000, "Low", "{}", false, 0, 0, None, 0);
    db.store_signal("b", 9000, "Critical", "{}", false, 0, 0, None, 0);
    db.store_signal("c", 6000, "High", "{}", false, 0, 0, None, 0);
    db.store_signal("d", 7000, "High", "{}", false, 0, 0, None, 0);
    let top = db.get_signals_above_score(5000, 2);
    let ids: Vec<&str> = top.iter().map(|s| s.txid.as_str()).collect();
    assert_eq!(ids, vec!["b", "d"]);
}

#[test]
fn signal_count_empty() {
    let db = open_memory_db();
    assert_eq!(db.get_signal_count(), 0);
}

#[test]
fn address_tag_roundtrip() {
    let mut db = open_memory_db();
    let tag = AddressTag {
        address: "bc1qtest".to_string(),
        entity: "Binance".to_string(),
        entity_type: "exchange".to_string(),
        confidence: 9500,
        source: Some("manual".to_string()),
    };
    db.insert_tag(&tag);
    let result = db.lookup_address("bc1qtest");
    assert!(result.is_some());
    let found = result.unwrap();
    assert_eq!(found.entity, "Binance");
    assert_eq!(found.confidence, 9500);
}

#[test]
fn address_tag_miss() {
    let db = open_memory_db();
    assert!(db.lookup_address("nonexistent").is_none());
}

#[test]
fn all_tags() {
    let mut db = open_memory_db();
    let tag1 = AddressTag { address: "a1".into(), entity: "E1".into(), entity_type: "exchange".into(), confidence: 9000, source: None };
    let tag2 = AddressTag { address: "a2".into(), entity: "E2".into(), entity_type: "exchange".into(), confidence: 8000, source: None };
    db.insert_tag(&tag1);
    db.insert_tag(&tag2);
    let tags = db.all_tags();
    assert_eq!(tags.len(), 2);
}

#[test]
fn insert_tag_never_lowers_confidence() {
    let mut db = open_memory_db();
    let high = AddressTag { address: "a".into(), entity: "E".into(), entity_type: "exchange".into(), confidence: 9000, source: None };
    let low = AddressTag { address: "a".into(), entity: "F".into(), entity_type: "exchange".into(), confidence: 1000, source: None };
    db.insert_tag(&high);
    db.insert_tag(&low);
    let t = db.lookup_address("a").unwrap();
    assert_eq!(t.confidence, 9000);
    assert_eq!(t.entity, "E");
}

#[test]
fn signals_by_timerange() {
    let mut db = open_memory_db();
    db.store_signal("tx1", 8500, "Critical", "{}", true, 1_000_000, 50_000, Some(500 * 100_000_000), 800_000);

    let now = chrono::Utc::now().timestamp();
    let from = now - 3600;
    let to = now + 3600;
    let results = db.get_signals_by_timerange(from, to);
    assert_eq!(results.len(), 1);
}

#[test]
fn signals_by_timerange_bounds() {
    let mut db = open_memory_db();
    let e = |t: &str| SignalBatchEntry {
        txid: t.into(), score: 1, alert_level: "Low".into(), rule_scores_json: "{}".into(),
        to_exchange: false, total_input_value: 0, fee_rate: 0, coin_days_destroyed: None, block_height_seen: 0,
    };
    db.store_signal_at(e("t100"), 100);
    db.store_signal_at(e("t200"), 200);
    db.store_signal_at(e("t300"), 300);
    let r = db.get_signals_by_timerange(200, 300);
    let ids: Vec<&str> = r.iter().map(|s| s.txid.as_str()).collect();
    assert_eq!(ids, vec!["t300", "t200"]);
}

#[test]
fn batch_store_signals() {
    let mut db = open_memory_db();
    let entries = vec![
        SignalBatchEntry { txid: "tx1".into(), score: 8000, alert_level: "Critical".into(), rule_scores_json: "{}".into(), to_exchange: true, total_input_value: 1000, fee_rate: 10_000, coin_days_destroyed: None, block_height_seen: 1 },
        SignalBatchEntry { txid: "tx2".into(), score: 5000, alert_level: "Medium".into(), rule_scores_json: "{}".into(), to_exchange: false, total_input_value: 500, fee_rate: 5_000, coin_days_destroyed: Some(100 * 100_000_000), block_height_seen: 2 },
    ];
    db.store_signals_batch(entries);
    assert_eq!(db.get_signal_count(), 2);
    let recent = db.get_recent_signals(2);
    assert_eq!(recent[1].txid, "tx1");
    assert_eq!(recent[1].id, 1);
    assert_eq!(recent[0].id, 2);
}
