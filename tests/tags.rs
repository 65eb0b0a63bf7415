use txradar::store::Database;
use txradar::tags::{AddressTag, FlowDirection, TagLookup};
use txradar::tx::{ParsedTx, TxOutput};

fn binance_tag(address: &str, confidence: u32) -> AddressTag {
    AddressTag {
        address: address.to_string(),
        entity: "Binance".to_string(),
        entity_type: "exchange".to_string(),
        confidence,
        source: Some("manual".to_string()),
    }
}

#[test]
fn cluster_expansion_tags_unknown_inputs() {
    let db = Database::open();
    let mut lookup = TagLookup::empty_with_db(db);
    lookup.insert(binance_tag("addr_known", 9000));

    let inputs = vec!["addr_known".to_string(), "addr_unknown1".to_string(), "addr_unknown2".to_string()];

    let new_count = lookup.expand_from_tx(&inputs, false);
    assert_eq!(new_count, 2);

    let t1 = lookup.get("addr_unknown1").unwrap();
    assert_eq!(t1.entity, "Binance");
    assert!((t1.confidence as i64 - 6300).abs() < 10);
    assert_eq!(t1.source.as_deref(), Some("cluster_heuristic"));

    let t2 = lookup.get("addr_unknown2").unwrap();
    assert!((t2.confidence as i64 - 6300).abs() < 10);

    let db_tag = lookup.db().unwrap().lookup_address("addr_unknown1").unwrap();
    assert_eq!(db_tag.entity, "Binance");
    assert_eq!(lookup.cluster_tags_count(), 2);
}

#[test]
fn cluster_expansion_rerun_is_noop() {
    let mut db = Database::open();
    db.insert_tag(&binance_tag("A", 9000));
    let mut lookup = TagLookup::load_from_db(db);
    let inputs = vec!["A".to_string(), "B".to_string(), "C".to_string()];
    assert_eq!(lookup.expand_from_tx(&inputs, false), 2);
    assert_eq!(lookup.db().unwrap().all_tags().len(), 3);
    let b = lookup.db().unwrap().lookup_address("B").unwrap();
    assert_eq!(b.entity, "Binance");
    assert_eq!(b.confidence, 6300);
    assert_eq!(b.source.as_deref(), Some("cluster_heuristic"));
    assert_eq!(lookup.expand_from_tx(&inputs, false), 0);
    assert_eq!(lookup.db().unwrap().all_tags().len(), 3);
    assert_eq!(lookup.get("C").unwrap().confidence, 6300);
}

#[test]
fn cluster_expansion_skipped_for_coinjoin() {
    let mut lookup = TagLookup::empty_with_db(Database::open());
    lookup.insert(binance_tag("addr_known", 9000));

    let inputs = vec!["addr_known".to_string(), "addr_unknown".to_string()];

    let new_count = lookup.expand_from_tx(&inputs, true);
    assert_eq!(new_count, 0);
    assert!(lookup.get("addr_unknown").is_none());
    assert_eq!(lookup.db().unwrap().all_tags().len(), 0);
}

#[test]
fn cluster_expansion_no_overwrite_higher_confidence() {
    let mut lookup = TagLookup::empty();
    lookup.insert(binance_tag("addr_known", 9000));
    lookup.insert(AddressTag {
        address: "addr_existing".to_string(),
        entity: "Kraken".to_string(),
        entity_type: "exchange".to_string(),
        confidence: 8000,
        source: Some("manual".to_string()),
    });

    let inputs = vec!["addr_known".to_string(), "addr_existing".to_string()];

    let new_count = lookup.expand_from_tx(&inputs, false);
    assert_eq!(new_count, 0);

    let tag = lookup.get("addr_existing").unwrap();
    assert_eq!(tag.entity, "Kraken");
    assert_eq!(tag.confidence, 8000);
}

#[test]
fn cluster_expansion_single_input_noop() {
    let mut lookup = TagLookup::empty();
    lookup.insert(binance_tag("addr_known", 9000));

    let inputs = vec!["addr_known".to_string()];
    assert_eq!(lookup.expand_from_tx(&inputs, false), 0);
}

#[test]
fn cluster_expansion_no_known_tags() {
    let mut lookup = TagLookup::empty();
    let inputs = vec!["a".to_string(), "b".to_string()];
    assert_eq!(lookup.expand_from_tx(&inputs, false), 0);
}

#[test]
fn insert_tag_if_higher_confidence_db() {
    let mut db = Database::open();
    let tag_low = AddressTag {
        address: "addr1".to_string(),
        entity: "Binance".to_string(),
        entity_type: "exchange".to_string(),
        confidence: 5000,
        source: Some("cluster_heuristic".to_string()),
    };
    let tag_high = AddressTag {
        address: "addr1".to_string(),
        entity: "Binance".to_string(),
        entity_type: "exchange".to_string(),
        confidence: 9000,
        source: Some("manual".to_string()),
    };

    assert!(db.insert_tag_if_higher(&tag_low));
    assert!(db.insert_tag_if_higher(&tag_high));
    assert!(!db.insert_tag_if_higher(&tag_low));

    let stored = db.lookup_address("addr1").unwrap();
    assert_eq!(stored.confidence, 9000);
}

#[test]
fn check_input_addresses_finds_tagged() {
    let mut lookup = TagLookup::empty();
    lookup.insert(binance_tag("x", 7000));
    let m = lookup.check_input_addresses(&["y".to_string(), "x".to_string()]);
    assert_eq!(m.len(), 1);
    assert_eq!(m[0].address, "x");
    assert_eq!(m[0].direction, FlowDirection::FromExchange);
}

#[test]
fn check_outputs_decodes_scripts() {
    // P2PKH script for hash160 = 20 zero bytes pays to 1111111111111111111114oLvT2.
    let mut script = vec![0x76, 0xa9, 0x14];
    script.extend_from_slice(&[0u8; 20]);
    script.extend_from_slice(&[0x88, 0xac]);
    let mut lookup = TagLookup::empty();
    lookup.insert(binance_tag("1111111111111111111114oLvT2", 9000));
    let tx = ParsedTx {
        txid: [0u8; 32],
        version: 2,
        lock_time: 0,
        inputs: vec![],
        outputs: vec![TxOutput { value_sats: 1, script }, TxOutput { value_sats: 2, script: vec![0x6a] }],
        weight: 0,
    };
    let m = lookup.check_outputs(&tx);
    assert_eq!(m.len(), 1);
    assert_eq!(m[0].address, "1111111111111111111114oLvT2");
    assert_eq!(m[0].direction, FlowDirection::ToExchange);
}

#[test]
fn load_from_db_indexes_store_tags() {
    let mut db = Database::open();
    db.insert_tag(&binance_tag("q", 4000));
    let lookup = TagLookup::load_from_db(db);
    assert_eq!(lookup.len(), 1);
    assert_eq!(lookup.get("q").unwrap().confidence, 4000);
}
