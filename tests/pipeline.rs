use txradar::coinjoin::detect_coinjoin;
use txradar::model::{AlertLevel, RemovalReason, RuleScore};
use txradar::pipeline::{build_analyzed_tx, Pipeline, PipelineOutput};
use txradar::resolver::{aggregate_prevouts, prevout_from_fields, prevout_keys, ResolvedPrevout};
use txradar::signals::SignalEngine;
use txradar::store::Database;
use txradar::tags::{AddressTag, TagLookup};
use txradar::tx::{ParsedTx, TxInput, TxOutput};

fn input(seq: u32, first: u8) -> TxInput {
    let mut prev = [0u8; 32];
    prev[0] = first;
    TxInput { prev_txid: prev, prev_vout: 0, sequence: seq }
}

fn simple_tx(values: &[u64]) -> ParsedTx {
    ParsedTx {
        txid: [7u8; 32],
        version: 2,
        lock_time: 0,
        inputs: vec![input(0xFFFF_FFFF, 1)],
        outputs: values.iter().map(|&v| TxOutput { value_sats: v, script: vec![] }).collect(),
        weight: 800,
    }
}

#[test]
fn fee_rate_is_fee_over_vsize_when_resolved() {
    let tx = simple_tx(&[50_000, 49_000]);
    let summary = aggregate_prevouts(&[Some(ResolvedPrevout { value: 100_000, block_height: 10, block_time: 0 })], 0);
    let cj = detect_coinjoin(&tx);
    let a = build_analyzed_tx(&tx, 200, &summary, &[], &cj, 0);
    assert!(a.prevouts_resolved);
    assert_eq!(a.vsize, 200);
    assert_eq!(a.fee, 1_000);
    assert_eq!(a.fee_rate, 5_000);
    assert_eq!(a.txid, "07".repeat(32));
}

#[test]
fn fee_and_rate_zero_when_unresolved() {
    let mut tx = simple_tx(&[50_000]);
    tx.inputs.push(input(0, 2));
    let summary = aggregate_prevouts(&[Some(ResolvedPrevout { value: 100_000, block_height: 10, block_time: 0 }), None], 0);
    let cj = detect_coinjoin(&tx);
    let a = build_analyzed_tx(&tx, 200, &summary, &[], &cj, 0);
    assert!(!a.prevouts_resolved);
    assert_eq!(a.fee, 0);
    assert_eq!(a.fee_rate, 0);
    assert!(a.is_rbf_signaling);
}

#[test]
fn aggregate_tracks_oldest_and_cdd() {
    let day = 86_400;
    let now = 1_000 * day;
    let r = aggregate_prevouts(
        &[
            Some(ResolvedPrevout { value: 100_000_000, block_height: 500, block_time: now - 10 * day }),
            None,
            Some(ResolvedPrevout { value: 200_000_000, block_height: 400, block_time: now - 20 * day }),
            Some(ResolvedPrevout { value: 5, block_height: 0, block_time: 0 }),
        ],
        now,
    );
    assert_eq!(r.resolved_count, 3);
    assert_eq!(r.total_input_value, 300_000_005);
    assert_eq!(r.oldest_input_time, Some(now - 20 * day));
    assert_eq!(r.oldest_input_height, Some(400));
    // 1 BTC × 10 days + 2 BTC × 20 days = 50 coin-days.
    assert_eq!(r.coin_days_destroyed, Some(50 * 100_000_000));
}

#[test]
fn aggregate_without_resolved_inputs() {
    let r = aggregate_prevouts(&[None, None], 10);
    assert_eq!(r.resolved_count, 0);
    assert_eq!(r.coin_days_destroyed, None);
    assert_eq!(r.oldest_input_time, None);
}

#[test]
fn prevout_keys_skip_coinbase() {
    let mut tx = simple_tx(&[1]);
    tx.inputs.push(TxInput { prev_txid: [0u8; 32], prev_vout: 0xFFFF_FFFF, sequence: 0 });
    let keys = prevout_keys(&tx);
    assert_eq!(keys.len(), 2);
    let (txid, vout) = keys[0].clone().unwrap();
    assert_eq!(txid, format!("{}01", "00".repeat(31)));
    assert_eq!(vout, 0);
    assert!(keys[1].is_none());
}

#[test]
fn prevout_fields_defaults() {
    let (p, st) = prevout_from_fields(Some(5), None, None, Some(7), None).unwrap();
    assert_eq!(p, ResolvedPrevout { value: 5, block_height: 7, block_time: 0 });
    assert_eq!(st, "unknown");
    let (p2, st2) = prevout_from_fields(Some(9), Some("p2tr".to_string()), Some(3), Some(7), Some(11)).unwrap();
    assert_eq!(p2.block_height, 3);
    assert_eq!(p2.block_time, 11);
    assert_eq!(st2, "p2tr");
    assert!(prevout_from_fields(None, None, None, None, None).is_none());
}

#[test]
fn simple_payment_scores_low() {
    let tx = simple_tx(&[50_000, 49_000]);
    let mut p = Pipeline::new(SignalEngine::new(), Database::open(), 1_000, 0);
    let out = p.on_tx_added(&tx, 200, &[Some(ResolvedPrevout { value: 100_000, block_height: 1, block_time: 0 })], 0, 0);
    match &out[0] {
        PipelineOutput::NewTx(s) => {
            assert!(!s.tx.is_coinjoin);
            assert!(s.composite_score < 4_000);
            assert_eq!(s.alert_level, AlertLevel::Low);
            assert_eq!(s.rule_scores.len(), 8);
        },
        _ => panic!("expected a scored transaction"),
    }
    assert_eq!(p.tx_count, 1);
}

#[test]
fn exchange_deposit_scores_exactly() {
    let mut script = vec![0x76, 0xa9, 0x14];
    script.extend_from_slice(&[0u8; 20]);
    script.extend_from_slice(&[0x88, 0xac]);
    let mut db = Database::open();
    db.insert_tag(&AddressTag {
        address: "1111111111111111111114oLvT2".into(),
        entity: "Binance".into(),
        entity_type: "exchange".into(),
        confidence: 9000,
        source: None,
    });
    let lookup = TagLookup::load_from_db(db);
    let tx = ParsedTx {
        txid: [1u8; 32],
        version: 2,
        lock_time: 0,
        inputs: vec![input(0xFFFF_FFFF, 3)],
        outputs: vec![TxOutput { value_sats: 0, script }],
        weight: 800,
    };
    let matches = lookup.check_outputs(&tx);
    let summary = aggregate_prevouts(&[None], 0);
    let cj = detect_coinjoin(&tx);
    let mut a = build_analyzed_tx(&tx, 200, &summary, &matches, &cj, 0);
    assert!(a.to_exchange);
    assert_eq!(a.to_exchange_confidence, 9000);
    // Zero every other rule: no value, no inputs counted.
    a.input_count = 0;
    let scored = SignalEngine::new().score_at(&a, 0);
    assert_eq!(scored.rule_scores[6].raw_value, 900_000);
    assert_eq!(scored.composite_score, 1875);
}

#[test]
fn whirlpool_contributes_negative_weight() {
    let mut outputs: Vec<TxOutput> = (0..5).map(|_| TxOutput { value_sats: 1_000_000, script: vec![] }).collect();
    outputs.push(TxOutput { value_sats: 50_000, script: vec![] });
    let tx = ParsedTx {
        txid: [2u8; 32],
        version: 2,
        lock_time: 0,
        inputs: (0..5).map(|i| input(0xFFFF_FFFF, i + 1)).collect(),
        outputs,
        weight: 4000,
    };
    let summary = aggregate_prevouts(&[None, None, None, None, None], 0);
    let a = build_analyzed_tx(&tx, 1000, &summary, &[], &detect_coinjoin(&tx), 0);
    assert!(a.is_coinjoin);
    assert_eq!(a.coinjoin_confidence, 9500);
    let scored = SignalEngine::new().score_at(&a, 0);
    assert_eq!(scored.rule_scores[7].raw_value, 950_000);
    assert_eq!(scored.rule_scores[7].weighted_score, 950_000 * -6_000);
}

#[test]
fn block_connected_emits_block_and_stats() {
    let mut p = Pipeline::new(SignalEngine::new(), Database::open(), 1_000, 0);
    let out = p.on_block_connected(42);
    assert_eq!(out.len(), 2);
    assert!(matches!(out[0], PipelineOutput::BlockConnected { height: 42 }));
    assert!(matches!(out[1], PipelineOutput::MempoolStats { pending_count: 0, .. }));
    assert_eq!(p.block_count, 1);
}

#[test]
fn removal_uses_display_order_txid() {
    let mut p = Pipeline::new(SignalEngine::new(), Database::open(), 0, 0);
    let mut tx = simple_tx(&[1]);
    tx.txid[31] = 0xab;
    p.on_tx_added(&tx, 10, &[None], 5, 5);
    assert_eq!(p.mempool.pending_count(), 1);
    p.on_tx_removed(&tx.txid, RemovalReason::Confirmed, 6);
    assert_eq!(p.mempool.pending_count(), 0);
}

#[test]
fn signals_batched_then_flushed() {
    let mut p = Pipeline::new(SignalEngine::new(), Database::open(), 0, 0);
    let tx = simple_tx(&[1]);
    p.on_tx_added(&tx, 10, &[None], 5, 10);
    assert_eq!(p.batch.len(), 1);
    assert_eq!(p.store.get_signal_count(), 0);
    assert_eq!(p.flush_if_due(500), 0);
    assert_eq!(p.flush_if_due(1_010), 1);
    assert_eq!(p.store.get_signal_count(), 1);
    assert_eq!(p.batch.len(), 0);
    let row = &p.store.get_recent_signals(1)[0];
    assert_eq!(row.txid, "07".repeat(32));
    assert_eq!(row.alert_level, "Low");
    assert!(row.rule_scores_json.starts_with("[{\"rule\":\"tx_value\",\"raw\":0,\"weight\":6000},"));
    assert!(row.rule_scores_json.ends_with("{\"rule\":\"coinjoin\",\"raw\":0,\"weight\":-6000}]"));
}

#[test]
fn signals_carry_block_height() {
    let mut p = Pipeline::new(SignalEngine::new(), Database::open(), 0, 0);
    p.on_block_connected(812_000);
    let tx = simple_tx(&[1]);
    p.on_tx_added(&tx, 10, &[None], 5, 10);
    p.flush();
    assert_eq!(p.store.get_recent_signals(1)[0].block_height_seen, 812_000);
}

#[test]
fn rule_scores_json_renders_values() {
    let scores = vec![
        RuleScore { rule_name: "a".into(), raw_value: -500_000, weight: 10, weighted_score: -5_000_000 },
        RuleScore { rule_name: "b".into(), raw_value: 7, weight: -3, weighted_score: -21 },
    ];
    assert_eq!(
        txradar::signals::rule_scores_json(&scores),
        "[{\"rule\":\"a\",\"raw\":-500000,\"weight\":10},{\"rule\":\"b\",\"raw\":7,\"weight\":-3}]"
    );
    assert_eq!(txradar::signals::rule_scores_json(&[]), "[]");
}
