use txradar::mempool::{MempoolState, TxState};
use txradar::model::{AnalyzedTx, RemovalReason};

fn tx(txid: &str, fee: u64, vsize: usize, fee_rate: u64) -> AnalyzedTx {
    AnalyzedTx {
        txid: txid.to_string(),
        raw_size: vsize,
        vsize,
        total_input_value: 0,
        total_output_value: 0,
        fee,
        fee_rate,
        input_count: 1,
        output_count: 1,
        oldest_input_height: None,
        oldest_input_time: None,
        coin_days_destroyed: None,
        is_rbf_signaling: false,
        seen_at: 0,
        prevouts_resolved: true,
        to_exchange: false,
        to_exchange_confidence: 0,
        from_exchange: false,
        from_exchange_confidence: 0,
        is_coinjoin: false,
        coinjoin_confidence: 0,
    }
}

#[test]
fn histogram_three_pending() {
    let mut m = MempoolState::new();
    m.add_tx(tx("a", 300, 100, 3_000));
    m.add_tx(tx("b", 1200, 100, 12_000));
    m.add_tx(tx("c", 1200, 100, 12_000));
    let h = m.fee_histogram();
    let expected: Vec<(String, usize)> = vec![
        ("1-5".to_string(), 1),
        ("5-10".to_string(), 0),
        ("10-20".to_string(), 2),
        ("20-50".to_string(), 0),
        ("50-100".to_string(), 0),
        ("100+".to_string(), 0),
    ];
    assert_eq!(h, expected);
    let total: usize = h.iter().map(|(_, c)| c).sum();
    assert_eq!(total, m.pending_count());
}

#[test]
fn histogram_bucket_edges() {
    let mut m = MempoolState::new();
    m.add_tx(tx("z", 0, 100, 0));
    m.add_tx(tx("five", 0, 100, 5_000));
    m.add_tx(tx("hundred", 0, 100, 100_000));
    let h = m.fee_histogram();
    assert_eq!(h[0].1, 1);
    assert_eq!(h[1].1, 1);
    assert_eq!(h[5].1, 1);
}

#[test]
fn remove_replaced_lowers_pending_by_one() {
    let mut m = MempoolState::new();
    m.add_tx(tx("a", 100, 10, 10_000));
    m.add_tx(tx("b", 200, 20, 10_000));
    assert_eq!(m.pending_count(), 2);
    m.remove_tx("a", RemovalReason::Replaced);
    assert_eq!(m.pending_count(), 1);
    m.remove_tx("a", RemovalReason::Replaced);
    assert_eq!(m.pending_count(), 1);
    m.remove_tx("unknown", RemovalReason::Confirmed);
    assert_eq!(m.pending_count(), 1);
    assert_eq!(m.total_fees(), 200);
    assert_eq!(m.total_vsize(), 20);
}

#[test]
fn add_overwrites_same_txid() {
    let mut m = MempoolState::new();
    m.add_tx_at(tx("a", 100, 10, 10_000), 5);
    m.remove_tx_at("a", RemovalReason::Evicted, 6);
    assert_eq!(m.pending_count(), 0);
    m.add_tx_at(tx("a", 300, 10, 10_000), 7);
    assert_eq!(m.pending_count(), 1);
    assert_eq!(m.total_fees(), 300);
}

#[test]
fn prune_zero_removes_non_pending() {
    let mut m = MempoolState::new();
    m.add_tx_at(tx("a", 1, 1, 0), 100);
    m.add_tx_at(tx("b", 2, 1, 0), 100);
    m.add_tx_at(tx("c", 4, 1, 0), 100);
    m.remove_tx_at("a", RemovalReason::Confirmed, 150);
    m.remove_tx_at("b", RemovalReason::Unknown, 150);
    m.prune_old_at(0, 200);
    assert_eq!(m.pending_count(), 1);
    assert_eq!(m.total_fees(), 4);
    // A pruned txid is gone entirely: adding it again counts once.
    m.add_tx_at(tx("a", 8, 1, 0), 210);
    assert_eq!(m.pending_count(), 2);
}

#[test]
fn prune_unbounded_removes_nothing() {
    let mut m = MempoolState::new();
    m.add_tx_at(tx("a", 1, 1, 0), 100);
    m.remove_tx_at("a", RemovalReason::Confirmed, 150);
    m.prune_old_at(i64::MAX, 1_000_000);
    m.remove_tx_at("a", RemovalReason::Replaced, 160);
    m.add_tx_at(tx("b", 2, 1, 0), 170);
    assert_eq!(m.pending_count(), 1);
}

#[test]
fn confirm_txids_only_pending() {
    let mut m = MempoolState::new();
    m.add_tx_at(tx("a", 1, 1, 0), 1);
    m.add_tx_at(tx("b", 2, 1, 0), 1);
    m.confirm_txids_at(&["a".to_string(), "x".to_string()], 2);
    assert_eq!(m.pending_count(), 1);
    assert_eq!(m.total_fees(), 2);
    assert_eq!(m.confirm_all_pending(), 0);
    assert_eq!(m.pending_count(), 1);
}

#[test]
fn record_replacement_marks_replaced() {
    let mut m = MempoolState::new();
    m.add_tx_at(tx("old", 1, 1, 0), 1);
    m.add_tx_at(tx("new", 2, 1, 0), 1);
    m.record_replacement_at("old", "new", 3);
    assert_eq!(m.pending_count(), 1);
    assert_eq!(TxState::Replaced, TxState::Replaced);
}
