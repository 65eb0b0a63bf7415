use txradar::model::AnalyzedTx;
use txradar::rules::{default_rules, Rule};

fn make_test_tx() -> AnalyzedTx {
    AnalyzedTx {
        txid: "deadbeef".to_string(),
        raw_size: 250,
        vsize: 200,
        total_input_value: 0,
        total_output_value: 0,
        fee: 2000,
        fee_rate: 10_000,
        input_count: 1,
        output_count: 2,
        oldest_input_height: None,
        oldest_input_time: None,
        coin_days_destroyed: None,
        is_rbf_signaling: false,
        seen_at: 1_700_000_000,
        prevouts_resolved: false,
        to_exchange: false,
        to_exchange_confidence: 0,
        from_exchange: false,
        from_exchange_confidence: 0,
        is_coinjoin: false,
        coinjoin_confidence: 0,
    }
}

/// One coin-day, in satoshi-days.
const COIN_DAY: u64 = 100_000_000;

#[test]
fn tx_value_zero() {
    let rule = Rule::TxValue;
    let tx = make_test_tx();
    assert!((rule.evaluate(&tx) - 0).abs() < 1_000);
}

#[test]
fn tx_value_midpoint() {
    let rule = Rule::TxValue;
    let mut tx = make_test_tx();
    tx.total_input_value = 10_0000_0000;
    let score = rule.evaluate(&tx);
    assert!((score - 500_000).abs() < 10_000, "Expected ~0.5, got {score}");
    assert_eq!(score, 500_000);
}

#[test]
fn tx_value_high() {
    let rule = Rule::TxValue;
    let mut tx = make_test_tx();
    tx.total_input_value = 1000_0000_0000;
    let score = rule.evaluate(&tx);
    assert!(score > 980_000, "Expected ~1.0, got {score}");
}

#[test]
fn utxo_age_none() {
    let rule = Rule::UtxoAge;
    let tx = make_test_tx();
    assert_eq!(rule.evaluate(&tx), 0);
}

#[test]
fn utxo_age_one_year() {
    let rule = Rule::UtxoAge;
    let mut tx = make_test_tx();
    tx.oldest_input_time = Some(chrono::Utc::now().timestamp() - 365 * 86_400);
    let score = rule.evaluate(&tx);
    assert!((score - 500_000).abs() < 50_000, "Expected ~0.5, got {score}");
}

#[test]
fn utxo_age_exact_at_fixed_time() {
    let mut tx = make_test_tx();
    tx.oldest_input_time = Some(1_000_000);
    assert_eq!(Rule::UtxoAge.evaluate_at(&tx, 1_000_000 + 365 * 86_400), 500_000);
    assert_eq!(Rule::UtxoAge.evaluate_at(&tx, 1_000_000 - 10), 0);
}

#[test]
fn cdd_none() {
    let rule = Rule::CoinDaysDestroyed;
    let tx = make_test_tx();
    assert_eq!(rule.evaluate(&tx), 0);
}

#[test]
fn cdd_midpoint() {
    let rule = Rule::CoinDaysDestroyed;
    let mut tx = make_test_tx();
    tx.coin_days_destroyed = Some(1000 * COIN_DAY);
    let score = rule.evaluate(&tx);
    assert!((score - 500_000).abs() < 10_000);
}

#[test]
fn cdd_high() {
    let rule = Rule::CoinDaysDestroyed;
    let mut tx = make_test_tx();
    tx.coin_days_destroyed = Some(100_000 * COIN_DAY);
    assert!(rule.evaluate(&tx) > 980_000);
}

#[test]
fn cdd_zero_value() {
    let rule = Rule::CoinDaysDestroyed;
    let mut tx = make_test_tx();
    tx.coin_days_destroyed = Some(0);
    assert!(rule.evaluate(&tx).abs() < 1_000);
}

#[test]
fn input_count_single() {
    let rule = Rule::InputCount;
    let mut tx = make_test_tx();
    tx.input_count = 1;
    assert!(rule.evaluate(&tx) < 100_000);
}

#[test]
fn input_count_midpoint() {
    let rule = Rule::InputCount;
    let mut tx = make_test_tx();
    tx.input_count = 20;
    let score = rule.evaluate(&tx);
    assert!((score - 500_000).abs() < 10_000);
}

#[test]
fn fee_rate_zero() {
    let rule = Rule::FeeRate;
    let mut tx = make_test_tx();
    tx.fee_rate = 0;
    assert!(rule.evaluate(&tx).abs() < 1_000);
}

#[test]
fn fee_rate_midpoint() {
    let rule = Rule::FeeRate;
    let mut tx = make_test_tx();
    tx.fee_rate = 50_000;
    let score = rule.evaluate(&tx);
    assert!((score - 500_000).abs() < 10_000);
}

#[test]
fn rbf_signaling() {
    let rule = Rule::Rbf;
    let mut tx = make_test_tx();
    tx.is_rbf_signaling = true;
    assert_eq!(rule.evaluate(&tx), 500_000);
}

#[test]
fn rbf_not_signaling() {
    let rule = Rule::Rbf;
    let tx = make_test_tx();
    assert_eq!(rule.evaluate(&tx), 0);
}

#[test]
fn coinjoin_not_detected() {
    let rule = Rule::CoinJoin;
    let tx = make_test_tx();
    assert_eq!(rule.evaluate(&tx), 0);
}

#[test]
fn coinjoin_high_confidence() {
    let rule = Rule::CoinJoin;
    let mut tx = make_test_tx();
    tx.is_coinjoin = true;
    tx.coinjoin_confidence = 9500;
    assert!((rule.evaluate(&tx) - 950_000).abs() < 1_000);
}

#[test]
fn coinjoin_clamped_above_one() {
    let rule = Rule::CoinJoin;
    let mut tx = make_test_tx();
    tx.is_coinjoin = true;
    tx.coinjoin_confidence = 15_000;
    assert_eq!(rule.evaluate(&tx), 1_000_000);
}

#[test]
fn exchange_flow_to_exchange() {
    let rule = Rule::ExchangeFlow;
    let mut tx = make_test_tx();
    tx.to_exchange = true;
    tx.to_exchange_confidence = 8000;
    assert!((rule.evaluate(&tx) - 800_000).abs() < 1_000);
}

#[test]
fn exchange_flow_from_exchange() {
    let rule = Rule::ExchangeFlow;
    let mut tx = make_test_tx();
    tx.from_exchange = true;
    tx.from_exchange_confidence = 10_000;
    let score = rule.evaluate(&tx);
    assert!((score - (-500_000)).abs() < 1_000);
}

#[test]
fn exchange_flow_neither() {
    let rule = Rule::ExchangeFlow;
    let tx = make_test_tx();
    assert_eq!(rule.evaluate(&tx), 0);
}

#[test]
fn exchange_flow_both_prefers_to() {
    let rule = Rule::ExchangeFlow;
    let mut tx = make_test_tx();
    tx.to_exchange = true;
    tx.to_exchange_confidence = 9000;
    tx.from_exchange = true;
    tx.from_exchange_confidence = 8000;
    assert!((rule.evaluate(&tx) - 900_000).abs() < 1_000);
}

#[test]
fn default_rules_count() {
    let rules = default_rules();
    assert_eq!(rules.len(), 8);
}

#[test]
fn all_rules_names_unique() {
    let rules = default_rules();
    let mut names: Vec<&str> = rules.iter().map(|r| r.name()).collect();
    let len = names.len();
    names.sort();
    names.dedup();
    assert_eq!(len, names.len());
}

#[test]
fn default_weights_match_table() {
    let weights: Vec<i32> = default_rules().iter().map(|r| r.default_weight()).collect();
    assert_eq!(weights, vec![6000, 8000, 9000, 4000, 3000, 2000, 10000, -6000]);
}
