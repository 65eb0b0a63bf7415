use txradar::config::{rule_from_name, weight_overrides, Config};
use txradar::model::{AlertLevel, AlertThresholds};
use txradar::rpc::BitcoinRpc;
use txradar::rules::Rule;
use txradar::signals::SignalEngine;
use txradar::tx::{display_hex, is_rbf_signaling, parse_raw_tx, vsize, ParsedTx, TxInput};

#[test]
fn rpc_client_url_and_auth() {
    let rpc = BitcoinRpc::new("127.0.0.1", 8332, "user", "pass");
    assert_eq!(rpc.url, "http://127.0.0.1:8332");
    assert_eq!(rpc.auth, "dXNlcjpwYXNz");
    let rpc0 = BitcoinRpc::new("h", 0, "", "");
    assert_eq!(rpc0.url, "http://h:0");
    assert_eq!(rpc0.auth, "Og==");
}

#[test]
fn alert_levels_default_thresholds() {
    assert_eq!(AlertLevel::from_score(8000), AlertLevel::Critical);
    assert_eq!(AlertLevel::from_score(7999), AlertLevel::High);
    assert_eq!(AlertLevel::from_score(4000), AlertLevel::Medium);
    assert_eq!(AlertLevel::from_score(3999), AlertLevel::Low);
    assert_eq!(AlertLevel::from_score_with_thresholds(50, 100, 60, 40), AlertLevel::Medium);
    assert_eq!(AlertLevel::Critical.emoji(), "🔴");
    assert_eq!(AlertLevel::Low.name(), "Low");
}

#[test]
fn alert_level_monotone_on_samples() {
    let rank = |l: AlertLevel| match l {
        AlertLevel::Low => 0,
        AlertLevel::Medium => 1,
        AlertLevel::High => 2,
        AlertLevel::Critical => 3,
    };
    let mut prev = 0;
    for s in (0..=10_000).step_by(250) {
        let r = rank(AlertLevel::from_score_with_thresholds(s, 7000, 9000, 1000));
        assert!(r >= prev);
        prev = r;
    }
}

#[test]
fn weight_overrides_by_name() {
    assert_eq!(rule_from_name("cdd"), Some(Rule::CoinDaysDestroyed));
    assert_eq!(rule_from_name("nope"), None);
    let o = weight_overrides(&[("coinjoin".to_string(), -1000), ("bogus".to_string(), 5)]);
    assert_eq!(o, vec![(Rule::CoinJoin, -1000)]);
    let e = SignalEngine::with_config(o, AlertThresholds::default());
    assert_eq!(e.weight_of(Rule::CoinJoin), -1000);
    assert_eq!(e.weight_of(Rule::TxValue), 6000);
}

#[test]
fn config_defaults() {
    let c = Config::default();
    assert_eq!(c.bitcoin.rpc_port, 8332);
    assert_eq!(c.signals.min_score_persist, 1000);
    assert_eq!(c.signals.alert_thresholds, AlertThresholds { critical: 8000, high: 6000, medium: 4000 });
    assert_eq!(c.ui.max_feed_entries, 500);
    assert_eq!(c.database.path, "data/utxo_cache.db");
    assert!(c.notifications.enabled);
}

#[test]
fn display_hex_reverses_bytes() {
    let mut h = [0u8; 32];
    h[0] = 0x01;
    h[31] = 0xfe;
    let s = display_hex(&h);
    assert_eq!(s.len(), 64);
    assert!(s.starts_with("fe00"));
    assert!(s.ends_with("0001"));
}

#[test]
fn vsize_rounds_up_and_rbf() {
    let mut tx = ParsedTx { txid: [0; 32], version: 2, lock_time: 0, inputs: vec![], outputs: vec![], weight: 561 };
    assert_eq!(vsize(&tx), 141);
    tx.weight = 560;
    assert_eq!(vsize(&tx), 140);
    tx.inputs.push(TxInput { prev_txid: [0; 32], prev_vout: 0, sequence: 0xFFFF_FFFE });
    assert!(!is_rbf_signaling(&tx));
    tx.inputs.push(TxInput { prev_txid: [0; 32], prev_vout: 0, sequence: 0xFFFF_FFFD });
    assert!(is_rbf_signaling(&tx));
}

#[test]
fn parse_raw_tx_decodes_legacy_tx() {
    let mut raw: Vec<u8> = vec![];
    raw.extend_from_slice(&2i32.to_le_bytes());
    raw.push(1);
    raw.extend_from_slice(&[0xaa; 32]);
    raw.extend_from_slice(&3u32.to_le_bytes());
    raw.push(0);
    raw.extend_from_slice(&0xFFFF_FFFDu32.to_le_bytes());
    raw.push(1);
    raw.extend_from_slice(&12_345u64.to_le_bytes());
    raw.push(1);
    raw.push(0x6a);
    raw.extend_from_slice(&0u32.to_le_bytes());
    let tx = parse_raw_tx(&raw).unwrap();
    assert_eq!(tx.version, 2);
    assert_eq!(tx.inputs.len(), 1);
    assert_eq!(tx.inputs[0].prev_txid, [0xaa; 32]);
    assert_eq!(tx.inputs[0].prev_vout, 3);
    assert_eq!(tx.outputs[0].value_sats, 12_345);
    assert_eq!(tx.outputs[0].script, vec![0x6a]);
    assert_eq!(tx.weight, 4 * raw.len() as u64);
    assert!(is_rbf_signaling(&tx));
    assert!(parse_raw_tx(&raw[..raw.len() - 1]).is_none());
    assert!(parse_raw_tx(&[]).is_none());
}
