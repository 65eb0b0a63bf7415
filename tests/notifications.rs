use txradar::config::NotificationConfig;
use txradar::model::{AlertLevel, AnalyzedTx, ScoredTx};
use txradar::notifications::Notifier;

fn make_scored(score: u32, to_exchange: bool) -> ScoredTx {
    ScoredTx {
        tx: AnalyzedTx {
            txid: "aabbccdd11223344".to_string(),
            raw_size: 250,
            vsize: 200,
            total_input_value: 500_000_000,
            total_output_value: 499_000_000,
            fee: 1_000_000,
            fee_rate: 50_000,
            input_count: 2,
            output_count: 2,
            oldest_input_height: None,
            oldest_input_time: None,
            coin_days_destroyed: None,
            is_rbf_signaling: false,
            seen_at: 1_700_000_000,
            prevouts_resolved: true,
            to_exchange,
            to_exchange_confidence: if to_exchange { 9000 } else { 0 },
            from_exchange: false,
            from_exchange_confidence: 0,
            is_coinjoin: false,
            coinjoin_confidence: 0,
        },
        composite_score: score,
        rule_scores: vec![],
        alert_level: AlertLevel::from_score(score),
    }
}

#[test]
fn cooldown_blocks_rapid_notifications() {
    let config = NotificationConfig { enabled: true, min_score: 6000, cooldown_seconds: 30 };
    let mut notifier = Notifier::new(&config);
    assert!(notifier.check_cooldown());
    assert!(!notifier.check_cooldown());
}

#[test]
fn cooldown_zero_allows_all() {
    let config = NotificationConfig { enabled: true, min_score: 6000, cooldown_seconds: 0 };
    let mut notifier = Notifier::new(&config);
    assert!(notifier.check_cooldown());
    assert!(notifier.check_cooldown());
}

#[test]
fn disabled_notifier_skips() {
    let config = NotificationConfig { enabled: false, min_score: 6000, cooldown_seconds: 30 };
    let mut notifier = Notifier::new(&config);
    let tx = make_scored(9000, true);
    assert!(!notifier.notify(&tx));
}

#[test]
fn below_min_score_skips() {
    let config = NotificationConfig { enabled: true, min_score: 6000, cooldown_seconds: 30 };
    let mut notifier = Notifier::new(&config);
    let tx = make_scored(5000, false);
    assert!(!notifier.notify(&tx));
}

#[test]
fn cooldown_expires_after_interval() {
    let config = NotificationConfig { enabled: true, min_score: 6000, cooldown_seconds: 30 };
    let mut notifier = Notifier::new(&config);
    assert!(notifier.notify_at(7000, 1000));
    assert!(!notifier.notify_at(7000, 1029));
    assert!(notifier.notify_at(7000, 1030));
}
