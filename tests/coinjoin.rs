use txradar::coinjoin::{detect_coinjoin, CoinJoinPattern, CoinJoinResult};
use txradar::tx::{ParsedTx, TxInput, TxOutput};

fn make_tx(input_count: usize, outputs_sats: &[u64]) -> ParsedTx {
    let inputs: Vec<TxInput> = (0..input_count)
        .map(|_| TxInput { prev_txid: [0u8; 32], prev_vout: u32::MAX, sequence: u32::MAX })
        .collect();
    let outputs: Vec<TxOutput> = outputs_sats
        .iter()
        .map(|&sats| TxOutput { value_sats: sats, script: Vec::new() })
        .collect();
    ParsedTx { txid: [0u8; 32], version: 2, lock_time: 0, inputs, outputs, weight: 0 }
}

#[test]
fn test_not_coinjoin_simple() {
    let tx = make_tx(1, &[50_000, 100_000]);
    let result = detect_coinjoin(&tx);
    assert!(!result.is_coinjoin);
}

#[test]
fn test_whirlpool_detected() {
    let mut outputs = vec![1_000_000; 5];
    outputs.push(50_000);
    let tx = make_tx(5, &outputs);
    let result = detect_coinjoin(&tx);
    assert!(result.is_coinjoin);
    assert_eq!(result.pattern, CoinJoinPattern::WhirlpoolPool);
    assert!(result.confidence >= 9000);
    assert_eq!(result.confidence, 9500);
}

#[test]
fn test_wasabi_like_detected() {
    let mut outputs = vec![10_000_000; 20];
    outputs.extend_from_slice(&[500_000, 300_000, 200_000]);
    let tx = make_tx(15, &outputs);
    let result = detect_coinjoin(&tx);
    assert!(result.is_coinjoin);
    assert_eq!(result.pattern, CoinJoinPattern::WasabiLike);
    assert_eq!(result.confidence, 8500);
}

#[test]
fn test_equal_output_detected() {
    let mut outputs = vec![1_234_567; 8];
    outputs.push(50_000);
    let tx = make_tx(6, &outputs);
    let result = detect_coinjoin(&tx);
    assert!(result.is_coinjoin);
    assert_eq!(result.pattern, CoinJoinPattern::EqualOutput);
    assert_eq!(result.confidence, 7500);
}

#[test]
fn test_not_coinjoin_few_equal() {
    let tx = make_tx(5, &[100_000, 100_000, 200_000, 300_000, 400_000]);
    let result = detect_coinjoin(&tx);
    assert!(!result.is_coinjoin);
}

#[test]
fn test_empty_outputs() {
    let tx = make_tx(0, &[]);
    let result = detect_coinjoin(&tx);
    assert!(!result.is_coinjoin);
}

#[test]
fn test_single_output() {
    let tx = make_tx(1, &[50_000]);
    let result = detect_coinjoin(&tx);
    assert!(!result.is_coinjoin);
}

#[test]
fn test_two_equal_outputs_under_threshold() {
    let tx = make_tx(3, &[100_000, 100_000, 50_000]);
    let result = detect_coinjoin(&tx);
    assert!(!result.is_coinjoin);
}

#[test]
fn test_whirlpool_all_pool_sizes() {
    for &pool in &[100_000u64, 1_000_000, 5_000_000, 50_000_000] {
        let mut outputs = vec![pool; 5];
        outputs.push(10_000);
        let tx = make_tx(5, &outputs);
        let result = detect_coinjoin(&tx);
        assert!(result.is_coinjoin, "Whirlpool pool {pool} not detected");
        assert_eq!(result.pattern, CoinJoinPattern::WhirlpoolPool);
        assert!(result.confidence >= 9000);
    }
}

#[test]
fn test_normal_payment_not_coinjoin() {
    let tx = make_tx(1, &[50_000, 49_000]);
    assert!(!detect_coinjoin(&tx).is_coinjoin);
}

#[test]
fn test_consolidation_not_coinjoin() {
    let tx = make_tx(10, &[1_000_000]);
    assert!(!detect_coinjoin(&tx).is_coinjoin);
}

#[test]
fn test_three_equal_high_ratio_weak_signal() {
    let tx = make_tx(3, &[500_000, 500_000, 500_000, 10_000]);
    let result = detect_coinjoin(&tx);
    assert!(result.is_coinjoin);
    assert_eq!(result.confidence, 5000);
}

#[test]
fn test_equal_ratio_below_50_percent() {
    let tx = make_tx(5, &[100_000, 100_000, 100_000, 200_000, 300_000, 400_000, 500_000, 600_000]);
    let result = detect_coinjoin(&tx);
    assert!(!result.is_coinjoin);
}

#[test]
fn test_default_result() {
    let d = CoinJoinResult::default();
    assert!(!d.is_coinjoin);
    assert_eq!(d.confidence, 0);
    assert_eq!(d.pattern, CoinJoinPattern::Unknown);
}

#[test]
fn few_inputs_never_coinjoin() {
    let tx = make_tx(2, &[1_000_000, 1_000_000, 1_000_000, 1_000_000, 1_000_000]);
    assert!(!detect_coinjoin(&tx).is_coinjoin);
}

#[test]
fn exactly_half_equal_is_not_coinjoin() {
    let tx = make_tx(6, &[7, 7, 7, 1, 2, 3]);
    assert!(!detect_coinjoin(&tx).is_coinjoin);
}

#[test]
fn round_but_fewer_than_ten_is_equal_output() {
    let mut outputs = vec![200_000; 6];
    outputs.push(1);
    let tx = make_tx(6, &outputs);
    let r = detect_coinjoin(&tx);
    assert!(r.is_coinjoin);
    assert_eq!(r.pattern, CoinJoinPattern::EqualOutput);
    assert_eq!(r.confidence, 8500);
}
