use txradar::model::RuleScore;
use txradar::score::compute_composite;

fn make_score(name: &str, raw: i64, weight: i32) -> RuleScore {
    RuleScore { rule_name: name.to_string(), raw_value: raw, weight, weighted_score: raw * weight as i64 }
}

#[test]
fn empty_scores() {
    assert_eq!(compute_composite(&[]), 0);
}

#[test]
fn single_full_score() {
    let scores = vec![make_score("test", 1_000_000, 10_000)];
    assert!((compute_composite(&scores) as i64 - 10_000).abs() < 1);
}

#[test]
fn single_half_score() {
    let scores = vec![make_score("test", 500_000, 10_000)];
    assert!((compute_composite(&scores) as i64 - 5_000).abs() < 1);
}

#[test]
fn multiple_scores() {
    let scores = vec![make_score("a", 1_000_000, 6_000), make_score("b", 500_000, 4_000)];
    assert!((compute_composite(&scores) as i64 - 8_000).abs() < 1);
}

#[test]
fn negative_weight_reduces_score() {
    let scores = vec![make_score("a", 1_000_000, 10_000), make_score("cj", 1_000_000, -6_000)];
    assert!((compute_composite(&scores) as i64 - 2_500).abs() < 1);
}

#[test]
fn clamped_to_zero() {
    let scores = vec![make_score("a", 0, 10_000), make_score("cj", 1_000_000, -6_000)];
    assert_eq!(compute_composite(&scores), 0);
}

#[test]
fn zero_weights() {
    let scores = vec![make_score("a", 1_000_000, 0)];
    assert_eq!(compute_composite(&scores), 0);
}

#[test]
fn composite_stays_within_range() {
    let scores = vec![make_score("a", 1_000_000, 2_000_000_000), make_score("b", -1_000_000, -2_000_000_000)];
    let c = compute_composite(&scores);
    assert!(c <= 10_000);
    assert_eq!(c, 10_000);
}
