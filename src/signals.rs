use vstd::prelude::*;
use vstd::string::*;

use crate::model::{
    level_for, AlertLevel, AlertThresholds, AnalyzedTx, RuleScore, ScoredTx,
};
use crate::rules::{default_rule_seq, default_rules, default_weight_of, rule_name_of, rule_value, Rule};
use crate::rpc::{int_decimal, int_text};
use crate::score::{all_wf, composite_of, compute_composite};

verus! {

/// Weight of `r`: the first override for it, else its default (thousandths).
pub open spec fn weight_for(overrides: Seq<(Rule, i32)>, r: Rule) -> int
    decreases overrides.len(),
{
    if overrides.len() == 0 {
        default_weight_of(r)
    } else if overrides[0].0 == r {
        overrides[0].1 as int
    } else {
        weight_for(overrides.drop_first(), r)
    }
}

/// Applies the rule set to transactions and classifies the composite score.
pub struct SignalEngine {
    rules: Vec<Rule>,
    weight_overrides: Vec<(Rule, i32)>,
    thresholds: AlertThresholds,
}

impl SignalEngine {
    pub closed spec fn rules(&self) -> Seq<Rule> {
        self.rules@
    }

    pub closed spec fn overrides(&self) -> Seq<(Rule, i32)> {
        self.weight_overrides@
    }

    pub closed spec fn thresholds(&self) -> AlertThresholds {
        self.thresholds
    }

    /// The default rules and weights, with the default thresholds.
    pub fn new() -> (r: SignalEngine)
        ensures
            r.rules() == default_rule_seq(),
            r.overrides().len() == 0,
            r.thresholds() == (AlertThresholds { critical: 8000, high: 6000, medium: 4000 }),
    {
        SignalEngine {
            rules: default_rules(),
            weight_overrides: Vec::new(),
            thresholds: AlertThresholds::default(),
        }
    }

    /// The default rules, with weight overrides (the first entry for a rule wins).
    pub fn with_config(weights: Vec<(Rule, i32)>, thresholds: AlertThresholds) -> (r: SignalEngine)
        ensures
            r.rules() == default_rule_seq(),
            r.overrides() == weights@,
            r.thresholds() == thresholds,
    {
        SignalEngine { rules: default_rules(), weight_overrides: weights, thresholds }
    }

    /// The weight that applies to `rule`.
    pub fn weight_of(&self, rule: Rule) -> (w: i32)
        ensures
            w == weight_for(self.overrides(), rule),
    {
        let mut i: usize = 0;
        assert(self.weight_overrides@.subrange(0, self.weight_overrides@.len() as int) =~= self.weight_overrides@);
        while i < self.weight_overrides.len()
            invariant
                i <= self.weight_overrides.len(),
                weight_for(self.weight_overrides@, rule) == weight_for(
                    self.weight_overrides@.subrange(i as int, self.weight_overrides@.len() as int),
                    rule,
                ),
            decreases self.weight_overrides.len() - i,
        {
            let ghost rest = self.weight_overrides@.subrange(i as int, self.weight_overrides@.len() as int);
            assert(rest.drop_first() =~= self.weight_overrides@.subrange(
                i as int + 1,
                self.weight_overrides@.len() as int,
            ));
            if self.weight_overrides[i].0 == rule {
                return self.weight_overrides[i].1;
            }
            i = i + 1;
        }
        rule.default_weight()
    }

    /// Score `tx` at the current time.
    pub fn score(&self, tx: &AnalyzedTx) -> (r: ScoredTx)
        ensures
            exists|now: int| scored_at(self, *tx, now, r),
    {
        let now = crate::clock::now_unix();
        self.score_at(tx, now)
    }

    /// Score `tx` at time `now` (unix seconds): one rule score per rule, in
    /// order, the composite of those and its alert level.
    pub fn score_at(&self, tx: &AnalyzedTx, now: i64) -> (r: ScoredTx)
        ensures
            scored_at(self, *tx, now as int, r),
    {
        let mut rule_scores: Vec<RuleScore> = Vec::new();
        let mut i: usize = 0;
        while i < self.rules.len()
            invariant
                i <= self.rules.len(),
                rule_scores@.len() == i,
                forall|j: int|
                    0 <= j < i ==> rule_score_matches(self, *tx, now as int, self.rules@[j], #[trigger] rule_scores@[j]),
            decreases self.rules.len() - i,
        {
            let rule = self.rules[i];
            let raw_value = rule.evaluate_at(tx, now);
            let weight = self.weight_of(rule);
            proof {
                let rv = raw_value as int;
                let w = weight as int;
                assert(-2_147_483_648_000_000 <= rv * w <= 2_147_483_648_000_000) by (nonlinear_arith)
                    requires
                        -1_000_000 <= rv <= 1_000_000,
                        -2_147_483_648 <= w <= 2_147_483_647,
                ;
            }
            let weighted_score: i64 = raw_value * (weight as i64);
            let rule_name = rule.name().to_string();
            rule_scores.push(RuleScore { rule_name, raw_value, weight, weighted_score });
            i = i + 1;
        }
        assert(all_wf(rule_scores@));
        let composite = compute_composite(rule_scores.as_slice());
        let alert_level = AlertLevel::from_score_with_thresholds(
            composite,
            self.thresholds.critical,
            self.thresholds.high,
            self.thresholds.medium,
        );
        ScoredTx { tx: tx.duplicate(), composite_score: composite, rule_scores, alert_level }
    }
}

pub open spec fn rule_score_matches(e: &SignalEngine, tx: AnalyzedTx, now: int, rule: Rule, s: RuleScore) -> bool {
    &&& s.rule_name@ == rule_name_of(rule)@
    &&& s.raw_value == rule_value(rule, tx, now)
    &&& s.weight == weight_for(e.overrides(), rule)
    &&& s.weighted_score == s.raw_value * s.weight
    &&& s.wf()
}

/// What scoring `tx` at time `now` with engine `e` yields.
pub open spec fn scored_at(e: &SignalEngine, tx: AnalyzedTx, now: int, r: ScoredTx) -> bool {
    &&& r.tx == tx
    &&& r.rule_scores@.len() == e.rules().len()
    &&& forall|j: int|
        0 <= j < e.rules().len() ==> rule_score_matches(e, tx, now, e.rules()[j], #[trigger] r.rule_scores@[j])
    &&& r.composite_score == composite_of(r.rule_scores@)
    &&& 0 <= r.composite_score <= 10_000
    &&& r.alert_level == level_for(
        r.composite_score as int,
        e.thresholds().critical as int,
        e.thresholds().high as int,
        e.thresholds().medium as int,
    )
}

/// JSON object of one rule score: `{"rule":NAME,"raw":RAW,"weight":WEIGHT}`,
/// with the raw value in millionths and the weight in thousandths; the name
/// is written as it is.
pub open spec fn score_json(s: RuleScore) -> Seq<char> {
    "{\"rule\":\""@ + s.rule_name@ + "\",\"raw\":"@ + int_decimal(s.raw_value as int) + ",\"weight\":"@
        + int_decimal(s.weight as int) + "}"@
}

/// The objects of the scores, separated by commas.
pub open spec fn scores_items(s: Seq<RuleScore>) -> Seq<char>
    decreases s.len(),
{
    if s.len() == 0 {
        Seq::empty()
    } else if s.len() == 1 {
        score_json(s[0])
    } else {
        scores_items(s.drop_last()) + ","@ + score_json(s.last())
    }
}

/// JSON array of the rule scores.
pub open spec fn scores_json(s: Seq<RuleScore>) -> Seq<char> {
    "["@ + scores_items(s) + "]"@
}

/// The rule scores as a JSON array, for the signal history.
pub fn rule_scores_json(scores: &[RuleScore]) -> (r: String)
    ensures
        r@ == scores_json(scores@),
{
    let mut items = String::new();
    let mut i: usize = 0;
    while i < scores.len()
        invariant
            i <= scores.len(),
            items@ == scores_items(scores@.subrange(0, i as int)),
        decreases scores.len() - i,
    {
        let s = &scores[i];
        let one = "{\"rule\":\"".to_string().concat(s.rule_name.as_str()).concat("\",\"raw\":").concat(
            int_text(s.raw_value).as_str(),
        ).concat(",\"weight\":").concat(int_text(s.weight as i64).as_str()).concat("}");
        proof {
            let p = scores@.subrange(0, i as int + 1);
            assert(p.drop_last() =~= scores@.subrange(0, i as int));
            assert(p.last() == scores@[i as int]);
            if i == 0 {
                assert(p.len() == 1 && p[0] == scores@[0]);
            }
        }
        if i == 0 {
            items = one;
            proof {
                assert(items@ =~= score_json(scores@[0]));
            }
        } else {
            let ghost before = items@;
            items = items.concat(",").concat(one.as_str());
            proof {
                assert(items@ =~= before + ","@ + score_json(scores@[i as int]));
            }
        }
        i = i + 1;
    }
    assert(scores@.subrange(0, i as int) =~= scores@);
    "[".to_string().concat(items.as_str()).concat("]")
}

} // verus!
