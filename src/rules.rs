use vstd::prelude::*;

use crate::model::AnalyzedTx;

verus! {

/// `1 - 1/(1 + x/k)`, that is `x/(x+k)`, in millionths, rounded down; 0 for `x <= 0`.
pub open spec fn sigmoid_ppm(x: int, k: int) -> int {
    if x <= 0 {
        0
    } else {
        (x * 1_000_000) / (x + k)
    }
}

proof fn lemma_sigmoid_bounds(x: int, k: int)
    requires
        k > 0,
    ensures
        0 <= sigmoid_ppm(x, k) <= 1_000_000,
{
    if x > 0 {
        let d = x + k;
        assert(x * 1_000_000 <= d * 1_000_000) by (nonlinear_arith)
            requires
                x <= d,
        ;
        vstd::arithmetic::div_mod::lemma_div_is_ordered(x * 1_000_000, d * 1_000_000, d);
        vstd::arithmetic::div_mod::lemma_div_multiples_vanish(1_000_000, d);
        assert(d * 1_000_000 == 1_000_000 * d) by (nonlinear_arith);
        vstd::arithmetic::div_mod::lemma_div_pos_is_pos(x * 1_000_000, d);
    }
}

/// `x/(x+k)` in millionths, for `x` and `k` that fit in 64 bits.
fn sigmoid(x: u64, k: u64) -> (r: i64)
    requires
        k > 0,
    ensures
        r == sigmoid_ppm(x as int, k as int),
        0 <= r <= 1_000_000,
{
    proof {
        lemma_sigmoid_bounds(x as int, k as int);
    }
    if x == 0 {
        0
    } else {
        let num: u128 = (x as u128) * 1_000_000;
        let den: u128 = (x as u128) + (k as u128);
        (num / den) as i64
    }
}

/// Age in whole days of a coin first seen at `time`, at `now`; 0 when not in the past.
pub open spec fn age_days(now: int, time: int) -> int {
    if now > time {
        (now - time) / 86_400
    } else {
        0
    }
}

pub open spec fn min_int(a: int, b: int) -> int {
    if a <= b {
        a
    } else {
        b
    }
}

/// The scoring rules.
#[derive(Clone, Copy, Debug, PartialEq, Eq, Structural)]
pub enum Rule {
    TxValue,
    UtxoAge,
    CoinDaysDestroyed,
    InputCount,
    FeeRate,
    Rbf,
    ExchangeFlow,
    CoinJoin,
}

pub open spec fn rule_name_of(r: Rule) -> &'static str {
    match r {
        Rule::TxValue => "tx_value",
        Rule::UtxoAge => "utxo_age",
        Rule::CoinDaysDestroyed => "cdd",
        Rule::InputCount => "input_count",
        Rule::FeeRate => "fee_rate",
        Rule::Rbf => "rbf_flag",
        Rule::ExchangeFlow => "exchange_flow",
        Rule::CoinJoin => "coinjoin",
    }
}

/// Default weight of a rule, in thousandths.
pub open spec fn default_weight_of(r: Rule) -> int {
    match r {
        Rule::TxValue => 6000,
        Rule::UtxoAge => 8000,
        Rule::CoinDaysDestroyed => 9000,
        Rule::InputCount => 4000,
        Rule::FeeRate => 3000,
        Rule::Rbf => 2000,
        Rule::ExchangeFlow => 10000,
        Rule::CoinJoin => -6000,
    }
}

/// Raw value of a rule on a transaction at time `now`, in millionths.
pub open spec fn rule_value(r: Rule, tx: AnalyzedTx, now: int) -> int {
    match r {
        Rule::TxValue => sigmoid_ppm(tx.total_input_value as int, 1_000_000_000),
        Rule::UtxoAge => match tx.oldest_input_time {
            Some(t) => sigmoid_ppm(age_days(now, t as int), 365),
            None => 0,
        },
        Rule::CoinDaysDestroyed => match tx.coin_days_destroyed {
            Some(c) => sigmoid_ppm(c as int, 100_000_000_000),
            None => 0,
        },
        Rule::InputCount => sigmoid_ppm(tx.input_count as int, 20),
        Rule::FeeRate => sigmoid_ppm(tx.fee_rate as int, 50_000),
        Rule::Rbf => if tx.is_rbf_signaling { 500_000 } else { 0 },
        Rule::ExchangeFlow => if tx.to_exchange {
            min_int(tx.to_exchange_confidence as int, 10_000) * 100
        } else if tx.from_exchange {
            -(min_int(tx.from_exchange_confidence as int, 10_000) * 50)
        } else {
            0
        },
        Rule::CoinJoin => if tx.is_coinjoin {
            min_int(tx.coinjoin_confidence as int, 10_000) * 100
        } else {
            0
        },
    }
}

impl Rule {
    pub fn name(&self) -> (r: &'static str)
        ensures
            r@ == rule_name_of(*self)@,
    {
        match self {
            Rule::TxValue => "tx_value",
            Rule::UtxoAge => "utxo_age",
            Rule::CoinDaysDestroyed => "cdd",
            Rule::InputCount => "input_count",
            Rule::FeeRate => "fee_rate",
            Rule::Rbf => "rbf_flag",
            Rule::ExchangeFlow => "exchange_flow",
            Rule::CoinJoin => "coinjoin",
        }
    }

    /// Default weight, in thousandths.
    pub fn default_weight(&self) -> (r: i32)
        ensures
            r == default_weight_of(*self),
    {
        match self {
            Rule::TxValue => 6000,
            Rule::UtxoAge => 8000,
            Rule::CoinDaysDestroyed => 9000,
            Rule::InputCount => 4000,
            Rule::FeeRate => 3000,
            Rule::Rbf => 2000,
            Rule::ExchangeFlow => 10000,
            Rule::CoinJoin => -6000,
        }
    }

    /// Raw value on `tx` at the current time, in millionths.
    pub fn evaluate(&self, tx: &AnalyzedTx) -> (r: i64)
        ensures
            -1_000_000 <= r <= 1_000_000,
            exists|now: int| r == rule_value(*self, *tx, now),
    {
        let now = crate::clock::now_unix();
        self.evaluate_at(tx, now)
    }

    /// Raw value on `tx` at time `now` (unix seconds), in millionths.
    pub fn evaluate_at(&self, tx: &AnalyzedTx, now: i64) -> (r: i64)
        ensures
            r == rule_value(*self, *tx, now as int),
            -1_000_000 <= r <= 1_000_000,
    {
        match self {
            Rule::TxValue => sigmoid(tx.total_input_value, 1_000_000_000),
            Rule::UtxoAge => match tx.oldest_input_time {
                Some(t) => {
                    if now > t {
                        let days: i128 = ((now as i128) - (t as i128)) / 86_400;
                        sigmoid(days as u64, 365)
                    } else {
                        sigmoid(0, 365)
                    }
                },
                None => 0,
            },
            Rule::CoinDaysDestroyed => match tx.coin_days_destroyed {
                Some(c) => sigmoid(c, 100_000_000_000),
                None => 0,
            },
            Rule::InputCount => sigmoid(tx.input_count as u64, 20),
            Rule::FeeRate => sigmoid(tx.fee_rate, 50_000),
            Rule::Rbf => if tx.is_rbf_signaling { 500_000 } else { 0 },
            Rule::ExchangeFlow => {
                if tx.to_exchange {
                    let c: i64 = if tx.to_exchange_confidence > 10_000 { 10_000 } else { tx.to_exchange_confidence as i64 };
                    c * 100
                } else if tx.from_exchange {
                    let c: i64 = if tx.from_exchange_confidence > 10_000 { 10_000 } else { tx.from_exchange_confidence as i64 };
                    -(c * 50)
                } else {
                    0
                }
            },
            Rule::CoinJoin => {
                if tx.is_coinjoin {
                    let c: i64 = if tx.coinjoin_confidence > 10_000 { 10_000 } else { tx.coinjoin_confidence as i64 };
                    c * 100
                } else {
                    0
                }
            },
        }
    }
}

pub open spec fn default_rule_seq() -> Seq<Rule> {
    seq![
        Rule::TxValue,
        Rule::UtxoAge,
        Rule::CoinDaysDestroyed,
        Rule::InputCount,
        Rule::FeeRate,
        Rule::Rbf,
        Rule::ExchangeFlow,
        Rule::CoinJoin,
    ]
}

/// All default rules, in evaluation order.
pub fn default_rules() -> (r: Vec<Rule>)
    ensures
        r@ == default_rule_seq(),
{
    let r = vec![
        Rule::TxValue,
        Rule::UtxoAge,
        Rule::CoinDaysDestroyed,
        Rule::InputCount,
        Rule::FeeRate,
        Rule::Rbf,
        Rule::ExchangeFlow,
        Rule::CoinJoin,
    ];
    assert(r@ =~= default_rule_seq());
    r
}

} // verus!
