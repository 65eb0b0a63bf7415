use vstd::prelude::*;
use vstd::string::*;

use crate::model::AlertThresholds;
use crate::rules::{rule_name_of, Rule};

verus! {

/// Node connection settings.
#[derive(Debug)]
pub struct BitcoinConfig {
    pub rpc_host: String,
    pub rpc_port: u16,
    pub rpc_user: Option<String>,
    pub rpc_password: Option<String>,
    pub zmq_rawtx: String,
    pub zmq_hashblock: String,
    pub zmq_sequence: Option<String>,
}

impl Default for BitcoinConfig {
    fn default() -> (r: BitcoinConfig)
        ensures
            r.rpc_host@ == "127.0.0.1"@,
            r.rpc_port == 8332,
            r.rpc_user.is_none(),
            r.rpc_password.is_none(),
            r.zmq_rawtx@ == "tcp://127.0.0.1:28333"@,
            r.zmq_hashblock@ == "tcp://127.0.0.1:28332"@,
            r.zmq_sequence.is_some() && r.zmq_sequence.unwrap()@ == "tcp://127.0.0.1:28336"@,
    {
        BitcoinConfig {
            rpc_host: "127.0.0.1".to_string(),
            rpc_port: 8332,
            rpc_user: None,
            rpc_password: None,
            zmq_rawtx: "tcp://127.0.0.1:28333".to_string(),
            zmq_hashblock: "tcp://127.0.0.1:28332".to_string(),
            zmq_sequence: Some("tcp://127.0.0.1:28336".to_string()),
        }
    }
}

/// Scoring settings: weight overrides by rule name (thousandths), the
/// persist threshold and the alert thresholds (hundredths of a point).
#[derive(Debug)]
pub struct SignalConfig {
    pub weights: Vec<(String, i32)>,
    pub min_score_persist: u32,
    pub alert_thresholds: AlertThresholds,
}

impl Default for SignalConfig {
    fn default() -> (r: SignalConfig)
        ensures
            r.weights@.len() == 0,
            r.min_score_persist == 1000,
            r.alert_thresholds == (AlertThresholds { critical: 8000, high: 6000, medium: 4000 }),
    {
        SignalConfig { weights: Vec::new(), min_score_persist: 1000, alert_thresholds: AlertThresholds::default() }
    }
}

/// Presentation settings.
#[derive(Clone, Copy, Debug, PartialEq, Eq, Structural)]
pub struct UiConfig {
    pub max_feed_entries: usize,
    pub stats_update_interval_txs: usize,
}

impl Default for UiConfig {
    fn default() -> (r: UiConfig)
        ensures
            r == (UiConfig { max_feed_entries: 500, stats_update_interval_txs: 100 }),
    {
        UiConfig { max_feed_entries: 500, stats_update_interval_txs: 100 }
    }
}

/// Desktop notification settings; `min_score` in hundredths of a point.
#[derive(Clone, Copy, Debug, PartialEq, Eq, Structural)]
pub struct NotificationConfig {
    pub enabled: bool,
    pub min_score: u32,
    pub cooldown_seconds: u64,
}

impl Default for NotificationConfig {
    fn default() -> (r: NotificationConfig)
        ensures
            r == (NotificationConfig { enabled: true, min_score: 6000, cooldown_seconds: 30 }),
    {
        NotificationConfig { enabled: true, min_score: 6000, cooldown_seconds: 30 }
    }
}

/// Store settings.
#[derive(Debug)]
pub struct DatabaseConfig {
    pub path: String,
    pub exchange_csv: Option<String>,
}

impl Default for DatabaseConfig {
    fn default() -> (r: DatabaseConfig)
        ensures
            r.path@ == "data/utxo_cache.db"@,
            r.exchange_csv.is_some() && r.exchange_csv.unwrap()@ == "data/exchange_addresses.csv"@,
    {
        DatabaseConfig {
            path: "data/utxo_cache.db".to_string(),
            exchange_csv: Some("data/exchange_addresses.csv".to_string()),
        }
    }
}

/// The whole configuration.
#[derive(Debug)]
pub struct Config {
    pub bitcoin: BitcoinConfig,
    pub signals: SignalConfig,
    pub ui: UiConfig,
    pub database: DatabaseConfig,
    pub notifications: NotificationConfig,
}

impl Default for Config {
    fn default() -> (r: Config)
        ensures
            r.bitcoin.rpc_port == 8332,
            r.signals.min_score_persist == 1000,
            r.ui == (UiConfig { max_feed_entries: 500, stats_update_interval_txs: 100 }),
            r.notifications == (NotificationConfig { enabled: true, min_score: 6000, cooldown_seconds: 30 }),
    {
        Config {
            bitcoin: BitcoinConfig::default(),
            signals: SignalConfig::default(),
            ui: UiConfig::default(),
            database: DatabaseConfig::default(),
            notifications: NotificationConfig::default(),
        }
    }
}

/// The rule with the given name.
pub open spec fn rule_named(name: Seq<char>) -> Option<Rule> {
    if name == rule_name_of(Rule::TxValue)@ {
        Some(Rule::TxValue)
    } else if name == rule_name_of(Rule::UtxoAge)@ {
        Some(Rule::UtxoAge)
    } else if name == rule_name_of(Rule::CoinDaysDestroyed)@ {
        Some(Rule::CoinDaysDestroyed)
    } else if name == rule_name_of(Rule::InputCount)@ {
        Some(Rule::InputCount)
    } else if name == rule_name_of(Rule::FeeRate)@ {
        Some(Rule::FeeRate)
    } else if name == rule_name_of(Rule::Rbf)@ {
        Some(Rule::Rbf)
    } else if name == rule_name_of(Rule::ExchangeFlow)@ {
        Some(Rule::ExchangeFlow)
    } else if name == rule_name_of(Rule::CoinJoin)@ {
        Some(Rule::CoinJoin)
    } else {
        None
    }
}

/// The rule with the given name, if any.
pub fn rule_from_name(name: &str) -> (r: Option<Rule>)
    ensures
        r == rule_named(name@),
{
    let rules = crate::rules::default_rules();
    let mut i: usize = 0;
    let ghost order = crate::rules::default_rule_seq();
    while i < rules.len()
        invariant
            i <= rules.len(),
            rules@ == order,
            order == crate::rules::default_rule_seq(),
            forall|k: int| 0 <= k < i ==> name@ != rule_name_of(#[trigger] order[k])@,
        decreases rules.len() - i,
    {
        let rule = rules[i];
        if crate::mempool::same_text(rule.name(), name) {
            return Some(rule);
        }
        i = i + 1;
    }
    assert(name@ != rule_name_of(order[0])@);
    assert(name@ != rule_name_of(order[1])@);
    assert(name@ != rule_name_of(order[2])@);
    assert(name@ != rule_name_of(order[3])@);
    assert(name@ != rule_name_of(order[4])@);
    assert(name@ != rule_name_of(order[5])@);
    assert(name@ != rule_name_of(order[6])@);
    assert(name@ != rule_name_of(order[7])@);
    None
}

/// The overrides whose name is a rule's, as (rule, weight), in order.
pub open spec fn named_overrides(w: Seq<(String, i32)>) -> Seq<(Rule, i32)>
    decreases w.len(),
{
    if w.len() == 0 {
        Seq::empty()
    } else {
        let p = named_overrides(w.drop_last());
        match rule_named(w.last().0@) {
            Some(r) => p.push((r, w.last().1)),
            None => p,
        }
    }
}

/// The weight overrides whose name is a rule's, in order; other names are ignored.
pub fn weight_overrides(weights: &[(String, i32)]) -> (r: Vec<(Rule, i32)>)
    ensures
        r@ == named_overrides(weights@),
{
    let mut r: Vec<(Rule, i32)> = Vec::new();
    let mut i: usize = 0;
    while i < weights.len()
        invariant
            i <= weights.len(),
            r@ == named_overrides(weights@.subrange(0, i as int)),
        decreases weights.len() - i,
    {
        proof {
            assert(weights@.subrange(0, i as int + 1).drop_last() =~= weights@.subrange(0, i as int));
        }
        match rule_from_name(weights[i].0.as_str()) {
            Some(rule) => {
                r.push((rule, weights[i].1));
            },
            None => {},
        }
        i = i + 1;
    }
    assert(weights@.subrange(0, i as int) =~= weights@);
    r
}

} // verus!
