use vstd::prelude::*;

verus! {

/// Why a transaction left the mempool.
#[derive(Clone, Copy, Debug, PartialEq, Eq, Structural)]
pub enum RemovalReason {
    Confirmed,
    Replaced,
    Evicted,
    Conflict,
    Unknown,
}

/// A normalized event of the node's event stream.
#[derive(Clone, Debug)]
pub enum MempoolEvent {
    TxAdded { txid: [u8; 32], raw: Vec<u8> },
    TxRemoved { txid: [u8; 32], reason: RemovalReason },
    BlockConnected { block_hash: [u8; 32], height: u32 },
    BlockDisconnected { block_hash: [u8; 32], height: u32 },
}

/// Alert level of a scored transaction.
#[derive(Clone, Copy, Debug, PartialEq, Eq, Structural)]
pub enum AlertLevel {
    Critical,
    High,
    Medium,
    Low,
}

/// Alert thresholds, in hundredths of a score point.
#[derive(Clone, Copy, Debug, PartialEq, Eq, Structural)]
pub struct AlertThresholds {
    pub critical: u32,
    pub high: u32,
    pub medium: u32,
}

impl Default for AlertThresholds {
    fn default() -> (r: AlertThresholds)
        ensures
            r == (AlertThresholds { critical: 8000, high: 6000, medium: 4000 }),
    {
        AlertThresholds { critical: 8000, high: 6000, medium: 4000 }
    }
}

/// Severity rank of a level: Low 0, Medium 1, High 2, Critical 3.
pub open spec fn level_rank(l: AlertLevel) -> int {
    match l {
        AlertLevel::Critical => 3,
        AlertLevel::High => 2,
        AlertLevel::Medium => 1,
        AlertLevel::Low => 0,
    }
}

pub open spec fn level_for(score: int, critical: int, high: int, medium: int) -> AlertLevel {
    if score >= critical {
        AlertLevel::Critical
    } else if score >= high {
        AlertLevel::High
    } else if score >= medium {
        AlertLevel::Medium
    } else {
        AlertLevel::Low
    }
}

impl AlertLevel {
    /// Level of a score (hundredths of a point) under the default thresholds 80/60/40.
    pub fn from_score(score: u32) -> (r: AlertLevel)
        ensures
            r == level_for(score as int, 8000, 6000, 4000),
    {
        Self::from_score_with_thresholds(score, 8000, 6000, 4000)
    }

    /// Level of a score under the given thresholds: Critical at or above
    /// `critical`, else High at or above `high`, else Medium at or above
    /// `medium`, else Low.
    pub fn from_score_with_thresholds(score: u32, critical: u32, high: u32, medium: u32) -> (r: AlertLevel)
        ensures
            r == level_for(score as int, critical as int, high as int, medium as int),
    {
        if score >= critical {
            AlertLevel::Critical
        } else if score >= high {
            AlertLevel::High
        } else if score >= medium {
            AlertLevel::Medium
        } else {
            AlertLevel::Low
        }
    }

    pub fn emoji(&self) -> (r: &'static str)
        ensures
            r@ == alert_emoji(*self)@,
    {
        match self {
            AlertLevel::Critical => "🔴",
            AlertLevel::High => "🟠",
            AlertLevel::Medium => "🟡",
            AlertLevel::Low => "⚪",
        }
    }

    /// The level's name.
    pub fn name(&self) -> (r: &'static str)
        ensures
            r@ == alert_name(*self)@,
    {
        match self {
            AlertLevel::Critical => "Critical",
            AlertLevel::High => "High",
            AlertLevel::Medium => "Medium",
            AlertLevel::Low => "Low",
        }
    }
}

pub open spec fn alert_emoji(l: AlertLevel) -> &'static str {
    match l {
        AlertLevel::Critical => "🔴",
        AlertLevel::High => "🟠",
        AlertLevel::Medium => "🟡",
        AlertLevel::Low => "⚪",
    }
}

pub open spec fn alert_name(l: AlertLevel) -> &'static str {
    match l {
        AlertLevel::Critical => "Critical",
        AlertLevel::High => "High",
        AlertLevel::Medium => "Medium",
        AlertLevel::Low => "Low",
    }
}

/// For fixed thresholds, a higher score never gets a lower alert level.
pub proof fn lemma_alert_level_monotone(s1: int, s2: int, critical: int, high: int, medium: int)
    requires
        s1 <= s2,
    ensures
        level_rank(level_for(s1, critical, high, medium)) <= level_rank(
            level_for(s2, critical, high, medium),
        ),
{
}

/// A transaction enriched with prevout data and scoring context.
///
/// Units: `fee_rate` in thousandths of a satoshi per virtual byte; times in
/// unix seconds; `coin_days_destroyed` in satoshi-days (10^8 satoshi-days
/// make one coin-day); confidences in basis points.
#[derive(Debug)]
pub struct AnalyzedTx {
    pub txid: String,
    pub raw_size: usize,
    pub vsize: usize,
    pub total_input_value: u64,
    pub total_output_value: u64,
    pub fee: u64,
    pub fee_rate: u64,
    pub input_count: usize,
    pub output_count: usize,
    pub oldest_input_height: Option<u32>,
    pub oldest_input_time: Option<i64>,
    pub coin_days_destroyed: Option<u64>,
    pub is_rbf_signaling: bool,
    pub seen_at: i64,
    pub prevouts_resolved: bool,
    /// Whether any output goes to a known exchange address.
    pub to_exchange: bool,
    /// Highest confidence of the exchange tags matched on outputs.
    pub to_exchange_confidence: u32,
    /// Whether any input comes from a known exchange address.
    pub from_exchange: bool,
    /// Highest confidence of the exchange tags matched on inputs.
    pub from_exchange_confidence: u32,
    pub is_coinjoin: bool,
    pub coinjoin_confidence: u32,
}

impl AnalyzedTx {
    /// A field-by-field copy.
    pub fn duplicate(&self) -> (r: AnalyzedTx)
        ensures
            r == *self,
    {
        AnalyzedTx {
            txid: self.txid.clone(),
            raw_size: self.raw_size,
            vsize: self.vsize,
            total_input_value: self.total_input_value,
            total_output_value: self.total_output_value,
            fee: self.fee,
            fee_rate: self.fee_rate,
            input_count: self.input_count,
            output_count: self.output_count,
            oldest_input_height: self.oldest_input_height,
            oldest_input_time: self.oldest_input_time,
            coin_days_destroyed: self.coin_days_destroyed,
            is_rbf_signaling: self.is_rbf_signaling,
            seen_at: self.seen_at,
            prevouts_resolved: self.prevouts_resolved,
            to_exchange: self.to_exchange,
            to_exchange_confidence: self.to_exchange_confidence,
            from_exchange: self.from_exchange,
            from_exchange_confidence: self.from_exchange_confidence,
            is_coinjoin: self.is_coinjoin,
            coinjoin_confidence: self.coinjoin_confidence,
        }
    }
}

/// One rule's contribution: `raw_value` in millionths (within [-1, 1]),
/// `weight` in thousandths, `weighted_score = raw_value * weight`.
#[derive(Debug)]
pub struct RuleScore {
    pub rule_name: String,
    pub raw_value: i64,
    pub weight: i32,
    pub weighted_score: i64,
}

impl RuleScore {
    pub open spec fn wf(&self) -> bool {
        &&& -1_000_000 <= self.raw_value <= 1_000_000
        &&& self.weighted_score == self.raw_value * self.weight
    }
}

/// A scored transaction: `composite_score` in hundredths of a point, 0..=10000.
#[derive(Debug)]
pub struct ScoredTx {
    pub tx: AnalyzedTx,
    pub composite_score: u32,
    pub rule_scores: Vec<RuleScore>,
    pub alert_level: AlertLevel,
}

} // verus!
