use vstd::prelude::*;

use crate::tx::ParsedTx;

verus! {

/// Known Whirlpool pool denominations, in satoshis.
pub open spec fn is_whirlpool_pool(v: u64) -> bool {
    v == 100_000 || v == 1_000_000 || v == 5_000_000 || v == 50_000_000
}

/// Detected CoinJoin pattern type.
#[derive(Clone, Copy, Debug, PartialEq, Eq, Structural)]
pub enum CoinJoinPattern {
    WhirlpoolPool,
    WasabiLike,
    EqualOutput,
    Unknown,
}

/// Result of CoinJoin detection; `confidence` is in basis points.
#[derive(Clone, Copy, Debug, PartialEq, Eq, Structural)]
pub struct CoinJoinResult {
    pub is_coinjoin: bool,
    pub confidence: u32,
    pub pattern: CoinJoinPattern,
}

pub open spec fn not_coinjoin() -> CoinJoinResult {
    CoinJoinResult { is_coinjoin: false, confidence: 0, pattern: CoinJoinPattern::Unknown }
}

impl Default for CoinJoinResult {
    fn default() -> (r: CoinJoinResult)
        ensures
            r == not_coinjoin(),
    {
        CoinJoinResult { is_coinjoin: false, confidence: 0, pattern: CoinJoinPattern::Unknown }
    }
}

/// Number of occurrences of `v` in `s`.
pub open spec fn count_in(s: Seq<u64>, v: u64) -> nat
    decreases s.len(),
{
    if s.len() == 0 {
        0
    } else {
        count_in(s.drop_last(), v) + if s.last() == v { 1nat } else { 0nat }
    }
}

/// Index of the first of the values in `s[0..n]` that occur most often in `s`.
pub open spec fn best_index(s: Seq<u64>, n: nat) -> nat
    decreases n,
{
    if n <= 1 {
        0
    } else {
        let b = best_index(s, (n - 1) as nat);
        if count_in(s, s[n - 1]) > count_in(s, s[b as int]) {
            (n - 1) as nat
        } else {
            b
        }
    }
}

/// The most frequent output value (the first such in output order) and its count.
pub open spec fn most_frequent(s: Seq<u64>) -> (u64, nat) {
    if s.len() == 0 {
        (0, 0)
    } else {
        let v = s[best_index(s, s.len()) as int];
        (v, count_in(s, v))
    }
}

/// The classifier, over the input count and the output values.
pub open spec fn coinjoin_spec(inputs: nat, outs: Seq<u64>) -> CoinJoinResult {
    let outputs = outs.len();
    let (best_value, best_count) = most_frequent(outs);
    let many_io = inputs >= 5 && outputs >= 5;
    let is_round = best_value % 100_000 == 0 && best_value > 0;
    if inputs < 3 || outputs < 3 {
        not_coinjoin()
    } else if best_count < 3 {
        not_coinjoin()
    } else if best_count * 2 <= outputs {
        not_coinjoin()
    } else if best_count == 5 && is_whirlpool_pool(best_value) && many_io {
        CoinJoinResult { is_coinjoin: true, confidence: 9500, pattern: CoinJoinPattern::WhirlpoolPool }
    } else if best_count >= 5 && many_io {
        CoinJoinResult {
            is_coinjoin: true,
            confidence: if is_round { 8500 } else { 7500 },
            pattern: if is_round && best_count >= 10 {
                CoinJoinPattern::WasabiLike
            } else {
                CoinJoinPattern::EqualOutput
            },
        }
    } else if best_count * 10 > outputs * 7 {
        CoinJoinResult { is_coinjoin: true, confidence: 5000, pattern: CoinJoinPattern::EqualOutput }
    } else {
        not_coinjoin()
    }
}

proof fn lemma_count_bound(s: Seq<u64>, v: u64)
    ensures
        count_in(s, v) <= s.len(),
    decreases s.len(),
{
    if s.len() > 0 {
        lemma_count_bound(s.drop_last(), v);
    }
}

proof fn lemma_best_index_bound(s: Seq<u64>, n: nat)
    ensures
        n >= 1 ==> best_index(s, n) < n,
    decreases n,
{
    if n > 1 {
        lemma_best_index_bound(s, (n - 1) as nat);
    }
}

/// Number of occurrences of `v` among `vals`.
fn count_value(vals: &Vec<u64>, v: u64) -> (r: usize)
    ensures
        r == count_in(vals@, v),
{
    let mut c: usize = 0;
    let mut j: usize = 0;
    while j < vals.len()
        invariant
            j <= vals.len(),
            c == count_in(vals@.subrange(0, j as int), v),
        decreases vals.len() - j,
    {
        proof {
            let s = vals@.subrange(0, j as int + 1);
            assert(s.drop_last() =~= vals@.subrange(0, j as int));
            lemma_count_bound(vals@.subrange(0, j as int), v);
        }
        if vals[j] == v {
            c = c + 1;
        }
        j = j + 1;
    }
    assert(vals@.subrange(0, vals.len() as int) =~= vals@);
    c
}

/// The most frequent value among `vals` (the first such) and its count.
fn most_frequent_value(vals: &Vec<u64>) -> (r: (u64, usize))
    ensures
        r.0 == most_frequent(vals@).0,
        r.1 == most_frequent(vals@).1,
{
    if vals.len() == 0 {
        return (0, 0);
    }
    let mut best: usize = 0;
    let mut best_count: usize = count_value(vals, vals[0]);
    let mut i: usize = 1;
    while i < vals.len()
        invariant
            1 <= i <= vals.len(),
            best == best_index(vals@, i as nat),
            best < i,
            best_count == count_in(vals@, vals@[best as int]),
        decreases vals.len() - i,
    {
        let c = count_value(vals, vals[i]);
        if c > best_count {
            best = i;
            best_count = c;
        }
        i = i + 1;
    }
    (vals[best], best_count)
}

/// Classify a transaction shape, from its input count and its output values.
pub fn classify_shape(input_count: usize, outs: &Vec<u64>) -> (r: CoinJoinResult)
    ensures
        r == coinjoin_spec(input_count as nat, outs@),
{
    let output_count = outs.len();
    if input_count < 3 || output_count < 3 {
        return CoinJoinResult::default();
    }
    let (best_value, best_count) = most_frequent_value(outs);
    proof {
        lemma_count_bound(outs@, best_value);
    }
    if best_count < 3 {
        return CoinJoinResult::default();
    }
    if (best_count as u128) * 2 <= output_count as u128 {
        return CoinJoinResult::default();
    }
    let many_io = input_count >= 5 && output_count >= 5;
    let is_pool = best_value == 100_000 || best_value == 1_000_000 || best_value == 5_000_000
        || best_value == 50_000_000;
    if best_count == 5 && is_pool && many_io {
        return CoinJoinResult {
            is_coinjoin: true,
            confidence: 9500,
            pattern: CoinJoinPattern::WhirlpoolPool,
        };
    }
    let is_round = best_value % 100_000 == 0 && best_value > 0;
    if best_count >= 5 && many_io {
        let confidence: u32 = if is_round { 8500 } else { 7500 };
        let pattern = if is_round && best_count >= 10 {
            CoinJoinPattern::WasabiLike
        } else {
            CoinJoinPattern::EqualOutput
        };
        return CoinJoinResult { is_coinjoin: true, confidence, pattern };
    }
    if (best_count as u128) * 10 > (output_count as u128) * 7 {
        return CoinJoinResult { is_coinjoin: true, confidence: 5000, pattern: CoinJoinPattern::EqualOutput };
    }
    CoinJoinResult::default()
}

/// Detect whether a transaction is likely a CoinJoin. Conservative: prefers
/// false negatives over false positives.
pub fn detect_coinjoin(tx: &ParsedTx) -> (r: CoinJoinResult)
    ensures
        r == coinjoin_spec(tx.inputs@.len(), tx.output_values()),
{
    let mut outs: Vec<u64> = Vec::new();
    let mut i: usize = 0;
    while i < tx.outputs.len()
        invariant
            i <= tx.outputs.len(),
            outs@ =~= tx.output_values().subrange(0, i as int),
        decreases tx.outputs.len() - i,
    {
        outs.push(tx.outputs[i].value_sats);
        i = i + 1;
    }
    assert(outs@ =~= tx.output_values());
    classify_shape(tx.inputs.len(), &outs)
}

/// With fewer than three inputs or fewer than three outputs, a transaction is
/// never classified as a CoinJoin.
pub proof fn lemma_few_io_not_coinjoin(inputs: nat, outs: Seq<u64>)
    requires
        inputs < 3 || outs.len() < 3,
    ensures
        !coinjoin_spec(inputs, outs).is_coinjoin,
{
}

} // verus!
