use vstd::prelude::*;

use crate::rules::min_int;
use crate::store::Database;
use crate::tx::{display_hex, hex_of, reversed, ParsedTx};

verus! {

/// A resolved prior output: value in satoshis, confirming block height and time (unix seconds).
#[derive(Clone, Copy, Debug, PartialEq, Eq, Structural)]
pub struct ResolvedPrevout {
    pub value: u64,
    pub block_height: u32,
    pub block_time: i64,
}

/// Totals over a transaction's resolved inputs.
#[derive(Clone, Copy, Debug, PartialEq, Eq, Structural)]
pub struct PrevoutSummary {
    pub total_input_value: u64,
    pub oldest_input_time: Option<i64>,
    pub oldest_input_height: Option<u32>,
    /// Coin days destroyed, in satoshi-days.
    pub coin_days_destroyed: Option<u64>,
    pub resolved_count: usize,
}

pub open spec fn is_coinbase_txid(t: Seq<u8>) -> bool {
    forall|i: int| 0 <= i < t.len() ==> t[i] == 0
}

/// The lookup key of each input: `None` for a coinbase input (all-zero
/// previous txid), else the previous txid as display hex and the output index.
pub fn prevout_keys(tx: &ParsedTx) -> (r: Vec<Option<(String, u32)>>)
    ensures
        r@.len() == tx.inputs@.len(),
        forall|i: int|
            0 <= i < r@.len() ==> match #[trigger] r@[i] {
                None => is_coinbase_txid(tx.inputs@[i].prev_txid@),
                Some(k) => !is_coinbase_txid(tx.inputs@[i].prev_txid@) && k.0@ == hex_of(
                    reversed(tx.inputs@[i].prev_txid@),
                ) && k.1 == tx.inputs@[i].prev_vout,
            },
{
    let mut r: Vec<Option<(String, u32)>> = Vec::new();
    let mut i: usize = 0;
    while i < tx.inputs.len()
        invariant
            i <= tx.inputs.len(),
            r@.len() == i,
            forall|j: int|
                0 <= j < i ==> match #[trigger] r@[j] {
                    None => is_coinbase_txid(tx.inputs@[j].prev_txid@),
                    Some(k) => !is_coinbase_txid(tx.inputs@[j].prev_txid@) && k.0@ == hex_of(
                        reversed(tx.inputs@[j].prev_txid@),
                    ) && k.1 == tx.inputs@[j].prev_vout,
                },
        decreases tx.inputs.len() - i,
    {
        let input = &tx.inputs[i];
        let mut zero = true;
        let mut k: usize = 0;
        while k < 32
            invariant
                k <= 32,
                input.prev_txid@.len() == 32,
                zero == forall|m: int| 0 <= m < k ==> input.prev_txid@[m] == 0,
            decreases 32 - k,
        {
            if input.prev_txid[k] != 0 {
                zero = false;
            }
            k = k + 1;
        }
        if zero {
            r.push(None);
        } else {
            r.push(Some((display_hex(&input.prev_txid), input.prev_vout)));
        }
        i = i + 1;
    }
    r
}

/// The cached prior output of `(txid, vout)`, if cached.
pub fn resolve_from_cache(db: &Database, txid: &str, vout: u32) -> (r: Option<ResolvedPrevout>)
    ensures
        match db.cached(txid@, vout) {
            Some(v) => r == Some(ResolvedPrevout { value: v.0, block_height: v.2, block_time: v.3 }),
            None => r.is_none(),
        },
{
    match db.get_utxo(txid, vout) {
        Some((value, _script_type, block_height, block_time)) => Some(ResolvedPrevout { value, block_height, block_time }),
        None => None,
    }
}

/// The prior output described by the fields of a node's verbose transaction
/// lookup: `None` without a value; the script type defaults to "unknown",
/// the height to `blockheight`, else `height`, else 0 (truncated to 32
/// bits), the block time to 0.
pub fn prevout_from_fields(
    value_sats: Option<u64>,
    script_type: Option<String>,
    blockheight: Option<u64>,
    height: Option<u64>,
    blocktime: Option<i64>,
) -> (r: Option<(ResolvedPrevout, String)>)
    ensures
        value_sats.is_none() ==> r.is_none(),
        value_sats.is_some() ==> r.is_some() && {
            let (p, st) = r.unwrap();
            &&& p.value == value_sats.unwrap()
            &&& p.block_height == (match blockheight {
                Some(h) => h,
                None => match height {
                    Some(h) => h,
                    None => 0u64,
                },
            }) as u32
            &&& p.block_time == match blocktime {
                Some(t) => t,
                None => 0i64,
            }
            &&& st@ == match script_type {
                Some(s) => s@,
                None => "unknown"@,
            }
        },
{
    let value = match value_sats {
        Some(v) => v,
        None => return None,
    };
    let st = match script_type {
        Some(s) => s,
        None => "unknown".to_string(),
    };
    let h: u64 = match blockheight {
        Some(h) => h,
        None => match height {
            Some(h) => h,
            None => 0,
        },
    };
    let t: i64 = match blocktime {
        Some(t) => t,
        None => 0,
    };
    Some((ResolvedPrevout { value, block_height: h as u32, block_time: t }, st))
}

/// Cache a prior output fetched from the node, then hand it back resolved.
pub fn record_fetched(db: &mut Database, txid: &str, vout: u32, fetched: (ResolvedPrevout, String)) -> (r: ResolvedPrevout)
    requires
        old(db).wf(),
    ensures
        final(db).wf(),
        r == fetched.0,
        crate::store::cached_after(*old(db), *final(db), txid@, vout, (fetched.0.value, fetched.1@, fetched.0.block_height, fetched.0.block_time)),
        final(db).tags() == old(db).tags(),
        final(db).signals() == old(db).signals(),
{
    let (p, st) = fetched;
    db.cache_utxo(txid, vout, p.value, st.as_str(), p.block_height, p.block_time);
    p
}

/// Coin-days contribution of one output, in satoshi-days: value times whole
/// seconds of age divided by a day, rounded down; 0 unless confirmed in the past.
pub open spec fn cdd_term(p: ResolvedPrevout, now: int) -> int {
    if p.block_time > 0 && now > p.block_time {
        (p.value as int * (now - p.block_time)) / 86_400
    } else {
        0
    }
}

/// The totals over the resolved entries of `s` at time `now`. Sums saturate at `u64::MAX`.
pub open spec fn summary_of(s: Seq<Option<ResolvedPrevout>>, now: int) -> PrevoutSummary
    decreases s.len(),
{
    if s.len() == 0 {
        PrevoutSummary {
            total_input_value: 0,
            oldest_input_time: None,
            oldest_input_height: None,
            coin_days_destroyed: None,
            resolved_count: 0,
        }
    } else {
        let a = summary_of(s.drop_last(), now);
        match s.last() {
            None => a,
            Some(p) => {
                let cdd_prev: int = match a.coin_days_destroyed {
                    Some(c) => c as int,
                    None => 0,
                };
                let cdd = min_int(cdd_prev + cdd_term(p, now), u64::MAX as int);
                PrevoutSummary {
                    total_input_value: min_int(a.total_input_value + p.value, u64::MAX as int) as u64,
                    oldest_input_time: if p.block_time > 0 {
                        match a.oldest_input_time {
                            Some(t) => if p.block_time < t { Some(p.block_time) } else { Some(t) },
                            None => Some(p.block_time),
                        }
                    } else {
                        a.oldest_input_time
                    },
                    oldest_input_height: if p.block_time > 0 {
                        match a.oldest_input_height {
                            Some(h) => if p.block_height < h { Some(p.block_height) } else { Some(h) },
                            None => if p.block_height > 0 { Some(p.block_height) } else { None },
                        }
                    } else {
                        a.oldest_input_height
                    },
                    coin_days_destroyed: if cdd > 0 { Some(cdd as u64) } else { None },
                    resolved_count: (a.resolved_count + 1) as usize,
                }
            },
        }
    }
}

/// Aggregate the resolution results of a transaction's inputs (`None` where
/// an input could not be resolved or is a coinbase input) at time `now`.
pub fn aggregate_prevouts(results: &[Option<ResolvedPrevout>], now: i64) -> (r: PrevoutSummary)
    ensures
        r == summary_of(results@, now as int),
        r.resolved_count <= results@.len(),
{
    let mut acc = PrevoutSummary {
        total_input_value: 0,
        oldest_input_time: None,
        oldest_input_height: None,
        coin_days_destroyed: None,
        resolved_count: 0,
    };
    let mut i: usize = 0;
    while i < results.len()
        invariant
            i <= results.len(),
            acc == summary_of(results@.subrange(0, i as int), now as int),
            acc.resolved_count <= i,
        decreases results.len() - i,
    {
        proof {
            assert(results@.subrange(0, i as int + 1).drop_last() =~= results@.subrange(0, i as int));
        }
        match results[i] {
            None => {},
            Some(p) => {
                let mut oldest_time = acc.oldest_input_time;
                let mut oldest_height = acc.oldest_input_height;
                let mut cdd: u64 = match acc.coin_days_destroyed {
                    Some(c) => c,
                    None => 0,
                };
                if p.block_time > 0 {
                    oldest_time = match acc.oldest_input_time {
                        Some(t) => if p.block_time < t { Some(p.block_time) } else { Some(t) },
                        None => Some(p.block_time),
                    };
                    oldest_height = match acc.oldest_input_height {
                        Some(h) => if p.block_height < h { Some(p.block_height) } else { Some(h) },
                        None => if p.block_height > 0 { Some(p.block_height) } else { None },
                    };
                    if now > p.block_time {
                        let age: i128 = (now as i128) - (p.block_time as i128);
                        proof {
                            let v = p.value as int;
                            let a = age as int;
                            assert(0 <= v * a <= 0xFFFF_FFFF_FFFF_FFFF * 0x1_0000_0000_0000_0000) by (nonlinear_arith)
                                requires
                                    0 <= v <= 0xFFFF_FFFF_FFFF_FFFF,
                                    0 < a <= 0x1_0000_0000_0000_0000,
                            ;
                        }
                        let term: u128 = ((p.value as u128) * (age as u128)) / 86_400;
                        let sum: u128 = (cdd as u128) + term;
                        cdd = if sum > u64::MAX as u128 { u64::MAX } else { sum as u64 };
                    }
                }
                acc = PrevoutSummary {
                    total_input_value: acc.total_input_value.saturating_add(p.value),
                    oldest_input_time: oldest_time,
                    oldest_input_height: oldest_height,
                    coin_days_destroyed: if cdd > 0 { Some(cdd) } else { None },
                    resolved_count: acc.resolved_count + 1,
                };
            },
        }
        i = i + 1;
    }
    assert(results@.subrange(0, i as int) =~= results@);
    acc
}

} // verus!
