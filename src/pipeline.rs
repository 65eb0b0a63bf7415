use vstd::prelude::*;

use crate::coinjoin::{coinjoin_spec, detect_coinjoin, CoinJoinResult};
use crate::mempool::{bucket_count_of, bucket_label, pending_count_of, MempoolEntry, MempoolState};
use crate::model::{AnalyzedTx, RemovalReason, ScoredTx};
use crate::rules::min_int;
use crate::resolver::{aggregate_prevouts, summary_of, PrevoutSummary, ResolvedPrevout};
use crate::signals::{scored_at, SignalEngine};
use crate::store::{record_of, Database, SignalBatchEntry, SignalRecord};
use crate::model::alert_name;
use crate::signals::{rule_scores_json, scores_json};
use crate::tags::output_matches;
use crate::tx::output_addresses;
use crate::tags::{TagLookup, TagMatch};
use crate::tx::{display_hex, hex_of, is_rbf_signaling, reversed, signals_rbf, txid_hex, vsize, vsize_of, ParsedTx};

verus! {

/// Transactions between two statistics snapshots.
pub const STATS_TX_INTERVAL: u64 = 100;

/// Milliseconds between two statistics snapshots.
pub const STATS_TIME_INTERVAL_MS: i64 = 5_000;

/// Milliseconds between two prunes of the mempool state.
pub const PRUNE_INTERVAL_MS: i64 = 60_000;

/// Age in seconds after which non-pending entries are pruned.
pub const PRUNE_MAX_AGE_SECS: i64 = 300;

/// Signals per batch that force a flush.
pub const FLUSH_BATCH_SIZE: usize = 64;

/// Milliseconds after which a non-empty batch is flushed.
pub const FLUSH_AGE_MS: i64 = 1_000;

/// Messages from the pipeline to the presentation layer.
#[derive(Debug)]
pub enum PipelineOutput {
    NewTx(ScoredTx),
    BlockConnected { height: u32 },
    MempoolStats {
        pending_count: usize,
        total_vsize: usize,
        total_fees: u64,
        fee_histogram: Vec<(String, usize)>,
    },
}

/// Fee in satoshis: inputs minus outputs when every input was resolved, else 0.
pub open spec fn fee_of(resolved: bool, total_in: u64, total_out: u64) -> int {
    if resolved && total_in >= total_out {
        total_in - total_out
    } else {
        0
    }
}

/// Fee rate in thousandths of sat/vB: fee × 1000 / vsize (rounded down,
/// saturating at `u64::MAX`) when every input was resolved and the size is
/// positive, else 0.
pub open spec fn fee_rate_of(resolved: bool, fee: int, vsize: int) -> int {
    if resolved && vsize > 0 {
        if (fee * 1000) / vsize > u64::MAX {
            u64::MAX as int
        } else {
            (fee * 1000) / vsize
        }
    } else {
        0
    }
}

pub open spec fn sum_values(s: Seq<u64>) -> int
    decreases s.len(),
{
    if s.len() == 0 {
        0
    } else {
        sum_values(s.drop_last()) + s.last()
    }
}

/// Highest confidence among the matches, 0 when there are none.
pub open spec fn max_confidence(s: Seq<TagMatch>) -> u32
    decreases s.len(),
{
    if s.len() == 0 {
        0
    } else {
        let m = max_confidence(s.drop_last());
        if s.last().tag.confidence > m {
            s.last().tag.confidence
        } else {
            m
        }
    }
}

fn total_output_value(tx: &ParsedTx) -> (r: u64)
    ensures
        r == if sum_values(tx.output_values()) > u64::MAX { u64::MAX as int } else { sum_values(tx.output_values()) },
{
    let mut total: u64 = 0;
    let mut i: usize = 0;
    while i < tx.outputs.len()
        invariant
            i <= tx.outputs.len(),
            total == if sum_values(tx.output_values().subrange(0, i as int)) > u64::MAX {
                u64::MAX as int
            } else {
                sum_values(tx.output_values().subrange(0, i as int))
            },
        decreases tx.outputs.len() - i,
    {
        proof {
            assert(tx.output_values().subrange(0, i as int + 1).drop_last() =~= tx.output_values().subrange(0, i as int));
            assert(tx.output_values().subrange(0, i as int + 1).last() == tx.outputs@[i as int].value_sats);
            lemma_sum_nonneg(tx.output_values().subrange(0, i as int));
        }
        total = total.saturating_add(tx.outputs[i].value_sats);
        i = i + 1;
    }
    assert(tx.output_values().subrange(0, i as int) =~= tx.output_values());
    total
}

proof fn lemma_sum_nonneg(s: Seq<u64>)
    ensures
        sum_values(s) >= 0,
    decreases s.len(),
{
    if s.len() > 0 {
        lemma_sum_nonneg(s.drop_last());
    }
}

fn max_match_confidence(matches: &[TagMatch]) -> (r: u32)
    ensures
        r == max_confidence(matches@),
{
    let mut m: u32 = 0;
    let mut i: usize = 0;
    while i < matches.len()
        invariant
            i <= matches.len(),
            m == max_confidence(matches@.subrange(0, i as int)),
        decreases matches.len() - i,
    {
        proof {
            assert(matches@.subrange(0, i as int + 1).drop_last() =~= matches@.subrange(0, i as int));
        }
        if matches[i].tag.confidence > m {
            m = matches[i].tag.confidence;
        }
        i = i + 1;
    }
    assert(matches@.subrange(0, i as int) =~= matches@);
    m
}

/// `r` joins `tx` with its resolution totals, output tag matches and
/// CoinJoin classification: txid in display order, vsize from the weight, the fee
/// (inputs minus outputs, 0 unless every input resolved) and the fee rate.
pub open spec fn analyzed_as(
    tx: ParsedTx,
    raw_size: usize,
    summary: PrevoutSummary,
    output_matches: Seq<TagMatch>,
    coinjoin: CoinJoinResult,
    seen_at: i64,
    r: AnalyzedTx,
) -> bool {
    &&& r.txid@ == hex_of(reversed(tx.txid@))
    &&& r.raw_size == raw_size
    &&& r.vsize == vsize_of(tx.weight)
    &&& r.total_input_value == summary.total_input_value
    &&& r.total_output_value == if sum_values(tx.output_values()) > u64::MAX {
        u64::MAX as int
    } else {
        sum_values(tx.output_values())
    }
    &&& r.input_count == tx.inputs@.len()
    &&& r.output_count == tx.outputs@.len()
    &&& r.prevouts_resolved == (summary.resolved_count == tx.inputs@.len())
    &&& r.fee == fee_of(r.prevouts_resolved, r.total_input_value, r.total_output_value)
    &&& r.fee_rate == fee_rate_of(r.prevouts_resolved, r.fee as int, r.vsize as int)
    &&& r.oldest_input_height == summary.oldest_input_height
    &&& r.oldest_input_time == summary.oldest_input_time
    &&& r.coin_days_destroyed == summary.coin_days_destroyed
    &&& r.is_rbf_signaling == signals_rbf(tx.inputs@)
    &&& r.seen_at == seen_at
    &&& r.to_exchange == (output_matches.len() > 0)
    &&& r.to_exchange_confidence == max_confidence(output_matches)
    &&& !r.from_exchange
    &&& r.from_exchange_confidence == 0
    &&& r.is_coinjoin == coinjoin.is_coinjoin
    &&& r.coinjoin_confidence == coinjoin.confidence
}

/// Join a decoded transaction with its resolution results, its output tag
/// matches and its CoinJoin classification.
pub fn build_analyzed_tx(
    tx: &ParsedTx,
    raw_size: usize,
    summary: &PrevoutSummary,
    output_matches: &[TagMatch],
    coinjoin: &CoinJoinResult,
    seen_at: i64,
) -> (r: AnalyzedTx)
    requires
        vsize_of(tx.weight) <= usize::MAX,
    ensures
        analyzed_as(*tx, raw_size, *summary, output_matches@, *coinjoin, seen_at, r),
{
    let tx_vsize = vsize(tx);
    let total_out = total_output_value(tx);
    let resolved = summary.resolved_count == tx.inputs.len();
    let fee: u64 = if resolved && summary.total_input_value >= total_out {
        summary.total_input_value - total_out
    } else {
        0
    };
    let fee_rate: u64 = if resolved && tx_vsize > 0 {
        let q: u128 = ((fee as u128) * 1000) / (tx_vsize as u128);
        if q > u64::MAX as u128 {
            u64::MAX
        } else {
            q as u64
        }
    } else {
        0
    };
    AnalyzedTx {
        txid: txid_hex(tx),
        raw_size,
        vsize: tx_vsize,
        total_input_value: summary.total_input_value,
        total_output_value: total_out,
        fee,
        fee_rate,
        input_count: tx.inputs.len(),
        output_count: tx.outputs.len(),
        oldest_input_height: summary.oldest_input_height,
        oldest_input_time: summary.oldest_input_time,
        coin_days_destroyed: summary.coin_days_destroyed,
        is_rbf_signaling: is_rbf_signaling(tx),
        seen_at,
        prevouts_resolved: resolved,
        to_exchange: output_matches.len() > 0,
        to_exchange_confidence: max_match_confidence(output_matches),
        from_exchange: false,
        from_exchange_confidence: 0,
        is_coinjoin: coinjoin.is_coinjoin,
        coinjoin_confidence: coinjoin.confidence,
    }
}

/// The fee rate of an analyzed transaction is fee / vsize (in thousandths of
/// sat/vB, rounded down) when its prevouts are resolved and its size is
/// positive; when they are not resolved, fee and fee rate are both 0.
pub proof fn lemma_fee_rate_law(resolved: bool, total_in: u64, total_out: u64, vsize: int)
    requires
        vsize > 0,
    ensures
        resolved ==> fee_rate_of(resolved, fee_of(resolved, total_in, total_out), vsize) == min_int(
            (fee_of(resolved, total_in, total_out) * 1000) / vsize,
            u64::MAX as int,
        ),
        !resolved ==> fee_of(resolved, total_in, total_out) == 0 && fee_rate_of(
            resolved,
            fee_of(resolved, total_in, total_out),
            vsize,
        ) == 0,
{
}

/// `r` is the statistics snapshot of the entries `e`: pending count, total
/// vsize and fees of pending entries (saturating), and the fee histogram.
pub open spec fn stats_of(r: PipelineOutput, e: Seq<MempoolEntry>) -> bool {
    match r {
        PipelineOutput::MempoolStats { pending_count, total_vsize, total_fees, fee_histogram } => {
            &&& pending_count == pending_count_of(e)
            &&& total_vsize == crate::mempool::min_nat(crate::mempool::pending_vsize_of(e), usize::MAX as nat)
            &&& total_fees == crate::mempool::min_nat(crate::mempool::pending_fees_of(e), u64::MAX as nat)
            &&& fee_histogram@.len() == 6
            &&& forall|b: int|
                0 <= b < 6 ==> (#[trigger] fee_histogram@[b]).0@ == bucket_label(b)@ && fee_histogram@[b].1
                    == bucket_count_of(e, b)
        },
        _ => false,
    }
}

/// Of every analyzed transaction (as `build_analyzed_tx` and the pipeline
/// emit them): with all prevouts resolved and a positive size, the fee is
/// inputs minus outputs (when they cover the outputs) and the fee rate is
/// fee × 1000 / vsize (saturating); otherwise, when unresolved, both are 0.
pub proof fn lemma_analyzed_fee_rate(
    tx: ParsedTx,
    raw_size: usize,
    summary: PrevoutSummary,
    m: Seq<TagMatch>,
    cj: CoinJoinResult,
    seen_at: i64,
    r: AnalyzedTx,
)
    requires
        analyzed_as(tx, raw_size, summary, m, cj, seen_at, r),
    ensures
        r.prevouts_resolved && r.total_input_value >= r.total_output_value ==> r.fee == r.total_input_value
            - r.total_output_value,
        r.prevouts_resolved && r.vsize > 0 ==> r.fee_rate == min_int((r.fee * 1000) / (r.vsize as int), u64::MAX as int),
        !r.prevouts_resolved ==> r.fee == 0 && r.fee_rate == 0,
{
}

/// A statistics snapshot of the mempool state.
pub fn stats_snapshot(state: &MempoolState) -> (r: PipelineOutput)
    ensures
        stats_of(r, state.entries()),
        match r {
            PipelineOutput::MempoolStats { pending_count, total_vsize, total_fees, fee_histogram } => {
                &&& pending_count == pending_count_of(state.entries())
                &&& total_vsize == crate::mempool::min_nat(crate::mempool::pending_vsize_of(state.entries()), usize::MAX as nat)
                &&& total_fees == crate::mempool::min_nat(crate::mempool::pending_fees_of(state.entries()), u64::MAX as nat)
                &&& fee_histogram@.len() == 6
                &&& forall|b: int|
                    0 <= b < 6 ==> (#[trigger] fee_histogram@[b]).0@ == bucket_label(b)@ && fee_histogram@[b].1
                        == bucket_count_of(state.entries(), b)
            },
            _ => false,
        },
{
    PipelineOutput::MempoolStats {
        pending_count: state.pending_count(),
        total_vsize: state.total_vsize(),
        total_fees: state.total_fees(),
        fee_histogram: state.fee_histogram(),
    }
}

/// Whether a statistics snapshot is due after the `tx_count`-th transaction.
pub open spec fn stats_due(tx_count: u64, now_ms: i64, last_ms: i64) -> bool {
    tx_count % 100 == 0 || now_ms - last_ms >= 5_000
}

/// Whether pruning is due at `now_ms` after the last prune at `last_ms`.
pub open spec fn prune_due(now_ms: i64, last_ms: i64) -> bool {
    now_ms - last_ms >= 60_000
}

/// Whether a batch of `len` signals begun at `since_ms` is to be flushed at `now_ms`.
pub open spec fn flush_due(len: nat, now_ms: i64, since_ms: i64) -> bool {
    len > 0 && (len >= 64 || now_ms - since_ms >= 1_000)
}

/// What identifies a persisted signal: txid, score, alert level, rule-score
/// JSON and the block height seen.
pub type SignalKey = (Seq<char>, u32, Seq<char>, Seq<char>, u32);

pub open spec fn record_key(r: SignalRecord) -> SignalKey {
    (r.txid@, r.score, r.alert_level@, r.rule_scores_json@, r.block_height_seen)
}

pub open spec fn entry_key(e: SignalBatchEntry) -> SignalKey {
    (e.txid@, e.score, e.alert_level@, e.rule_scores_json@, e.block_height_seen)
}

/// The signal that scoring `s` persists, seen at block height `h`.
pub open spec fn signal_of(s: ScoredTx, h: u32) -> SignalKey {
    (s.tx.txid@, s.composite_score, alert_name(s.alert_level)@, scores_json(s.rule_scores@), h)
}

/// `after` holds `before`'s batch appended to its store, in order, with
/// consecutive ids, and an empty batch.
pub open spec fn flushed(before: Pipeline, after: Pipeline) -> bool {
    let n0 = before.store.signals().len();
    &&& after.batch@.len() == 0
    &&& after.store.signals().len() == n0 + before.batch@.len()
    &&& after.store.signals().subrange(0, n0 as int) == before.store.signals()
    &&& forall|k: int|
        0 <= k < before.batch@.len() ==> {
            let r = #[trigger] after.store.signals()[n0 + k];
            r == record_of(before.batch@[k], (n0 + k + 1) as i64, r.created_at)
        }
}

/// The pipeline's state between events: the mempool tracker, the tag
/// index, the store, counters and the pending signal batch.
pub struct Pipeline {
    pub engine: SignalEngine,
    pub mempool: MempoolState,
    pub tags: TagLookup,
    pub store: Database,
    pub tx_count: u64,
    pub block_count: u64,
    pub resolved_total: u64,
    pub unresolved_total: u64,
    pub last_stats_ms: i64,
    pub last_prune_ms: i64,
    pub batch: Vec<SignalBatchEntry>,
    pub batch_since_ms: i64,
    /// Score (hundredths of a point) from which a signal is persisted.
    pub persist_threshold: u32,
    /// Height of the last connected block (0 when the stream gives none).
    pub last_block_height: u32,
}

impl Pipeline {
    /// Every signal stored or waiting in the batch, in order.
    pub open spec fn signal_log(&self) -> Seq<SignalKey> {
        self.store.signals().map_values(|r: SignalRecord| record_key(r)) + self.batch@.map_values(
            |e: SignalBatchEntry| entry_key(e),
        )
    }

    pub open spec fn wf(&self) -> bool {
        &&& self.mempool.wf()
        &&& self.tags.wf()
        &&& self.store.wf()
        &&& self.store.signals().len() + self.batch@.len() + 1 < i64::MAX
    }

    /// A pipeline over `store`, with its tags indexed, at monotonic time `now_ms`.
    pub fn new(engine: SignalEngine, store: Database, persist_threshold: u32, now_ms: i64) -> (r: Pipeline)
        requires
            store.wf(),
            store.signals().len() + 1 < i64::MAX,
        ensures
            r.wf(),
            r.tags@ == store.tags(),
            r.store == store,
            r.mempool.entries().len() == 0,
            r.tx_count == 0 && r.block_count == 0,
            r.batch@.len() == 0,
            r.persist_threshold == persist_threshold,
    {
        let mut tags = TagLookup::empty();
        let all = store.all_tags();
        let mut all = all;
        let ghost rows = all@;
        while all.len() > 0
            invariant
                tags.wf(),
                tags.store().is_none(),
                rows.len() >= all@.len(),
                all@ == rows.subrange(rows.len() - all@.len(), rows.len() as int),
                crate::tags::map_of(rows) == store.tags(),
                crate::tags::distinct_addresses(rows),
                tags@ == crate::tags::map_of(rows.subrange(0, rows.len() - all@.len())),
            decreases all.len(),
        {
            let ghost k = rows.len() - all@.len();
            let t = all.remove(0);
            proof {
                assert(rows.subrange(0, k + 1).drop_last() =~= rows.subrange(0, k));
                assert(rows[k] == t);
                assert(all@ =~= rows.subrange(k + 1, rows.len() as int));
            }
            tags.insert(t);
        }
        proof {
            assert(rows.subrange(0, rows.len() as int) =~= rows);
        }
        Pipeline {
            engine,
            mempool: MempoolState::new(),
            tags,
            store,
            tx_count: 0,
            block_count: 0,
            resolved_total: 0,
            unresolved_total: 0,
            last_stats_ms: now_ms,
            last_prune_ms: now_ms,
            batch: Vec::new(),
            batch_since_ms: now_ms,
            persist_threshold,
            last_block_height: 0,
        }
    }

    /// Handle a decoded new transaction whose inputs resolved to `results`
    /// (one per input, `None` where unresolved), at `now` (unix seconds) and
    /// monotonic `now_ms`. Returns the messages for the presentation layer:
    /// the scored transaction, then a statistics snapshot when one is due.
    pub fn on_tx_added(
        &mut self,
        tx: &ParsedTx,
        raw_size: usize,
        results: &[Option<ResolvedPrevout>],
        now: i64,
        now_ms: i64,
    ) -> (r: Vec<PipelineOutput>)
        requires
            old(self).wf(),
            vsize_of(tx.weight) <= usize::MAX,
            results@.len() == tx.inputs@.len(),
            old(self).store.signals().len() + old(self).batch@.len() + 66 < i64::MAX,
        ensures
            final(self).wf(),
            final(self).tx_count == if old(self).tx_count == u64::MAX { u64::MAX } else { (old(self).tx_count + 1) as u64 },
            r@.len() >= 1,
            match r@[0] {
                PipelineOutput::NewTx(s) => {
                    &&& scored_at(&old(self).engine, s.tx, now as int, s)
                    &&& exists|m: Seq<TagMatch>|
                        #[trigger] output_matches(
                            old(self).tags@,
                            output_addresses(*tx),
                            m,
                        ) && analyzed_as(
                            *tx,
                            raw_size,
                            summary_of(results@, now as int),
                            m,
                            coinjoin_spec(tx.inputs@.len(), tx.output_values()),
                            now,
                            s.tx,
                        )
                    &&& final(self).signal_log() == if s.composite_score >= old(self).persist_threshold {
                        old(self).signal_log().push(signal_of(s, old(self).last_block_height))
                    } else {
                        old(self).signal_log()
                    }
                },
                _ => false,
            },
            r@.len() == if stats_due(final(self).tx_count, now_ms, old(self).last_stats_ms) { 2int } else { 1int },
            match r@[0] {
                PipelineOutput::NewTx(s) => exists|mid: Seq<crate::mempool::MempoolEntry>|
                    #[trigger] crate::mempool::added(old(self).mempool.entries(), mid, s.tx, now) && final(self).mempool.entries()
                        == if prune_due(now_ms, old(self).last_prune_ms) {
                        crate::mempool::kept_of(mid, now - PRUNE_MAX_AGE_SECS)
                    } else {
                        mid
                    } && (r@.len() == 2 ==> stats_of(r@[1], mid)),
                _ => false,
            },
            final(self).persist_threshold == old(self).persist_threshold,
            final(self).last_block_height == old(self).last_block_height,
    {
        let summary = aggregate_prevouts(results, now);
        let coinjoin = detect_coinjoin(tx);
        let matches = self.tags.check_outputs(tx);
        let analyzed = build_analyzed_tx(tx, raw_size, &summary, matches.as_slice(), &coinjoin, now);
        let input_count = tx.inputs.len();
        self.resolved_total = self.resolved_total.saturating_add(summary.resolved_count as u64);
        self.unresolved_total = self.unresolved_total.saturating_add((input_count - summary.resolved_count) as u64);
        self.mempool.add_tx_at(analyzed.duplicate(), now);
        let ghost mid = self.mempool.entries();
        let scored = self.engine.score_at(&analyzed, now);
        self.tx_count = self.tx_count.saturating_add(1);
        if scored.composite_score >= self.persist_threshold {
            if self.batch.len() == 0 {
                self.batch_since_ms = now_ms;
            }
            let level = scored.alert_level.name().to_string();
            self.batch.push(SignalBatchEntry {
                txid: analyzed.txid.clone(),
                score: scored.composite_score,
                alert_level: level,
                rule_scores_json: rule_scores_json(scored.rule_scores.as_slice()),
                to_exchange: analyzed.to_exchange,
                total_input_value: analyzed.total_input_value,
                fee_rate: analyzed.fee_rate,
                coin_days_destroyed: analyzed.coin_days_destroyed,
                block_height_seen: self.last_block_height,
            });
        }
        let ghost log_after_push = self.signal_log();
        proof {
            assert(output_matches(old(self).tags@, output_addresses(*tx), matches@));
            if scored.composite_score >= old(self).persist_threshold {
                assert(self.batch@.map_values(|e: SignalBatchEntry| entry_key(e)) =~= old(self).batch@.map_values(
                    |e: SignalBatchEntry| entry_key(e),
                ).push(entry_key(self.batch@.last())));
                assert(log_after_push =~= old(self).signal_log().push(signal_of(scored, old(self).last_block_height)));
            } else {
                assert(log_after_push =~= old(self).signal_log());
            }
        }
        let mut out: Vec<PipelineOutput> = Vec::new();
        out.push(PipelineOutput::NewTx(scored));
        let since = now_ms as i128 - self.last_stats_ms as i128;
        if self.tx_count % STATS_TX_INTERVAL == 0 || since >= STATS_TIME_INTERVAL_MS as i128 {
            out.push(stats_snapshot(&self.mempool));
            self.last_stats_ms = now_ms;
        }
        let since_prune = now_ms as i128 - self.last_prune_ms as i128;
        if since_prune >= PRUNE_INTERVAL_MS as i128 {
            self.mempool.prune_old_at(PRUNE_MAX_AGE_SECS, now);
            self.last_prune_ms = now_ms;
        }
        self.flush_if_due(now_ms);
        proof {
            assert(crate::mempool::added(old(self).mempool.entries(), mid, analyzed, now));
        }
        out
    }

    /// Flush the batch into the store when it holds 64 signals or its oldest
    /// is at least a second old. Returns the number of signals flushed.
    pub fn flush_if_due(&mut self, now_ms: i64) -> (n: usize)
        requires
            old(self).wf(),
        ensures
            final(self).wf(),
            n == if flush_due(old(self).batch@.len(), now_ms, old(self).batch_since_ms) {
                old(self).batch@.len()
            } else {
                0
            },
            final(self).tx_count == old(self).tx_count,
            final(self).store.signals().len() == old(self).store.signals().len() + n,
            final(self).batch@.len() == old(self).batch@.len() - n,
            final(self).persist_threshold == old(self).persist_threshold,
            final(self).last_block_height == old(self).last_block_height,
            final(self).mempool == old(self).mempool,
            final(self).signal_log() == old(self).signal_log(),
            n > 0 ==> flushed(*old(self), *final(self)),
            n == 0 ==> final(self).store == old(self).store && final(self).batch == old(self).batch,
    {
        let len = self.batch.len();
        let age = now_ms as i128 - self.batch_since_ms as i128;
        if len > 0 && (len >= FLUSH_BATCH_SIZE || age >= FLUSH_AGE_MS as i128) {
            self.flush()
        } else {
            0
        }
    }

    /// Store every batched signal, in order. Returns how many were stored.
    pub fn flush(&mut self) -> (n: usize)
        requires
            old(self).wf(),
        ensures
            final(self).wf(),
            n == old(self).batch@.len(),
            final(self).batch@.len() == 0,
            final(self).tx_count == old(self).tx_count,
            final(self).store.signals().len() == old(self).store.signals().len() + n,
            final(self).store.signals().subrange(0, old(self).store.signals().len() as int) == old(self).store.signals(),
            final(self).persist_threshold == old(self).persist_threshold,
            final(self).last_block_height == old(self).last_block_height,
            final(self).mempool == old(self).mempool,
            final(self).signal_log() == old(self).signal_log(),
            flushed(*old(self), *final(self)),
    {
        let ghost b = self.batch@;
        let ghost n0 = self.store.signals().len();
        let mut batch: Vec<SignalBatchEntry> = Vec::new();
        core::mem::swap(&mut batch, &mut self.batch);
        let n = batch.len();
        self.store.store_signals_batch(batch);
        proof {
            let old_log = old(self).signal_log();
            let new_log = self.signal_log();
            assert(self.batch@.map_values(|e: SignalBatchEntry| entry_key(e)) =~= Seq::<SignalKey>::empty());
            assert forall|j: int| 0 <= j < new_log.len() implies new_log[j] == old_log[j] by {
                if j < n0 {
                    assert(self.store.signals()[j] == self.store.signals().subrange(0, n0 as int)[j]);
                } else {
                    let k = j - n0;
                    let r = self.store.signals()[n0 + k];
                    assert(r == record_of(b[k], (n0 + k + 1) as i64, r.created_at));
                }
            }
            assert(new_log =~= old_log);
        }
        n
    }

    /// Handle a connected block: count it and record its height, then a
    /// block message and a statistics snapshot.
    pub fn on_block_connected(&mut self, height: u32) -> (r: Vec<PipelineOutput>)
        requires
            old(self).wf(),
        ensures
            final(self).wf(),
            final(self).block_count == if old(self).block_count == u64::MAX { u64::MAX } else { (old(self).block_count + 1) as u64 },
            final(self).mempool == old(self).mempool,
            r@.len() == 2,
            r@[0] == (PipelineOutput::BlockConnected { height }),
            stats_of(r@[1], final(self).mempool.entries()),
            final(self).last_block_height == height,
            final(self).signal_log() == old(self).signal_log(),
            final(self).persist_threshold == old(self).persist_threshold,
    {
        self.block_count = self.block_count.saturating_add(1);
        self.last_block_height = height;
        let mut out: Vec<PipelineOutput> = Vec::new();
        out.push(PipelineOutput::BlockConnected { height });
        out.push(stats_snapshot(&self.mempool));
        out
    }

    /// Handle a removal: the txid (internal byte order) is shown in display
    /// order and its entry leaves Pending for `reason`, stamped `now`.
    pub fn on_tx_removed(&mut self, txid: &[u8; 32], reason: RemovalReason, now: i64)
        requires
            old(self).wf(),
        ensures
            final(self).wf(),
            final(self).mempool.entries() == crate::mempool::with_state(
                old(self).mempool.entries(),
                hex_of(reversed(txid@)),
                crate::mempool::state_for(reason),
                now,
            ),
            final(self).tx_count == old(self).tx_count,
    {
        let hex = display_hex(txid);
        self.mempool.remove_tx_at(hex.as_str(), reason, now);
    }
}

} // verus!
