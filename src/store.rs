use vstd::prelude::*;

use crate::mempool::same_text;
use crate::rules::min_int;
use crate::tags::{conf_at, no_confidence_lost, upsert_spec, AddressTag, TagTable};

verus! {

/// A cached prior output: value, script type, block height and block time.
#[derive(Debug)]
pub struct CachedPrevout {
    pub txid: String,
    pub vout: u32,
    pub value: u64,
    pub script_type: String,
    pub block_height: u32,
    pub block_time: i64,
}

/// What the cache holds for one key.
pub type PrevoutValue = (u64, Seq<char>, u32, i64);

pub open spec fn value_of(c: CachedPrevout) -> PrevoutValue {
    (c.value, c.script_type@, c.block_height, c.block_time)
}

/// Lookup in cache rows: the latest row with the key.
pub open spec fn cache_lookup(s: Seq<CachedPrevout>, txid: Seq<char>, vout: u32) -> Option<PrevoutValue>
    decreases s.len(),
{
    if s.len() == 0 {
        None
    } else if s.last().txid@ == txid && s.last().vout == vout {
        Some(value_of(s.last()))
    } else {
        cache_lookup(s.drop_last(), txid, vout)
    }
}

/// Cache rows without those of the key.
pub open spec fn cache_without(s: Seq<CachedPrevout>, txid: Seq<char>, vout: u32) -> Seq<CachedPrevout>
    decreases s.len(),
{
    if s.len() == 0 {
        s
    } else if s.last().txid@ == txid && s.last().vout == vout {
        cache_without(s.drop_last(), txid, vout)
    } else {
        cache_without(s.drop_last(), txid, vout).push(s.last())
    }
}

proof fn lemma_lookup_without(s: Seq<CachedPrevout>, txid: Seq<char>, vout: u32, t2: Seq<char>, v2: u32)
    ensures
        cache_lookup(cache_without(s, txid, vout), t2, v2) == if t2 == txid && v2 == vout {
            None
        } else {
            cache_lookup(s, t2, v2)
        },
    decreases s.len(),
{
    if s.len() > 0 {
        lemma_lookup_without(s.drop_last(), txid, vout, t2, v2);
        let w = cache_without(s.drop_last(), txid, vout);
        assert(w.push(s.last()).drop_last() =~= w);
    }
}

/// A persisted signal: `score` in hundredths of a point, `fee_rate` in
/// thousandths of sat/vB, `coin_days_destroyed` in satoshi-days, `created_at`
/// in unix seconds.
#[derive(Debug)]
pub struct SignalRecord {
    pub id: i64,
    pub txid: String,
    pub score: u32,
    pub alert_level: String,
    pub rule_scores_json: String,
    pub to_exchange: bool,
    pub total_input_value: u64,
    pub fee_rate: u64,
    pub coin_days_destroyed: Option<u64>,
    pub block_height_seen: u32,
    pub created_at: i64,
}

impl SignalRecord {
    /// A field-by-field copy.
    pub fn duplicate(&self) -> (r: SignalRecord)
        ensures
            r == *self,
    {
        SignalRecord {
            id: self.id,
            txid: self.txid.clone(),
            score: self.score,
            alert_level: self.alert_level.clone(),
            rule_scores_json: self.rule_scores_json.clone(),
            to_exchange: self.to_exchange,
            total_input_value: self.total_input_value,
            fee_rate: self.fee_rate,
            coin_days_destroyed: self.coin_days_destroyed,
            block_height_seen: self.block_height_seen,
            created_at: self.created_at,
        }
    }
}

/// A signal to be stored.
#[derive(Debug)]
pub struct SignalBatchEntry {
    pub txid: String,
    pub score: u32,
    pub alert_level: String,
    pub rule_scores_json: String,
    pub to_exchange: bool,
    pub total_input_value: u64,
    pub fee_rate: u64,
    pub coin_days_destroyed: Option<u64>,
    pub block_height_seen: u32,
}

/// The record that storing `e` as `id` at `created_at` yields.
pub open spec fn record_of(e: SignalBatchEntry, id: i64, created_at: i64) -> SignalRecord {
    SignalRecord {
        id: id,
        txid: e.txid,
        score: e.score,
        alert_level: e.alert_level,
        rule_scores_json: e.rule_scores_json,
        to_exchange: e.to_exchange,
        total_input_value: e.total_input_value,
        fee_rate: e.fee_rate,
        coin_days_destroyed: e.coin_days_destroyed,
        block_height_seen: e.block_height_seen,
        created_at: created_at,
    }
}

/// Signal rows in storage order: ids 1, 2, 3, ... and non-decreasing `created_at`.
pub open spec fn signals_wf(s: Seq<SignalRecord>) -> bool {
    &&& forall|i: int| 0 <= i < s.len() ==> (#[trigger] s[i]).id == i + 1
    &&& forall|i: int, j: int| 0 <= i < j < s.len() ==> s[i].created_at <= s[j].created_at
}

/// Signals with `from <= created_at <= to`, newest first.
pub open spec fn in_range_newest_first(s: Seq<SignalRecord>, from: i64, to: i64) -> Seq<SignalRecord>
    decreases s.len(),
{
    if s.len() == 0 {
        s
    } else if from <= s.last().created_at <= to {
        seq![s.last()] + in_range_newest_first(s.drop_last(), from, to)
    } else {
        in_range_newest_first(s.drop_last(), from, to)
    }
}

/// `after` caches `val` at `(txid, vout)` and agrees with `before` on every other key.
pub open spec fn cached_after(before: Database, after: Database, txid: Seq<char>, vout: u32, val: PrevoutValue) -> bool {
    forall|t: Seq<char>, v: u32|
        #[trigger] after.cached(t, v) == if t == txid && v == vout {
            Some(val)
        } else {
            before.cached(t, v)
        }
}

/// The store behind the pipeline: the prevout cache, the address tags and the signal history.
#[derive(Debug)]
pub struct Database {
    cache: Vec<CachedPrevout>,
    tags: TagTable,
    signals: Vec<SignalRecord>,
}

impl Database {
    pub closed spec fn cache_rows(&self) -> Seq<CachedPrevout> {
        self.cache@
    }

    pub closed spec fn tags(&self) -> Map<Seq<char>, AddressTag> {
        self.tags@
    }

    pub closed spec fn signals(&self) -> Seq<SignalRecord> {
        self.signals@
    }

    pub closed spec fn wf(&self) -> bool {
        self.tags.wf() && signals_wf(self.signals@) && self.signals@.len() < i64::MAX
    }

    /// The cached value of `(txid, vout)`.
    pub open spec fn cached(&self, txid: Seq<char>, vout: u32) -> Option<PrevoutValue> {
        cache_lookup(self.cache_rows(), txid, vout)
    }

    /// An empty store.
    pub fn open() -> (r: Database)
        ensures
            r.wf(),
            forall|t: Seq<char>, v: u32| r.cached(t, v).is_none(),
            r.tags() == Map::<Seq<char>, AddressTag>::empty(),
            r.signals().len() == 0,
    {
        Database { cache: Vec::new(), tags: TagTable::new(), signals: Vec::new() }
    }

    /// Cache a resolved prior output, replacing what was cached for its key.
    pub fn cache_utxo(
        &mut self,
        txid: &str,
        vout: u32,
        value: u64,
        script_type: &str,
        block_height: u32,
        block_time: i64,
    )
        requires
            old(self).wf(),
        ensures
            final(self).wf(),
            cached_after(*old(self), *final(self), txid@, vout, (value, script_type@, block_height, block_time)),
            final(self).tags() == old(self).tags(),
            final(self).signals() == old(self).signals(),
    {
        let mut kept: Vec<CachedPrevout> = Vec::new();
        let mut i: usize = 0;
        while i < self.cache.len()
            invariant
                i <= self.cache.len(),
                kept@ == cache_without(self.cache@.subrange(0, i as int), txid@, vout),
            decreases self.cache.len() - i,
        {
            proof {
                assert(self.cache@.subrange(0, i as int + 1).drop_last() =~= self.cache@.subrange(0, i as int));
            }
            let c = &self.cache[i];
            if !(same_text(c.txid.as_str(), txid) && c.vout == vout) {
                kept.push(CachedPrevout {
                    txid: c.txid.clone(),
                    vout: c.vout,
                    value: c.value,
                    script_type: c.script_type.clone(),
                    block_height: c.block_height,
                    block_time: c.block_time,
                });
            }
            i = i + 1;
        }
        assert(self.cache@.subrange(0, i as int) =~= self.cache@);
        let ghost before = self.cache@;
        kept.push(CachedPrevout {
            txid: txid.to_string(),
            vout,
            value,
            script_type: script_type.to_string(),
            block_height,
            block_time,
        });
        self.cache = kept;
        proof {
            assert forall|t: Seq<char>, v: u32|
                #[trigger] cache_lookup(self.cache@, t, v) == if t == txid@ && v == vout {
                    Some((value, script_type@, block_height, block_time))
                } else {
                    cache_lookup(before, t, v)
                } by {
                assert(self.cache@.drop_last() =~= cache_without(before, txid@, vout));
                lemma_lookup_without(before, txid@, vout, t, v);
            }
        }
    }

    /// The cached value of `(txid, vout)`: (value, script type, block height, block time).
    pub fn get_utxo(&self, txid: &str, vout: u32) -> (r: Option<(u64, String, u32, i64)>)
        ensures
            match r {
                Some(x) => self.cached(txid@, vout) == Some((x.0, x.1@, x.2, x.3)),
                None => self.cached(txid@, vout).is_none(),
            },
    {
        let mut i: usize = self.cache.len();
        assert(self.cache@.subrange(0, i as int) =~= self.cache@);
        while i > 0
            invariant
                i <= self.cache.len(),
                cache_lookup(self.cache@, txid@, vout) == cache_lookup(self.cache@.subrange(0, i as int), txid@, vout),
            decreases i,
        {
            proof {
                assert(self.cache@.subrange(0, i as int).drop_last() =~= self.cache@.subrange(0, i as int - 1));
            }
            let c = &self.cache[i - 1];
            if same_text(c.txid.as_str(), txid) && c.vout == vout {
                return Some((c.value, c.script_type.clone(), c.block_height, c.block_time));
            }
            i = i - 1;
        }
        None
    }

    /// The tag stored at `address`.
    pub fn lookup_address(&self, address: &str) -> (r: Option<AddressTag>)
        requires
            self.wf(),
        ensures
            match r {
                Some(t) => self.tags().contains_key(address@) && t == self.tags()[address@],
                None => !self.tags().contains_key(address@),
            },
    {
        match self.tags.get(address) {
            Some(t) => Some(t.duplicate()),
            None => None,
        }
    }

    /// Store `tag` at its address unless the stored confidence there is
    /// higher: confidence never decreases.
    pub fn insert_tag(&mut self, tag: &AddressTag)
        requires
            old(self).wf(),
        ensures
            final(self).wf(),
            final(self).tags() == upsert_spec(old(self).tags(), *tag, false),
            no_confidence_lost(old(self).tags(), final(self).tags()),
            final(self).signals() == old(self).signals(),
            final(self).cache_rows() == old(self).cache_rows(),
    {
        self.tags.upsert(tag.duplicate(), false);
    }

    /// Store `tag` only where the stored confidence at its address is lower
    /// (or nothing is stored). Returns whether it was written.
    pub fn insert_tag_if_higher(&mut self, tag: &AddressTag) -> (written: bool)
        requires
            old(self).wf(),
        ensures
            final(self).wf(),
            final(self).tags() == upsert_spec(old(self).tags(), *tag, true),
            written == (!old(self).tags().contains_key(tag.address@) || old(self).tags()[tag.address@].confidence
                < tag.confidence),
            no_confidence_lost(old(self).tags(), final(self).tags()),
            final(self).signals() == old(self).signals(),
            final(self).cache_rows() == old(self).cache_rows(),
    {
        self.tags.upsert(tag.duplicate(), true)
    }

    /// All stored tags, one per address.
    pub fn all_tags(&self) -> (r: Vec<AddressTag>)
        requires
            self.wf(),
        ensures
            crate::tags::map_of(r@) == self.tags(),
            r@.len() == self.tags().len(),
            crate::tags::distinct_addresses(r@),
    {
        proof {
            self.tags.lemma_len();
        }
        self.tags.all()
    }

    /// Store one signal, stamped with the current time.
    pub fn store_signal(
        &mut self,
        txid: &str,
        score: u32,
        alert_level: &str,
        rule_scores_json: &str,
        to_exchange: bool,
        total_input_value: u64,
        fee_rate: u64,
        coin_days_destroyed: Option<u64>,
        block_height_seen: u32,
    )
        requires
            old(self).wf(),
            old(self).signals().len() + 1 < i64::MAX,
        ensures
            final(self).wf(),
            final(self).signals().len() == old(self).signals().len() + 1,
            final(self).signals().drop_last() == old(self).signals(),
            ({
                let r = final(self).signals().last();
                &&& r.id == old(self).signals().len() + 1
                &&& r.txid@ == txid@
                &&& r.score == score
                &&& r.alert_level@ == alert_level@
                &&& r.rule_scores_json@ == rule_scores_json@
                &&& r.to_exchange == to_exchange
                &&& r.total_input_value == total_input_value
                &&& r.fee_rate == fee_rate
                &&& r.coin_days_destroyed == coin_days_destroyed
                &&& r.block_height_seen == block_height_seen
            }),
            final(self).tags() == old(self).tags(),
            final(self).cache_rows() == old(self).cache_rows(),
    {
        let now = crate::clock::now_unix();
        let entry = SignalBatchEntry {
            txid: txid.to_string(),
            score,
            alert_level: alert_level.to_string(),
            rule_scores_json: rule_scores_json.to_string(),
            to_exchange,
            total_input_value,
            fee_rate,
            coin_days_destroyed,
            block_height_seen,
        };
        self.store_signal_at(entry, now);
        assert(self.signals@.drop_last() =~= old(self).signals@);
    }

    /// The timestamp that a signal stored at `now` gets: `now`, or the latest
    /// stored timestamp if that is later, so that storage order is time order.
    pub open spec fn stamp_for(&self, now: i64) -> i64 {
        if self.signals().len() > 0 && self.signals().last().created_at > now {
            self.signals().last().created_at
        } else {
            now
        }
    }

    /// Store one signal with the next id, stamped at `now`.
    pub fn store_signal_at(&mut self, entry: SignalBatchEntry, now: i64)
        requires
            old(self).wf(),
            old(self).signals().len() + 1 < i64::MAX,
        ensures
            final(self).wf(),
            final(self).signals() == old(self).signals().push(record_of(entry, (old(self).signals().len() + 1) as i64, old(self).stamp_for(now))),
            final(self).tags() == old(self).tags(),
            final(self).cache_rows() == old(self).cache_rows(),
    {
        let n = self.signals.len();
        let created_at = if n > 0 && self.signals[n - 1].created_at > now {
            self.signals[n - 1].created_at
        } else {
            now
        };
        let id = (n as i64) + 1;
        let rec = SignalRecord {
            id,
            txid: entry.txid,
            score: entry.score,
            alert_level: entry.alert_level,
            rule_scores_json: entry.rule_scores_json,
            to_exchange: entry.to_exchange,
            total_input_value: entry.total_input_value,
            fee_rate: entry.fee_rate,
            coin_days_destroyed: entry.coin_days_destroyed,
            block_height_seen: entry.block_height_seen,
            created_at,
        };
        self.signals.push(rec);
    }

    /// Store several signals, in order, with consecutive ids, all stamped with the current time.
    pub fn store_signals_batch(&mut self, entries: Vec<SignalBatchEntry>)
        requires
            old(self).wf(),
            old(self).signals().len() + entries@.len() + 1 < i64::MAX,
        ensures
            final(self).wf(),
            final(self).signals().len() == old(self).signals().len() + entries@.len(),
            final(self).signals().subrange(0, old(self).signals().len() as int) == old(self).signals(),
            final(self).tags() == old(self).tags(),
            final(self).cache_rows() == old(self).cache_rows(),
            forall|k: int|
                0 <= k < entries@.len() ==> {
                    let r = #[trigger] final(self).signals()[old(self).signals().len() + k];
                    r == record_of(entries@[k], (old(self).signals().len() + k + 1) as i64, r.created_at)
                },
    {
        let now = crate::clock::now_unix();
        let ghost n0 = self.signals@.len();
        let mut entries = entries;
        let ghost orig = entries@;
        let total: usize = entries.len();
        let mut k: usize = 0;
        while entries.len() > 0
            invariant
                self.wf(),
                k + entries@.len() == orig.len(),
                orig.len() == total,
                entries@ == orig.subrange(k as int, orig.len() as int),
                n0 + orig.len() + 1 < i64::MAX,
                self.signals@.len() == n0 + k,
                self.signals@.subrange(0, n0 as int) == old(self).signals@,
                self.tags() == old(self).tags(),
                self.cache_rows() == old(self).cache_rows(),
                forall|j: int|
                    0 <= j < k ==> {
                        let r = #[trigger] self.signals@[n0 + j];
                        r == record_of(orig[j], (n0 + j + 1) as i64, r.created_at)
                    },
            decreases entries.len(),
        {
            assert(k < orig.len());
            let e = entries.remove(0);
            let ghost before = self.signals@;
            self.store_signal_at(e, now);
            proof {
                assert(self.signals@.subrange(0, n0 as int) =~= before.subrange(0, n0 as int));
                assert(entries@ =~= orig.subrange(k as int + 1, orig.len() as int));
                assert forall|j: int| 0 <= j < k + 1 implies {
                    let r = #[trigger] self.signals@[n0 + j];
                    r == record_of(orig[j], (n0 + j + 1) as i64, r.created_at)
                } by {
                    if j < k {
                        assert(self.signals@[n0 + j] == before[n0 + j]);
                    }
                }
            }
            k = k + 1;
        }
    }

    /// The `limit` most recent signals, newest first.
    pub fn get_recent_signals(&self, limit: usize) -> (r: Vec<SignalRecord>)
        requires
            self.wf(),
        ensures
            r@.len() == min_int(limit as int, self.signals().len() as int),
            forall|j: int| 0 <= j < r@.len() ==> #[trigger] r@[j] == self.signals()[self.signals().len() - 1 - j],
            forall|a: int, b: int| 0 <= a < b < r@.len() ==> r@[a].created_at >= r@[b].created_at,
            forall|j: int|
                0 <= j < self.signals().len() - r@.len() ==> r@.len() == 0 || self.signals()[j].created_at
                    <= r@.last().created_at,
    {
        let mut r: Vec<SignalRecord> = Vec::new();
        let n = self.signals.len();
        let mut j: usize = 0;
        while j < n && j < limit
            invariant
                n == self.signals@.len(),
                j <= n,
                j <= limit,
                r@.len() == j,
                forall|k: int| 0 <= k < j ==> #[trigger] r@[k] == self.signals@[n - 1 - k],
            decreases n - j,
        {
            r.push(self.signals[n - 1 - j].duplicate());
            j = j + 1;
        }
        proof {
            assert forall|a: int, b: int| 0 <= a < b < r@.len() implies r@[a].created_at >= r@[b].created_at by {
                assert(r@[a] == self.signals@[n - 1 - a]);
                assert(r@[b] == self.signals@[n - 1 - b]);
            }
        }
        r
    }

    /// The signals created within `[from, to]`, newest first.
    pub fn get_signals_by_timerange(&self, from: i64, to: i64) -> (r: Vec<SignalRecord>)
        ensures
            r@ == in_range_newest_first(self.signals(), from, to),
    {
        let mut r: Vec<SignalRecord> = Vec::new();
        let n = self.signals.len();
        let mut i: usize = n;
        assert(self.signals@.subrange(0, n as int) =~= self.signals@);
        assert(r@ + in_range_newest_first(self.signals@, from, to) =~= in_range_newest_first(self.signals@, from, to));
        while i > 0
            invariant
                i <= n,
                n == self.signals@.len(),
                in_range_newest_first(self.signals@, from, to) == r@ + in_range_newest_first(
                    self.signals@.subrange(0, i as int),
                    from,
                    to,
                ),
            decreases i,
        {
            let ghost pre = self.signals@.subrange(0, i as int);
            proof {
                assert(pre.drop_last() =~= self.signals@.subrange(0, i as int - 1));
            }
            let s = &self.signals[i - 1];
            if from <= s.created_at && s.created_at <= to {
                let ghost r0 = r@;
                r.push(s.duplicate());
                proof {
                    assert(r@ =~= r0 + seq![pre.last()]);
                    assert(r0 + (seq![pre.last()] + in_range_newest_first(pre.drop_last(), from, to)) =~= r@
                        + in_range_newest_first(pre.drop_last(), from, to));
                }
            }
            i = i - 1;
        }
        proof {
            assert(self.signals@.subrange(0, 0) =~= Seq::<SignalRecord>::empty());
            assert(r@ + Seq::<SignalRecord>::empty() =~= r@);
        }
        r
    }

    /// The signals scoring at least `min_score`, highest score first, at most
    /// `limit` of them: fewer only when every such signal is listed, and none
    /// left out scores above the last one listed.
    pub fn get_signals_above_score(&self, min_score: u32, limit: usize) -> (r: Vec<SignalRecord>)
        requires
            self.wf(),
        ensures
            r@.len() <= limit,
            forall|k: int| 0 <= k < r@.len() ==> self.signals().contains(#[trigger] r@[k]) && r@[k].score >= min_score,
            forall|a: int, b: int| 0 <= a < b < r@.len() ==> r@[a].score >= r@[b].score && r@[a].id != r@[b].id,
            forall|j: int|
                0 <= j < self.signals().len() && (#[trigger] self.signals()[j]).score >= min_score && !r@.contains(self.signals()[j])
                    ==> r@.len() == limit && (r@.len() > 0 ==> self.signals()[j].score <= r@.last().score),
    {
        let n = self.signals.len();
        let mut taken: Vec<bool> = Vec::new();
        let mut t: usize = 0;
        while t < n
            invariant
                t <= n,
                n == self.signals@.len(),
                taken@.len() == t,
                forall|j: int| 0 <= j < t ==> !taken@[j],
            decreases n - t,
        {
            taken.push(false);
            t = t + 1;
        }
        let mut r: Vec<SignalRecord> = Vec::new();
        let ghost mut idx: Seq<int> = Seq::empty();
        let mut exhausted = false;
        while r.len() < limit && !exhausted
            invariant
                self.wf(),
                n == self.signals@.len(),
                taken@.len() == n,
                r@.len() <= limit,
                r@.len() == idx.len(),
                forall|j: int| 0 <= j < n ==> (taken@[j] <==> idx.contains(j)),
                forall|k: int| 0 <= k < idx.len() ==> 0 <= #[trigger] idx[k] < n && r@[k] == self.signals@[idx[k]] && r@[k].score >= min_score,
                forall|a: int, b: int| 0 <= a < b < idx.len() ==> idx[a] != idx[b],
                forall|a: int, b: int| #![trigger r@[a], r@[b]] 0 <= a < b < r@.len() ==> r@[a].score >= r@[b].score,
                forall|j: int|
                    0 <= j < n && !taken@[j] && (#[trigger] self.signals@[j]).score >= min_score ==> !exhausted && (r@.len()
                        > 0 ==> self.signals@[j].score <= r@.last().score),
            decreases limit - r@.len() + if exhausted { 0int } else { 1int },
        {
            let mut best: Option<usize> = None;
            let mut j: usize = 0;
            while j < n
                invariant
                    j <= n,
                    n == self.signals@.len(),
                    taken@.len() == n,
                    match best {
                        Some(b) => b < j && !taken@[b as int] && self.signals@[b as int].score >= min_score
                            && forall|m: int| 0 <= m < j && !taken@[m] && (#[trigger] self.signals@[m]).score >= min_score ==> self.signals@[m].score <= self.signals@[b as int].score,
                        None => forall|m: int| 0 <= m < j && !taken@[m] ==> (#[trigger] self.signals@[m]).score < min_score,
                    },
                decreases n - j,
            {
                if !taken[j] && self.signals[j].score >= min_score {
                    let better = match best {
                        Some(b) => self.signals[j].score > self.signals[b].score,
                        None => true,
                    };
                    if better {
                        best = Some(j);
                    }
                }
                j = j + 1;
            }
            match best {
                Some(b) => {
                    let ghost old_r = r@;
                    let ghost old_idx = idx;
                    let ghost old_taken = taken@;
                    r.push(self.signals[b].duplicate());
                    taken.set(b, true);
                    proof {
                        idx = idx.push(b as int);
                        assert forall|m: int| 0 <= m < n implies (taken@[m] <==> idx.contains(m)) by {
                            if m == b as int {
                                assert(idx[idx.len() - 1] == m);
                            } else {
                                assert(taken@[m] == old_taken[m]);
                                if old_idx.contains(m) {
                                    let k = choose|k: int| 0 <= k < old_idx.len() && old_idx[k] == m;
                                    assert(idx[k] == m);
                                }
                                if idx.contains(m) {
                                    let k = choose|k: int| 0 <= k < idx.len() && idx[k] == m;
                                    assert(k < old_idx.len());
                                    assert(old_idx[k] == m);
                                }
                            }
                        }
                        assert forall|k: int| 0 <= k < idx.len() implies 0 <= #[trigger] idx[k] < n && r@[k] == self.signals@[idx[k]] && r@[k].score >= min_score by {
                            if k < old_idx.len() {
                                assert(idx[k] == old_idx[k]);
                                assert(r@[k] == old_r[k]);
                            }
                        }
                        assert forall|a: int, c: int| 0 <= a < c < idx.len() implies idx[a] != idx[c] && r@[a].score >= r@[c].score by {
                            assert(r@[a] == if a < old_r.len() { old_r[a] } else { r@[a] });
                            if c == idx.len() - 1 {
                                assert(idx[a] == old_idx[a]);
                                assert(old_idx.contains(idx[a]));
                                assert(old_taken[idx[a]]);
                                assert(!old_taken[b as int]);
                                if old_r.len() > 0 {
                                    assert(self.signals@[b as int].score <= old_r.last().score);
                                    if a < old_r.len() - 1 {
                                        assert(old_r[a].score >= old_r[old_r.len() - 1].score);
                                    }
                                    assert(old_r[a].score >= old_r.last().score);
                                }
                            } else {
                                assert(idx[a] == old_idx[a] && idx[c] == old_idx[c]);
                                assert(r@[a] == old_r[a] && r@[c] == old_r[c]);
                            }
                        }
                        assert forall|a: int, c: int| #![trigger r@[a], r@[c]] 0 <= a < c < r@.len() implies r@[a].score >= r@[c].score by {
                            assert(idx[a] != idx[c] && r@[a].score >= r@[c].score);
                        }
                    }
                },
                None => {
                    exhausted = true;
                },
            }
        }
        proof {
            assert forall|j: int|
                0 <= j < self.signals@.len() && (#[trigger] self.signals@[j]).score >= min_score && !r@.contains(self.signals@[j])
                    implies r@.len() == limit && (r@.len() > 0 ==> self.signals@[j].score <= r@.last().score) by {
                assert(taken@[j] <==> idx.contains(j));
                if taken@[j] {
                    let k = choose|k: int| 0 <= k < idx.len() && idx[k] == j;
                    assert(r@[k] == self.signals@[j]);
                }
            }
            assert forall|k: int| 0 <= k < r@.len() implies self.signals@.contains(#[trigger] r@[k]) && r@[k].score >= min_score by {
                assert(0 <= idx[k] < n && r@[k] == self.signals@[idx[k]] && r@[k].score >= min_score);
            }
            assert forall|a: int, c: int| 0 <= a < c < r@.len() implies r@[a].score >= r@[c].score && r@[a].id != r@[c].id by {
                assert(idx[a] != idx[c]);
                assert(self.signals@[idx[a]].id == idx[a] + 1);
                assert(self.signals@[idx[c]].id == idx[c] + 1);
            }
        }
        r
    }

    /// Total number of stored signals.
    pub fn get_signal_count(&self) -> (r: usize)
        ensures
            r == self.signals().len(),
    {
        self.signals.len()
    }
}

/// Caching a prior output and reading it back gives the cached value;
/// caching the same key again with another value overwrites it.
pub proof fn lemma_cache_round_trip(
    d0: Database,
    d1: Database,
    d2: Database,
    txid: Seq<char>,
    vout: u32,
    a: PrevoutValue,
    b: PrevoutValue,
)
    requires
        cached_after(d0, d1, txid, vout, a),
        cached_after(d1, d2, txid, vout, b),
    ensures
        d1.cached(txid, vout) == Some(a),
        d2.cached(txid, vout) == Some(b),
{
}

/// Writing a lower-confidence tag (with upsert-if-higher) after a
/// higher-confidence one at the same address leaves the stored confidence unchanged.
pub proof fn lemma_lower_after_higher_kept(m: Map<Seq<char>, AddressTag>, high: AddressTag, low: AddressTag)
    requires
        high.address@ == low.address@,
        low.confidence < high.confidence,
        conf_at(m, high.address@) <= high.confidence,
    ensures
        conf_at(upsert_spec(upsert_spec(m, high, true), low, true), low.address@) == high.confidence,
        conf_at(upsert_spec(upsert_spec(m, high, true), low, true), low.address@) == conf_at(
            upsert_spec(m, high, true),
            low.address@,
        ),
{
}

/// No tag write lowers the confidence stored at any address.
pub proof fn lemma_tag_confidence_monotone(m: Map<Seq<char>, AddressTag>, t: AddressTag, strict: bool, a: Seq<char>)
    ensures
        conf_at(upsert_spec(m, t, strict), a) >= conf_at(m, a),
        no_confidence_lost(m, upsert_spec(m, t, strict)),
{
}

} // verus!
