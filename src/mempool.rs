use vstd::prelude::*;

use crate::model::{AnalyzedTx, RemovalReason};
use crate::tags::listed;

verus! {

/// Lifecycle state of a tracked transaction.
#[derive(Clone, Copy, Debug, PartialEq, Eq, Structural)]
pub enum TxState {
    Pending,
    Confirmed,
    Replaced,
    Evicted,
}

/// A tracked transaction with its lifecycle state; `state_changed_at` in unix seconds.
#[derive(Debug)]
pub struct MempoolEntry {
    pub tx: AnalyzedTx,
    pub state: TxState,
    pub state_changed_at: i64,
    /// If this transaction was replaced, the txid of the replacement.
    pub replaced_by: Option<String>,
}

fn copy_opt_string(s: &Option<String>) -> (r: Option<String>)
    ensures
        r == *s,
{
    match s {
        Some(v) => Some(v.clone()),
        None => None,
    }
}

impl MempoolEntry {
    /// A field-by-field copy.
    pub fn duplicate(&self) -> (r: MempoolEntry)
        ensures
            r == *self,
    {
        MempoolEntry {
            tx: self.tx.duplicate(),
            state: self.state,
            state_changed_at: self.state_changed_at,
            replaced_by: copy_opt_string(&self.replaced_by),
        }
    }
}

/// State that a removal reason leads to; anything but Confirmed or Replaced counts as Evicted.
pub open spec fn state_for(reason: RemovalReason) -> TxState {
    match reason {
        RemovalReason::Confirmed => TxState::Confirmed,
        RemovalReason::Replaced => TxState::Replaced,
        _ => TxState::Evicted,
    }
}

pub open spec fn is_pending(e: MempoolEntry) -> bool {
    e.state == TxState::Pending
}

pub open spec fn unique_txids(s: Seq<MempoolEntry>) -> bool {
    forall|i: int, j: int| 0 <= i < j < s.len() ==> s[i].tx.txid@ != s[j].tx.txid@
}

pub open spec fn unique_keys(s: Seq<(String, String)>) -> bool {
    forall|i: int, j: int| 0 <= i < j < s.len() ==> s[i].0@ != s[j].0@
}

pub open spec fn contains_txid(s: Seq<MempoolEntry>, id: Seq<char>) -> bool {
    exists|i: int| 0 <= i < s.len() && s[i].tx.txid@ == id
}

/// The entries after moving every entry with txid `id` to `st`, stamped `now`.
pub open spec fn with_state(s: Seq<MempoolEntry>, id: Seq<char>, st: TxState, now: i64) -> Seq<MempoolEntry> {
    s.map_values(
        |e: MempoolEntry|
            if e.tx.txid@ == id {
                MempoolEntry { state: st, state_changed_at: now, ..e }
            } else {
                e
            },
    )
}

/// Number of Pending entries.
pub open spec fn pending_count_of(s: Seq<MempoolEntry>) -> nat
    decreases s.len(),
{
    if s.len() == 0 {
        0
    } else {
        pending_count_of(s.drop_last()) + if is_pending(s.last()) { 1nat } else { 0nat }
    }
}

/// Number of Pending entries with txid `id`.
pub open spec fn pending_with_txid(s: Seq<MempoolEntry>, id: Seq<char>) -> nat
    decreases s.len(),
{
    if s.len() == 0 {
        0
    } else {
        pending_with_txid(s.drop_last(), id) + if is_pending(s.last()) && s.last().tx.txid@ == id {
            1nat
        } else {
            0nat
        }
    }
}

/// Sum of the fees of Pending entries.
pub open spec fn pending_fees_of(s: Seq<MempoolEntry>) -> nat
    decreases s.len(),
{
    if s.len() == 0 {
        0
    } else {
        pending_fees_of(s.drop_last()) + if is_pending(s.last()) { s.last().tx.fee as nat } else { 0nat }
    }
}

/// Sum of the virtual sizes of Pending entries.
pub open spec fn pending_vsize_of(s: Seq<MempoolEntry>) -> nat
    decreases s.len(),
{
    if s.len() == 0 {
        0
    } else {
        pending_vsize_of(s.drop_last()) + if is_pending(s.last()) { s.last().tx.vsize as nat } else { 0nat }
    }
}

/// Histogram bucket of a fee rate (thousandths of sat/vB): the half-open
/// ranges [0,5), [5,10), [10,20), [20,50), [50,100), [100,∞) sat/vB.
pub open spec fn bucket_of(rate: u64) -> int {
    if rate < 5_000 {
        0
    } else if rate < 10_000 {
        1
    } else if rate < 20_000 {
        2
    } else if rate < 50_000 {
        3
    } else if rate < 100_000 {
        4
    } else {
        5
    }
}

/// Number of Pending entries whose fee rate falls in bucket `b`.
pub open spec fn bucket_count_of(s: Seq<MempoolEntry>, b: int) -> nat
    decreases s.len(),
{
    if s.len() == 0 {
        0
    } else {
        bucket_count_of(s.drop_last(), b) + if is_pending(s.last()) && bucket_of(s.last().tx.fee_rate) == b {
            1nat
        } else {
            0nat
        }
    }
}

pub open spec fn bucket_label(b: int) -> &'static str {
    if b == 0 {
        "1-5"
    } else if b == 1 {
        "5-10"
    } else if b == 2 {
        "10-20"
    } else if b == 3 {
        "20-50"
    } else if b == 4 {
        "50-100"
    } else {
        "100+"
    }
}

/// Whether pruning with cutoff `cutoff` keeps the entry.
pub open spec fn survives(e: MempoolEntry, cutoff: int) -> bool {
    e.state == TxState::Pending || e.state_changed_at >= cutoff
}

/// The entries that pruning with cutoff `cutoff` keeps, in order.
pub open spec fn kept_of(s: Seq<MempoolEntry>, cutoff: int) -> Seq<MempoolEntry>
    decreases s.len(),
{
    if s.len() == 0 {
        s
    } else if survives(s.last(), cutoff) {
        kept_of(s.drop_last(), cutoff).push(s.last())
    } else {
        kept_of(s.drop_last(), cutoff)
    }
}

/// In-memory mempool state tracker.
#[derive(Debug)]
pub struct MempoolState {
    entries: Vec<MempoolEntry>,
    /// Replacement chains: replaced txid, replacing txid.
    replacement_chain: Vec<(String, String)>,
}

impl MempoolState {
    pub closed spec fn entries(&self) -> Seq<MempoolEntry> {
        self.entries@
    }

    pub closed spec fn chain(&self) -> Seq<(String, String)> {
        self.replacement_chain@
    }

    pub open spec fn wf(&self) -> bool {
        unique_txids(self.entries()) && unique_keys(self.chain())
    }

    pub fn new() -> (r: MempoolState)
        ensures
            r.wf(),
            r.entries().len() == 0,
            r.chain().len() == 0,
    {
        MempoolState { entries: Vec::new(), replacement_chain: Vec::new() }
    }

    fn index_of(&self, txid: &str) -> (r: Option<usize>)
        ensures
            match r {
                Some(i) => i < self.entries().len() && self.entries()[i as int].tx.txid@ == txid@,
                None => !contains_txid(self.entries(), txid@),
            },
    {
        let mut i: usize = 0;
        while i < self.entries.len()
            invariant
                i <= self.entries.len(),
                forall|j: int| 0 <= j < i ==> self.entries@[j].tx.txid@ != txid@,
            decreases self.entries.len() - i,
        {
            if same_text(self.entries[i].tx.txid.as_str(), txid) {
                return Some(i);
            }
            i = i + 1;
        }
        None
    }

    /// Track `tx` as Pending, replacing any entry with the same txid.
    pub fn add_tx(&mut self, tx: AnalyzedTx)
        requires
            old(self).wf(),
        ensures
            final(self).wf(),
            exists|now: i64| added(old(self).entries(), final(self).entries(), tx, now),
            final(self).chain() == old(self).chain(),
    {
        let now = crate::clock::now_unix();
        self.add_tx_at(tx, now)
    }

    /// Track `tx` as Pending since `now`, replacing any entry with the same txid.
    pub fn add_tx_at(&mut self, tx: AnalyzedTx, now: i64)
        requires
            old(self).wf(),
        ensures
            final(self).wf(),
            added(old(self).entries(), final(self).entries(), tx, now),
            final(self).chain() == old(self).chain(),
    {
        let idx = self.index_of(tx.txid.as_str());
        let ghost id = tx.txid@;
        let entry = MempoolEntry { tx, state: TxState::Pending, state_changed_at: now, replaced_by: None };
        match idx {
            Some(i) => {
                self.entries.set(i, entry);
                proof {
                    assert forall|j: int| 0 <= j < old(self).entries().len() && old(self).entries()[j].tx.txid@ == id implies j == i by {
                        if j != i {
                            assert(old(self).entries()[j].tx.txid@ != old(self).entries()[i as int].tx.txid@);
                        }
                    }
                }
            },
            None => {
                self.entries.push(entry);
            },
        }
    }

    /// Move the entry of `txid` out of Pending for `reason`, stamped with the current time.
    pub fn remove_tx(&mut self, txid: &str, reason: RemovalReason)
        requires
            old(self).wf(),
        ensures
            final(self).wf(),
            exists|now: i64| final(self).entries() == with_state(old(self).entries(), txid@, state_for(reason), now),
            final(self).chain() == old(self).chain(),
    {
        let now = crate::clock::now_unix();
        self.remove_tx_at(txid, reason, now)
    }

    /// Move the entry of `txid` (if tracked) to the state for `reason`, stamped `now`.
    /// The entry stays tracked.
    pub fn remove_tx_at(&mut self, txid: &str, reason: RemovalReason, now: i64)
        requires
            old(self).wf(),
        ensures
            final(self).wf(),
            final(self).entries() == with_state(old(self).entries(), txid@, state_for(reason), now),
            final(self).chain() == old(self).chain(),
    {
        let new_state = match reason {
            RemovalReason::Confirmed => TxState::Confirmed,
            RemovalReason::Replaced => TxState::Replaced,
            _ => TxState::Evicted,
        };
        self.set_state(txid, new_state, now, None);
    }

    /// Set the state (and, when given, the replacement) of the entry of `txid`.
    fn set_state(&mut self, txid: &str, st: TxState, now: i64, by: Option<String>)
        requires
            old(self).wf(),
        ensures
            final(self).wf(),
            final(self).chain() == old(self).chain(),
            final(self).entries().len() == old(self).entries().len(),
            forall|j: int|
                0 <= j < old(self).entries().len() ==> (#[trigger] final(self).entries()[j]) == if old(
                    self,
                ).entries()[j].tx.txid@ == txid@ {
                    MempoolEntry {
                        state: st,
                        state_changed_at: now,
                        replaced_by: if by.is_some() { by } else { old(self).entries()[j].replaced_by },
                        ..old(self).entries()[j]
                    }
                } else {
                    old(self).entries()[j]
                },
            by.is_none() ==> final(self).entries() == with_state(old(self).entries(), txid@, st, now),
    {
        let idx = self.index_of(txid);
        if let Some(i) = idx {
            let old_entry = &self.entries[i];
            let replaced_by = match by {
                Some(b) => Some(b),
                None => copy_opt_string(&old_entry.replaced_by),
            };
            let e = MempoolEntry { tx: old_entry.tx.duplicate(), state: st, state_changed_at: now, replaced_by };
            self.entries.set(i, e);
            proof {
                assert forall|j: int| 0 <= j < old(self).entries().len() && j != i implies old(self).entries()[j].tx.txid@ != txid@ by {
                    if j < i {
                        assert(old(self).entries()[j].tx.txid@ != old(self).entries()[i as int].tx.txid@);
                    } else {
                        assert(old(self).entries()[i as int].tx.txid@ != old(self).entries()[j].tx.txid@);
                    }
                }
            }
        }
        proof {
            if by.is_none() {
                assert(final(self).entries() =~= with_state(old(self).entries(), txid@, st, now));
            }
        }
    }

    /// Record that `old_txid` was replaced by `new_txid`, stamped with the current time.
    pub fn record_replacement(&mut self, old_txid: &str, new_txid: &str)
        requires
            old(self).wf(),
        ensures
            final(self).wf(),
            exists|now: i64| replacement_recorded(*old(self), *final(self), old_txid@, new_txid@, now),
    {
        let now = crate::clock::now_unix();
        self.record_replacement_at(old_txid, new_txid, now)
    }

    /// Record that `old_txid` was replaced by `new_txid` at `now`: the chain
    /// maps `old_txid` to `new_txid`, and the entry of `old_txid`, if tracked,
    /// becomes Replaced with `replaced_by = new_txid`.
    pub fn record_replacement_at(&mut self, old_txid: &str, new_txid: &str, now: i64)
        requires
            old(self).wf(),
        ensures
            final(self).wf(),
            replacement_recorded(*old(self), *final(self), old_txid@, new_txid@, now),
    {
        let mut i: usize = 0;
        let mut found = false;
        while i < self.replacement_chain.len()
            invariant
                i <= self.replacement_chain.len(),
                self.entries@ == old(self).entries@,
                self.replacement_chain@.len() == old(self).replacement_chain@.len(),
                unique_keys(self.replacement_chain@),
                unique_txids(self.entries@),
                forall|j: int|
                    0 <= j < self.replacement_chain@.len() ==> #[trigger] self.replacement_chain@[j].0@
                        == old(self).replacement_chain@[j].0@,
                forall|j: int|
                    0 <= j < self.replacement_chain@.len() ==> (#[trigger] self.replacement_chain@[j]).1@
                        == if j < i && old(self).replacement_chain@[j].0@ == old_txid@ {
                        new_txid@
                    } else {
                        old(self).replacement_chain@[j].1@
                    },
                found == exists|j: int| 0 <= j < i && old(self).replacement_chain@[j].0@ == old_txid@,
            decreases self.replacement_chain.len() - i,
        {
            if same_text(self.replacement_chain[i].0.as_str(), old_txid) {
                let k = self.replacement_chain[i].0.clone();
                self.replacement_chain.set(i, (k, new_txid.to_string()));
                found = true;
            }
            i = i + 1;
        }
        let ghost before_push = self.replacement_chain@;
        if !found {
            self.replacement_chain.push((old_txid.to_string(), new_txid.to_string()));
        }
        proof {
            let oc = old(self).replacement_chain@;
            let c = self.replacement_chain@;
            assert forall|j: int| 0 <= j < oc.len() && oc[j].0@ != old_txid@ implies exists|k: int|
                0 <= k < c.len() && c[k].0@ == (#[trigger] oc[j]).0@ && c[k].1@ == oc[j].1@ by {
                assert(c[j] == before_push[j]);
            }
            if found {
                let j = choose|j: int| 0 <= j < oc.len() && oc[j].0@ == old_txid@;
                assert(c[j].0@ == old_txid@ && c[j].1@ == new_txid@);
            } else {
                assert(c[c.len() - 1].0@ == old_txid@ && c[c.len() - 1].1@ == new_txid@);
            }
        }
        self.set_state(old_txid, TxState::Replaced, now, Some(new_txid.to_string()));
    }

    /// Kept for callers that confirm after a block: the pending transactions of
    /// a block are not known here, so nothing is confirmed and 0 is returned.
    pub fn confirm_all_pending(&mut self) -> (r: usize)
        ensures
            r == 0,
            *final(self) == *old(self),
    {
        0
    }

    /// Mark the listed txids that are Pending as Confirmed, stamped with the current time.
    pub fn confirm_txids(&mut self, txids: &[String])
        requires
            old(self).wf(),
        ensures
            final(self).wf(),
            exists|now: i64| confirmed(old(self).entries(), final(self).entries(), txids@, now),
            final(self).chain() == old(self).chain(),
    {
        let now = crate::clock::now_unix();
        self.confirm_txids_at(txids, now)
    }

    /// Mark the listed txids that are Pending as Confirmed at `now`.
    pub fn confirm_txids_at(&mut self, txids: &[String], now: i64)
        requires
            old(self).wf(),
        ensures
            final(self).wf(),
            confirmed(old(self).entries(), final(self).entries(), txids@, now),
            final(self).chain() == old(self).chain(),
    {
        let mut i: usize = 0;
        while i < self.entries.len()
            invariant
                i <= self.entries.len(),
                self.entries@.len() == old(self).entries@.len(),
                self.replacement_chain@ == old(self).replacement_chain@,
                forall|j: int|
                    0 <= j < self.entries@.len() ==> (#[trigger] self.entries@[j]) == if j < i {
                        confirm_one(old(self).entries@[j], txids@, now)
                    } else {
                        old(self).entries@[j]
                    },
            decreases self.entries.len() - i,
        {
            let listed = self.entries[i].state == TxState::Pending && contains_str(txids, self.entries[i].tx.txid.as_str());
            if listed {
                let e = MempoolEntry {
                    tx: self.entries[i].tx.duplicate(),
                    state: TxState::Confirmed,
                    state_changed_at: now,
                    replaced_by: copy_opt_string(&self.entries[i].replaced_by),
                };
                self.entries.set(i, e);
            }
            i = i + 1;
        }
        proof {
            assert forall|a: int, b: int| 0 <= a < b < self.entries@.len() implies self.entries@[a].tx.txid@ != self.entries@[b].tx.txid@ by {
                assert(old(self).entries@[a].tx.txid@ != old(self).entries@[b].tx.txid@);
            }
        }
    }

    // Statistics

    pub fn pending_count(&self) -> (r: usize)
        ensures
            r == pending_count_of(self.entries()),
    {
        let mut c: usize = 0;
        let mut i: usize = 0;
        while i < self.entries.len()
            invariant
                i <= self.entries.len(),
                c == pending_count_of(self.entries@.subrange(0, i as int)),
                c <= i,
            decreases self.entries.len() - i,
        {
            proof {
                assert(self.entries@.subrange(0, i as int + 1).drop_last() =~= self.entries@.subrange(0, i as int));
            }
            if self.entries[i].state == TxState::Pending {
                c = c + 1;
            }
            i = i + 1;
        }
        assert(self.entries@.subrange(0, i as int) =~= self.entries@);
        c
    }

    /// Sum of the fees of Pending entries, saturating at `u64::MAX`.
    pub fn total_fees(&self) -> (r: u64)
        ensures
            r == min_nat(pending_fees_of(self.entries()), u64::MAX as nat),
    {
        let mut c: u64 = 0;
        let mut i: usize = 0;
        while i < self.entries.len()
            invariant
                i <= self.entries.len(),
                c == min_nat(pending_fees_of(self.entries@.subrange(0, i as int)), u64::MAX as nat),
            decreases self.entries.len() - i,
        {
            proof {
                assert(self.entries@.subrange(0, i as int + 1).drop_last() =~= self.entries@.subrange(0, i as int));
            }
            if self.entries[i].state == TxState::Pending {
                c = c.saturating_add(self.entries[i].tx.fee);
            }
            i = i + 1;
        }
        assert(self.entries@.subrange(0, i as int) =~= self.entries@);
        c
    }

    /// Sum of the virtual sizes of Pending entries, saturating at `usize::MAX`.
    pub fn total_vsize(&self) -> (r: usize)
        ensures
            r == min_nat(pending_vsize_of(self.entries()), usize::MAX as nat),
    {
        let mut c: usize = 0;
        let mut i: usize = 0;
        while i < self.entries.len()
            invariant
                i <= self.entries.len(),
                c == min_nat(pending_vsize_of(self.entries@.subrange(0, i as int)), usize::MAX as nat),
            decreases self.entries.len() - i,
        {
            proof {
                assert(self.entries@.subrange(0, i as int + 1).drop_last() =~= self.entries@.subrange(0, i as int));
            }
            if self.entries[i].state == TxState::Pending {
                c = c.saturating_add(self.entries[i].tx.vsize);
            }
            i = i + 1;
        }
        assert(self.entries@.subrange(0, i as int) =~= self.entries@);
        c
    }

    /// Fee histogram: for each bucket in order, its label and the number of
    /// Pending entries whose fee rate falls in it.
    pub fn fee_histogram(&self) -> (r: Vec<(String, usize)>)
        ensures
            r@.len() == 6,
            forall|b: int|
                0 <= b < 6 ==> (#[trigger] r@[b]).0@ == bucket_label(b)@ && r@[b].1 == bucket_count_of(
                    self.entries(),
                    b,
                ),
    {
        let mut counts: Vec<usize> = vec![0, 0, 0, 0, 0, 0];
        let mut i: usize = 0;
        while i < self.entries.len()
            invariant
                i <= self.entries.len(),
                counts@.len() == 6,
                forall|b: int|
                    0 <= b < 6 ==> #[trigger] counts@[b] == bucket_count_of(self.entries@.subrange(0, i as int), b),
                forall|b: int| 0 <= b < 6 ==> #[trigger] counts@[b] <= i,
            decreases self.entries.len() - i,
        {
            proof {
                assert(self.entries@.subrange(0, i as int + 1).drop_last() =~= self.entries@.subrange(0, i as int));
            }
            if self.entries[i].state == TxState::Pending {
                let b = bucket_index(self.entries[i].tx.fee_rate);
                counts.set(b, counts[b] + 1);
            }
            i = i + 1;
        }
        assert(self.entries@.subrange(0, i as int) =~= self.entries@);
        let mut r: Vec<(String, usize)> = Vec::new();
        let mut b: usize = 0;
        while b < 6
            invariant
                b <= 6,
                counts@.len() == 6,
                r@.len() == b,
                forall|k: int| 0 <= k < 6 ==> #[trigger] counts@[k] == bucket_count_of(self.entries@, k),
                forall|k: int|
                    0 <= k < b ==> (#[trigger] r@[k]).0@ == bucket_label(k)@ && r@[k].1 == bucket_count_of(
                        self.entries@,
                        k,
                    ),
            decreases 6 - b,
        {
            r.push((label_of(b).to_string(), counts[b]));
            b = b + 1;
        }
        r
    }

    /// Drop non-Pending entries whose state changed more than `max_age_secs`
    /// before the current time.
    pub fn prune_old(&mut self, max_age_secs: i64)
        requires
            old(self).wf(),
        ensures
            final(self).wf(),
            exists|now: i64|
                final(self).entries() == #[trigger] kept_of(old(self).entries(), now - max_age_secs)
                    && final(self).chain() == links_kept(old(self).chain(), old(self).entries(), now - max_age_secs),
    {
        let now = crate::clock::now_unix();
        self.prune_old_at(max_age_secs, now)
    }

    /// Drop the entries that are not Pending and whose state changed before
    /// `now - max_age_secs`, with their replacement-chain links.
    pub fn prune_old_at(&mut self, max_age_secs: i64, now: i64)
        requires
            old(self).wf(),
        ensures
            final(self).wf(),
            final(self).entries() == kept_of(old(self).entries(), now - max_age_secs),
            final(self).chain() == links_kept(old(self).chain(), old(self).entries(), now - max_age_secs),
    {
        let cutoff: i128 = (now as i128) - (max_age_secs as i128);
        let mut kept: Vec<MempoolEntry> = Vec::new();
        let mut dropped: Vec<String> = Vec::new();
        let mut i: usize = 0;
        while i < self.entries.len()
            invariant
                i <= self.entries.len(),
                self.entries@ == old(self).entries@,
                cutoff == now - max_age_secs,
                kept@ == kept_of(self.entries@.subrange(0, i as int), cutoff as int),
                forall|j: int| 0 <= j < kept@.len() ==> self.entries@.subrange(0, i as int).contains(#[trigger] kept@[j]),
                forall|k: Seq<char>|
                    #![trigger listed(dropped@, k)]
                    #![trigger pruned_txid(self.entries@.subrange(0, i as int), k, cutoff as int)]
                    listed(dropped@, k) <==> pruned_txid(self.entries@.subrange(0, i as int), k, cutoff as int),
            decreases self.entries.len() - i,
        {
            proof {
                assert(self.entries@.subrange(0, i as int + 1).drop_last() =~= self.entries@.subrange(0, i as int));
                lemma_kept_subset(self.entries@.subrange(0, i as int), cutoff as int);
            }
            let e = &self.entries[i];
            let ghost d0 = dropped@;
            if e.state == TxState::Pending || (e.state_changed_at as i128) >= cutoff {
                kept.push(e.duplicate());
            } else {
                dropped.push(e.tx.txid.clone());
            }
            proof {
                lemma_kept_subset(self.entries@.subrange(0, i as int + 1), cutoff as int);
                let p0 = self.entries@.subrange(0, i as int);
                let p1 = self.entries@.subrange(0, i as int + 1);
                let c = cutoff as int;
                assert forall|k: Seq<char>|
                    #![trigger listed(dropped@, k)]
                    #![trigger pruned_txid(p1, k, c)]
                    listed(dropped@, k) <==> pruned_txid(p1, k, c) by {
                    if pruned_txid(p1, k, c) {
                        let j = choose|j: int| 0 <= j < p1.len() && p1[j].tx.txid@ == k && !survives(p1[j], c);
                        if j < i {
                            assert(p0[j] == p1[j]);
                            assert(pruned_txid(p0, k, c));
                            assert(listed(d0, k));
                            let m = choose|m: int| 0 <= m < d0.len() && (#[trigger] d0[m])@ == k;
                            assert(dropped@[m] == d0[m]);
                        } else {
                            assert(p1[j] == *e);
                            assert(dropped@[dropped@.len() - 1]@ == k);
                        }
                    }
                    if listed(dropped@, k) {
                        let m = choose|m: int| 0 <= m < dropped@.len() && (#[trigger] dropped@[m])@ == k;
                        if m < d0.len() {
                            assert(d0[m] == dropped@[m]);
                            assert(listed(d0, k));
                            assert(pruned_txid(p0, k, c));
                            let j = choose|j: int| 0 <= j < p0.len() && p0[j].tx.txid@ == k && !survives(p0[j], c);
                            assert(p1[j] == p0[j]);
                        } else {
                            assert(p1[i as int] == *e);
                        }
                    }
                }
            }
            i = i + 1;
        }
        assert(self.entries@.subrange(0, i as int) =~= self.entries@);
        proof {
            lemma_kept_unique(self.entries@, cutoff as int);
            assert(old(self).replacement_chain@.subrange(0, 0) =~= Seq::<(String, String)>::empty());
        }
        self.entries = kept;
        let mut chain: Vec<(String, String)> = Vec::new();
        let mut k: usize = 0;
        while k < self.replacement_chain.len()
            invariant
                k <= self.replacement_chain.len(),
                self.replacement_chain@ == old(self).replacement_chain@,
                unique_keys(old(self).replacement_chain@),
                forall|j: int| 0 <= j < chain@.len() ==> exists|m: int| 0 <= m < k && #[trigger] chain@[j] == old(self).replacement_chain@[m],
                unique_keys(chain@),
                chain@ == links_kept(old(self).replacement_chain@.subrange(0, k as int), old(self).entries@, cutoff as int),
                forall|x: Seq<char>|
                    #![trigger listed(dropped@, x)]
                    #![trigger pruned_txid(old(self).entries@, x, cutoff as int)]
                    listed(dropped@, x) <==> pruned_txid(old(self).entries@, x, cutoff as int),
                cutoff == now - max_age_secs,
            decreases self.replacement_chain.len() - k,
        {
            proof {
                let c0 = old(self).replacement_chain@;
                assert(c0.subrange(0, k as int + 1).drop_last() =~= c0.subrange(0, k as int));
                assert(c0.subrange(0, k as int + 1).last() == c0[k as int]);
            }
            let key = self.replacement_chain[k].0.as_str();
            proof {
                assert(listed(dropped@, key@) == pruned_txid(old(self).entries@, key@, cutoff as int));
            }
            if !contains_str(dropped.as_slice(), key) {
                let link = (self.replacement_chain[k].0.clone(), self.replacement_chain[k].1.clone());
                proof {
                    assert forall|j: int| 0 <= j < chain@.len() implies chain@[j].0@ != link.0@ by {
                        let m = choose|m: int| 0 <= m < k && chain@[j] == old(self).replacement_chain@[m];
                        assert(old(self).replacement_chain@[m].0@ != old(self).replacement_chain@[k as int].0@);
                    }
                }
                chain.push(link);
                proof {
                    assert forall|j: int| 0 <= j < chain@.len() implies exists|m: int| 0 <= m < k + 1 && #[trigger] chain@[j] == old(self).replacement_chain@[m] by {
                        if j == chain@.len() - 1 {
                            assert(chain@[j] == old(self).replacement_chain@[k as int]);
                        } else {
                            let m = choose|m: int| 0 <= m < k && chain@[j] == old(self).replacement_chain@[m];
                            assert(chain@[j] == old(self).replacement_chain@[m]);
                        }
                    }
                }
            }
            k = k + 1;
        }
        assert(old(self).replacement_chain@.subrange(0, k as int) =~= old(self).replacement_chain@);
        self.replacement_chain = chain;
    }
}

/// Whether pruning with cutoff `cutoff` removes an entry with txid `k`.
pub open spec fn pruned_txid(s: Seq<MempoolEntry>, k: Seq<char>, cutoff: int) -> bool {
    exists|j: int| 0 <= j < s.len() && s[j].tx.txid@ == k && !survives(s[j], cutoff)
}

/// The replacement links that pruning keeps: those whose replaced txid is not removed.
pub open spec fn links_kept(c: Seq<(String, String)>, s: Seq<MempoolEntry>, cutoff: int) -> Seq<(String, String)>
    decreases c.len(),
{
    if c.len() == 0 {
        c
    } else if pruned_txid(s, c.last().0@, cutoff) {
        links_kept(c.drop_last(), s, cutoff)
    } else {
        links_kept(c.drop_last(), s, cutoff).push(c.last())
    }
}

pub open spec fn min_nat(a: nat, b: nat) -> nat {
    if a <= b {
        a
    } else {
        b
    }
}

pub open spec fn confirm_one(e: MempoolEntry, txids: Seq<String>, now: i64) -> MempoolEntry {
    if e.state == TxState::Pending && exists|k: int| 0 <= k < txids.len() && txids[k]@ == e.tx.txid@ {
        MempoolEntry { state: TxState::Confirmed, state_changed_at: now, ..e }
    } else {
        e
    }
}

/// `after` is `before` with each Pending entry whose txid is listed moved to Confirmed at `now`.
pub open spec fn confirmed(before: Seq<MempoolEntry>, after: Seq<MempoolEntry>, txids: Seq<String>, now: i64) -> bool {
    &&& after.len() == before.len()
    &&& forall|j: int| 0 <= j < before.len() ==> (#[trigger] after[j]) == confirm_one(before[j], txids, now)
}

/// `after` is `before` with `tx` tracked as Pending since `now`: an entry
/// with the same txid is replaced in place, else the new entry is appended.
pub open spec fn added(before: Seq<MempoolEntry>, after: Seq<MempoolEntry>, tx: AnalyzedTx, now: i64) -> bool {
    let e = MempoolEntry { tx: tx, state: TxState::Pending, state_changed_at: now, replaced_by: None };
    if contains_txid(before, tx.txid@) {
        &&& after.len() == before.len()
        &&& forall|j: int|
            0 <= j < before.len() ==> (#[trigger] after[j]) == if before[j].tx.txid@ == tx.txid@ {
                e
            } else {
                before[j]
            }
    } else {
        after == before.push(e)
    }
}

/// The chain maps `old_id` to `new_id` (other links kept), and every entry
/// of `old_id` is Replaced at `now` with `replaced_by = new_id`.
pub open spec fn replacement_recorded(
    before: MempoolState,
    after: MempoolState,
    old_id: Seq<char>,
    new_id: Seq<char>,
    now: i64,
) -> bool {
    &&& exists|j: int| 0 <= j < after.chain().len() && after.chain()[j].0@ == old_id && after.chain()[j].1@ == new_id
    &&& forall|j: int|
        0 <= j < before.chain().len() && before.chain()[j].0@ != old_id ==> exists|k: int|
            0 <= k < after.chain().len() && after.chain()[k].0@ == (#[trigger] before.chain()[j]).0@
                && after.chain()[k].1@ == before.chain()[j].1@
    &&& after.entries().len() == before.entries().len()
    &&& forall|j: int|
        0 <= j < before.entries().len() ==> (#[trigger] after.entries()[j]).tx == before.entries()[j].tx && if before.entries()[j].tx.txid@ == old_id {
            &&& after.entries()[j].state == TxState::Replaced
            &&& after.entries()[j].state_changed_at == now
            &&& after.entries()[j].replaced_by.is_some()
            &&& after.entries()[j].replaced_by.unwrap()@ == new_id
        } else {
            after.entries()[j] == before.entries()[j]
        }
}

fn contains_str(list: &[String], s: &str) -> (r: bool)
    ensures
        r == exists|k: int| 0 <= k < list@.len() && list@[k]@ == s@,
{
    let mut i: usize = 0;
    while i < list.len()
        invariant
            i <= list.len(),
            forall|k: int| 0 <= k < i ==> list@[k]@ != s@,
        decreases list.len() - i,
    {
        if same_text(list[i].as_str(), s) {
            return true;
        }
        i = i + 1;
    }
    false
}

/// Whether two strings hold the same text.
pub fn same_text(a: &str, b: &str) -> (r: bool)
    ensures
        r == (a@ == b@),
{
    a.to_string() == b.to_string()
}

fn bucket_index(rate: u64) -> (r: usize)
    ensures
        r == bucket_of(rate),
        r < 6,
{
    if rate < 5_000 {
        0
    } else if rate < 10_000 {
        1
    } else if rate < 20_000 {
        2
    } else if rate < 50_000 {
        3
    } else if rate < 100_000 {
        4
    } else {
        5
    }
}

fn label_of(b: usize) -> (r: &'static str)
    ensures
        r@ == bucket_label(b as int)@,
{
    if b == 0 {
        "1-5"
    } else if b == 1 {
        "5-10"
    } else if b == 2 {
        "10-20"
    } else if b == 3 {
        "20-50"
    } else if b == 4 {
        "50-100"
    } else {
        "100+"
    }
}

proof fn lemma_kept_subset(s: Seq<MempoolEntry>, cutoff: int)
    ensures
        forall|j: int| 0 <= j < kept_of(s, cutoff).len() ==> s.contains(#[trigger] kept_of(s, cutoff)[j]),
        kept_of(s, cutoff).len() <= s.len(),
    decreases s.len(),
{
    if s.len() > 0 {
        lemma_kept_subset(s.drop_last(), cutoff);
        let k = kept_of(s.drop_last(), cutoff);
        assert forall|j: int| 0 <= j < kept_of(s, cutoff).len() implies s.contains(#[trigger] kept_of(s, cutoff)[j]) by {
            if j < k.len() {
                let x = k[j];
                assert(s.drop_last().contains(x));
                let m = choose|m: int| 0 <= m < s.drop_last().len() && s.drop_last()[m] == x;
                assert(s[m] == x);
            } else {
                assert(s[s.len() - 1] == s.last());
            }
        }
    }
}

proof fn lemma_kept_unique(s: Seq<MempoolEntry>, cutoff: int)
    requires
        unique_txids(s),
    ensures
        unique_txids(kept_of(s, cutoff)),
    decreases s.len(),
{
    if s.len() > 0 {
        let p = s.drop_last();
        assert(unique_txids(p));
        lemma_kept_unique(p, cutoff);
        lemma_kept_subset(p, cutoff);
        let k = kept_of(p, cutoff);
        if survives(s.last(), cutoff) {
            assert forall|a: int, b: int| 0 <= a < b < k.push(s.last()).len() implies k.push(s.last())[a].tx.txid@ != k.push(s.last())[b].tx.txid@ by {
                if b == k.len() {
                    let x = k[a];
                    assert(p.contains(x));
                    let m = choose|m: int| 0 <= m < p.len() && p[m] == x;
                    assert(s[m] == x);
                    assert(s[s.len() - 1] == s.last());
                }
            }
        }
    }
}

/// The fee histogram's bucket counts add up to the number of Pending entries.
pub proof fn lemma_histogram_sums_to_pending(s: Seq<MempoolEntry>)
    ensures
        bucket_count_of(s, 0) + bucket_count_of(s, 1) + bucket_count_of(s, 2) + bucket_count_of(s, 3)
            + bucket_count_of(s, 4) + bucket_count_of(s, 5) == pending_count_of(s),
    decreases s.len(),
{
    if s.len() > 0 {
        lemma_histogram_sums_to_pending(s.drop_last());
    }
}

/// Removing a txid for reason Replaced leaves every entry of that txid
/// Replaced, and lowers the pending count by the number of Pending entries of
/// that txid: exactly 1 when the txid was tracked as Pending, else 0.
pub proof fn lemma_remove_replaced(s: Seq<MempoolEntry>, id: Seq<char>, now: i64)
    requires
        unique_txids(s),
    ensures
        forall|j: int|
            0 <= j < s.len() && s[j].tx.txid@ == id ==> (#[trigger] with_state(s, id, state_for(RemovalReason::Replaced), now)[j]).state
                == TxState::Replaced,
        pending_count_of(with_state(s, id, state_for(RemovalReason::Replaced), now)) + pending_with_txid(s, id)
            == pending_count_of(s),
        pending_with_txid(s, id) == if exists|j: int| 0 <= j < s.len() && s[j].tx.txid@ == id && is_pending(#[trigger] s[j]) {
            1nat
        } else {
            0nat
        },
{
    lemma_with_state_count(s, id, TxState::Replaced, now);
    lemma_pending_with_txid_unique(s, id);
}

proof fn lemma_with_state_count(s: Seq<MempoolEntry>, id: Seq<char>, st: TxState, now: i64)
    requires
        st != TxState::Pending,
    ensures
        pending_count_of(with_state(s, id, st, now)) + pending_with_txid(s, id) == pending_count_of(s),
    decreases s.len(),
{
    if s.len() > 0 {
        lemma_with_state_count(s.drop_last(), id, st, now);
        assert(with_state(s, id, st, now).drop_last() =~= with_state(s.drop_last(), id, st, now));
    }
}

proof fn lemma_no_match_zero(s: Seq<MempoolEntry>, id: Seq<char>)
    requires
        forall|j: int| 0 <= j < s.len() ==> (#[trigger] s[j]).tx.txid@ != id,
    ensures
        pending_with_txid(s, id) == 0,
    decreases s.len(),
{
    if s.len() > 0 {
        lemma_no_match_zero(s.drop_last(), id);
    }
}

proof fn lemma_pending_with_txid_unique(s: Seq<MempoolEntry>, id: Seq<char>)
    requires
        unique_txids(s),
    ensures
        pending_with_txid(s, id) == if exists|j: int| 0 <= j < s.len() && s[j].tx.txid@ == id && is_pending(#[trigger] s[j]) {
            1nat
        } else {
            0nat
        },
    decreases s.len(),
{
    if s.len() > 0 {
        let p = s.drop_last();
        assert(unique_txids(p));
        lemma_pending_with_txid_unique(p, id);
        if s.last().tx.txid@ == id {
            assert forall|j: int| 0 <= j < p.len() implies (#[trigger] p[j]).tx.txid@ != id by {
                assert(s[j].tx.txid@ != s[s.len() - 1].tx.txid@);
            }
            lemma_no_match_zero(p, id);
            if is_pending(s.last()) {
                assert(s[s.len() - 1] == s.last());
            }
        } else {
            if exists|j: int| 0 <= j < s.len() && s[j].tx.txid@ == id && is_pending(#[trigger] s[j]) {
                let j = choose|j: int| 0 <= j < s.len() && s[j].tx.txid@ == id && is_pending(#[trigger] s[j]);
                assert(p[j] == s[j]);
            }
        }
    }
}

/// Pruning with cutoff `now` (a maximum age of 0) when every entry was stamped
/// before `now` keeps exactly the Pending entries.
pub proof fn lemma_prune_zero_keeps_pending(s: Seq<MempoolEntry>, now: i64)
    requires
        forall|j: int| 0 <= j < s.len() ==> (#[trigger] s[j]).state_changed_at < now,
    ensures
        forall|j: int| 0 <= j < kept_of(s, now - 0).len() ==> is_pending(#[trigger] kept_of(s, now - 0)[j]),
        kept_of(s, now - 0).len() == pending_count_of(s),
    decreases s.len(),
{
    if s.len() > 0 {
        let p = s.drop_last();
        assert forall|j: int| 0 <= j < p.len() implies (#[trigger] p[j]).state_changed_at < now by {
            assert(s[j] == p[j]);
        }
        lemma_prune_zero_keeps_pending(p, now);
        assert(s[s.len() - 1] == s.last());
    }
}

/// Pruning with an unbounded maximum age (`i64::MAX` seconds) removes nothing,
/// for entries stamped at or after the epoch.
pub proof fn lemma_prune_unbounded_keeps_all(s: Seq<MempoolEntry>, now: i64)
    requires
        forall|j: int| 0 <= j < s.len() ==> (#[trigger] s[j]).state_changed_at >= 0,
    ensures
        kept_of(s, now - i64::MAX) == s,
    decreases s.len(),
{
    if s.len() > 0 {
        let p = s.drop_last();
        assert forall|j: int| 0 <= j < p.len() implies (#[trigger] p[j]).state_changed_at >= 0 by {
            assert(s[j] == p[j]);
        }
        lemma_prune_unbounded_keeps_all(p, now);
        assert(s[s.len() - 1] == s.last());
        assert(p.push(s.last()) =~= s);
    }
}

} // verus!
