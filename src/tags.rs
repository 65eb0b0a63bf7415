use vstd::prelude::*;

use crate::mempool::same_text;
use crate::store::Database;
use crate::tx::{mainnet_address, script_address, ParsedTx, TxOutput};

verus! {

/// A tag naming the entity behind an address; `confidence` in basis points.
#[derive(Debug)]
pub struct AddressTag {
    pub address: String,
    pub entity: String,
    pub entity_type: String,
    pub confidence: u32,
    pub source: Option<String>,
}

fn copy_opt(s: &Option<String>) -> (r: Option<String>)
    ensures
        r == *s,
{
    match s {
        Some(v) => Some(v.clone()),
        None => None,
    }
}

impl AddressTag {
    /// A field-by-field copy.
    pub fn duplicate(&self) -> (r: AddressTag)
        ensures
            r == *self,
    {
        AddressTag {
            address: self.address.clone(),
            entity: self.entity.clone(),
            entity_type: self.entity_type.clone(),
            confidence: self.confidence,
            source: copy_opt(&self.source),
        }
    }
}

/// Direction of exchange flow.
#[derive(Clone, Copy, Debug, PartialEq, Eq, Structural)]
pub enum FlowDirection {
    ToExchange,
    FromExchange,
}

/// A match between a transaction output or input and a known address.
#[derive(Debug)]
pub struct TagMatch {
    pub address: String,
    pub tag: AddressTag,
    pub direction: FlowDirection,
}

/// The map from address to tag that a sequence of rows with distinct addresses describes.
pub open spec fn map_of(s: Seq<AddressTag>) -> Map<Seq<char>, AddressTag>
    decreases s.len(),
{
    if s.len() == 0 {
        Map::empty()
    } else {
        map_of(s.drop_last()).insert(s.last().address@, s.last())
    }
}

pub open spec fn distinct_addresses(s: Seq<AddressTag>) -> bool {
    forall|i: int, j: int| 0 <= i < j < s.len() ==> s[i].address@ != s[j].address@
}

proof fn lemma_map_of_absent(s: Seq<AddressTag>, a: Seq<char>)
    requires
        forall|i: int| 0 <= i < s.len() ==> (#[trigger] s[i]).address@ != a,
    ensures
        !map_of(s).contains_key(a),
    decreases s.len(),
{
    if s.len() > 0 {
        lemma_map_of_absent(s.drop_last(), a);
    }
}

proof fn lemma_map_of_at(s: Seq<AddressTag>, i: int)
    requires
        distinct_addresses(s),
        0 <= i < s.len(),
    ensures
        map_of(s).contains_key(s[i].address@),
        map_of(s)[s[i].address@] == s[i],
    decreases s.len(),
{
    if i < s.len() - 1 {
        lemma_map_of_at(s.drop_last(), i);
        assert(s[s.len() - 1].address@ != s[i].address@);
    }
}

proof fn lemma_map_of_update(s: Seq<AddressTag>, i: int, t: AddressTag)
    requires
        distinct_addresses(s),
        0 <= i < s.len(),
        s[i].address@ == t.address@,
    ensures
        map_of(s.update(i, t)) == map_of(s).insert(t.address@, t),
        distinct_addresses(s.update(i, t)),
    decreases s.len(),
{
    let u = s.update(i, t);
    if i == s.len() - 1 {
        assert(u.drop_last() =~= s.drop_last());
        assert forall|k: int| 0 <= k < s.drop_last().len() implies (#[trigger] s.drop_last()[k]).address@ != t.address@ by {
            assert(s[k].address@ != s[i].address@);
        }
        lemma_map_of_absent(s.drop_last(), t.address@);
        assert(map_of(u) =~= map_of(s).insert(t.address@, t));
    } else {
        lemma_map_of_update(s.drop_last(), i, t);
        assert(u.drop_last() =~= s.drop_last().update(i, t));
        assert(s.last().address@ != t.address@);
        assert(map_of(u) =~= map_of(s).insert(t.address@, t));
    }
}

/// Rows of address tags, at most one per address.
#[derive(Debug)]
pub struct TagTable {
    rows: Vec<AddressTag>,
}

/// Stored confidence at `a`, or 0 where nothing is stored.
pub open spec fn conf_at(m: Map<Seq<char>, AddressTag>, a: Seq<char>) -> int {
    if m.contains_key(a) {
        m[a].confidence as int
    } else {
        0
    }
}

/// Every address of `m` is still present in `m2`, with no lower confidence.
pub open spec fn no_confidence_lost(m: Map<Seq<char>, AddressTag>, m2: Map<Seq<char>, AddressTag>) -> bool {
    forall|a: Seq<char>| #[trigger] m.contains_key(a) ==> m2.contains_key(a) && m2[a].confidence >= m[a].confidence
}

/// The table after writing `t` when the stored confidence at its address is
/// below `t`'s (`strict`) or at most `t`'s (not `strict`); with nothing stored, `t` is written.
pub open spec fn upsert_spec(m: Map<Seq<char>, AddressTag>, t: AddressTag, strict: bool) -> Map<Seq<char>, AddressTag> {
    if !m.contains_key(t.address@) || (if strict {
        m[t.address@].confidence < t.confidence
    } else {
        m[t.address@].confidence <= t.confidence
    }) {
        m.insert(t.address@, t)
    } else {
        m
    }
}

impl TagTable {
    pub closed spec fn view(&self) -> Map<Seq<char>, AddressTag> {
        map_of(self.rows@)
    }

    pub closed spec fn wf(&self) -> bool {
        distinct_addresses(self.rows@)
    }

    pub closed spec fn rows(&self) -> Seq<AddressTag> {
        self.rows@
    }

    pub fn new() -> (r: TagTable)
        ensures
            r.wf(),
            r@ == Map::<Seq<char>, AddressTag>::empty(),
    {
        TagTable { rows: Vec::new() }
    }

    pub fn len(&self) -> (r: usize)
        requires
            self.wf(),
        ensures
            r == self@.len(),
    {
        proof {
            self.lemma_len();
        }
        self.rows.len()
    }

    /// The table's map has one entry per row.
    pub proof fn lemma_len(&self)
        requires
            self.wf(),
        ensures
            self@.dom().finite(),
            self@.len() == self.rows().len(),
    {
        lemma_map_len(self.rows@);
    }

    fn find(&self, address: &str) -> (r: Option<usize>)
        requires
            self.wf(),
        ensures
            match r {
                Some(i) => i < self.rows@.len() && self.rows@[i as int].address@ == address@
                    && self@.contains_key(address@) && self@[address@] == self.rows@[i as int],
                None => !self@.contains_key(address@),
            },
    {
        let mut i: usize = 0;
        while i < self.rows.len()
            invariant
                i <= self.rows.len(),
                distinct_addresses(self.rows@),
                forall|j: int| 0 <= j < i ==> (#[trigger] self.rows@[j]).address@ != address@,
            decreases self.rows.len() - i,
        {
            if same_text(self.rows[i].address.as_str(), address) {
                proof {
                    lemma_map_of_at(self.rows@, i as int);
                }
                return Some(i);
            }
            i = i + 1;
        }
        proof {
            lemma_map_of_absent(self.rows@, address@);
        }
        None
    }

    /// The tag stored at `address`.
    pub fn get(&self, address: &str) -> (r: Option<&AddressTag>)
        requires
            self.wf(),
        ensures
            match r {
                Some(t) => self@.contains_key(address@) && *t == self@[address@],
                None => !self@.contains_key(address@),
            },
    {
        match self.find(address) {
            Some(i) => Some(&self.rows[i]),
            None => None,
        }
    }

    /// Store `tag` at its address, replacing what was there.
    pub fn put(&mut self, tag: AddressTag)
        requires
            old(self).wf(),
        ensures
            final(self).wf(),
            final(self)@ == old(self)@.insert(tag.address@, tag),
    {
        let idx = self.find(tag.address.as_str());
        match idx {
            Some(i) => {
                proof {
                    lemma_map_of_update(self.rows@, i as int, tag);
                }
                self.rows.set(i, tag);
            },
            None => {
                proof {
                    let s = self.rows@;
                    assert forall|j: int| 0 <= j < s.len() implies (#[trigger] s[j]).address@ != tag.address@ by {
                        if s[j].address@ == tag.address@ {
                            lemma_map_of_at(s, j);
                        }
                    }
                    assert(s.push(tag).drop_last() =~= s);
                }
                self.rows.push(tag);
            },
        }
    }

    /// Store `tag` unless the stored confidence at its address is higher
    /// (`strict`: at least as high). Returns whether `tag` was written.
    pub fn upsert(&mut self, tag: AddressTag, strict: bool) -> (written: bool)
        requires
            old(self).wf(),
        ensures
            final(self).wf(),
            final(self)@ == upsert_spec(old(self)@, tag, strict),
            written == (!old(self)@.contains_key(tag.address@) || (if strict {
                old(self)@[tag.address@].confidence < tag.confidence
            } else {
                old(self)@[tag.address@].confidence <= tag.confidence
            })),
            no_confidence_lost(old(self)@, final(self)@),
    {
        let write = match self.get(tag.address.as_str()) {
            Some(t) => if strict { t.confidence < tag.confidence } else { t.confidence <= tag.confidence },
            None => true,
        };
        if write {
            self.put(tag);
        }
        write
    }

    /// All stored tags, one per address.
    pub fn all(&self) -> (r: Vec<AddressTag>)
        requires
            self.wf(),
        ensures
            r@ == self.rows(),
            map_of(r@) == self@,
            r@.len() == self.rows().len(),
            distinct_addresses(r@),
    {
        let mut r: Vec<AddressTag> = Vec::new();
        let mut i: usize = 0;
        while i < self.rows.len()
            invariant
                i <= self.rows.len(),
                r@ == self.rows@.subrange(0, i as int),
            decreases self.rows.len() - i,
        {
            r.push(self.rows[i].duplicate());
            proof {
                assert(r@ =~= self.rows@.subrange(0, i as int + 1));
            }
            i = i + 1;
        }
        assert(self.rows@.subrange(0, i as int) =~= self.rows@);
        r
    }
}

proof fn lemma_map_len(s: Seq<AddressTag>)
    requires
        distinct_addresses(s),
    ensures
        map_of(s).dom().finite(),
        map_of(s).len() == s.len(),
    decreases s.len(),
{
    if s.len() > 0 {
        let p = s.drop_last();
        assert(distinct_addresses(p));
        lemma_map_len(p);
        assert forall|j: int| 0 <= j < p.len() implies (#[trigger] p[j]).address@ != s.last().address@ by {
            assert(s[j].address@ != s[s.len() - 1].address@);
        }
        lemma_map_of_absent(p, s.last().address@);
    }
}

/// Whether `a` is among `s`.
pub open spec fn listed(s: Seq<String>, a: Seq<char>) -> bool {
    exists|j: int| 0 <= j < s.len() && (#[trigger] s[j])@ == a
}

/// The highest-confidence tag of `m` among the addresses `s` (the last such in order).
pub open spec fn best_tag(m: Map<Seq<char>, AddressTag>, s: Seq<String>) -> Option<AddressTag>
    decreases s.len(),
{
    if s.len() == 0 {
        None
    } else {
        let b = best_tag(m, s.drop_last());
        let a = s.last()@;
        if m.contains_key(a) {
            match b {
                None => Some(m[a]),
                Some(bt) => if m[a].confidence >= bt.confidence {
                    Some(m[a])
                } else {
                    b
                },
            }
        } else {
            b
        }
    }
}

/// Confidence of a cluster-derived tag: 70% of the best tag's, rounded down.
pub open spec fn derived_confidence(best: AddressTag) -> u32 {
    ((best.confidence as int * 7) / 10) as u32
}

/// Whether cluster expansion with derived confidence `d` writes address `a`.
pub open spec fn qualifies(m: Map<Seq<char>, AddressTag>, a: Seq<char>, d: u32) -> bool {
    !m.contains_key(a) || m[a].confidence < d
}

/// Number of distinct addresses of `s` that qualify.
pub open spec fn new_tag_count(m: Map<Seq<char>, AddressTag>, s: Seq<String>, d: u32) -> nat
    decreases s.len(),
{
    if s.len() == 0 {
        0
    } else {
        new_tag_count(m, s.drop_last(), d) + if qualifies(m, s.last()@, d) && !listed(s.drop_last(), s.last()@) {
            1nat
        } else {
            0nat
        }
    }
}

/// `t` is the cluster-derived tag for `a`: the best tag's entity and type,
/// confidence `d`, source "cluster_heuristic".
pub open spec fn is_cluster_tag(t: AddressTag, a: Seq<char>, best: AddressTag, d: u32) -> bool {
    &&& t.address@ == a
    &&& t.entity == best.entity
    &&& t.entity_type == best.entity_type
    &&& t.confidence == d
    &&& t.source.is_some()
    &&& t.source.unwrap()@ == "cluster_heuristic"@
}

/// `m2` is `m` after cluster expansion over `s`: each listed address that
/// qualifies holds its cluster tag, every other address is unchanged.
pub open spec fn expanded(
    m: Map<Seq<char>, AddressTag>,
    m2: Map<Seq<char>, AddressTag>,
    s: Seq<String>,
    best: AddressTag,
    d: u32,
) -> bool {
    forall|a: Seq<char>|
        #![trigger m2.contains_key(a)]
        #![trigger m.contains_key(a)]
        if listed(s, a) && qualifies(m, a, d) {
            m2.contains_key(a) && is_cluster_tag(m2[a], a, best, d)
        } else {
            m2.contains_key(a) == m.contains_key(a) && (m.contains_key(a) ==> m2[a] == m[a])
        }
}

/// In-memory address tag index, with an optional backing store that
/// receives cluster-derived tags.
#[derive(Debug)]
pub struct TagLookup {
    map: TagTable,
    db: Option<Database>,
    cluster_tags_discovered: u64,
}

impl TagLookup {
    pub closed spec fn view(&self) -> Map<Seq<char>, AddressTag> {
        self.map@
    }

    pub closed spec fn store(&self) -> Option<Database> {
        self.db
    }

    pub closed spec fn discovered(&self) -> u64 {
        self.cluster_tags_discovered
    }

    pub closed spec fn wf(&self) -> bool {
        &&& self.map.wf()
        &&& match self.db {
            Some(d) => d.wf(),
            None => true,
        }
    }

    /// An index of all the store's tags, backed by the store.
    pub fn load_from_db(db: Database) -> (r: TagLookup)
        requires
            db.wf(),
        ensures
            r.wf(),
            r@ == db.tags(),
            r.store() == Some(db),
            r.discovered() == 0,
    {
        let mut tags = db.all_tags();
        let mut map = TagTable::new();
        let mut i: usize = 0;
        let ghost all = tags@;
        let total: usize = tags.len();
        while tags.len() > 0
            invariant
                map.wf(),
                all.len() == total,
                i + tags@.len() == all.len(),
                tags@ == all.subrange(i as int, all.len() as int),
                map@ == map_of(all.subrange(0, i as int)),
                map_of(all) == db.tags(),
                distinct_addresses(all),
            decreases tags.len(),
        {
            let t = tags.remove(0);
            proof {
                assert(all.subrange(0, i as int + 1).drop_last() =~= all.subrange(0, i as int));
                assert(all[i as int] == t);
            }
            map.put(t);
            proof {
                assert(tags@ =~= all.subrange(i as int + 1, all.len() as int));
            }
            i = i + 1;
        }
        proof {
            assert(all.subrange(0, i as int) =~= all);
        }
        TagLookup { map, db: Some(db), cluster_tags_discovered: 0 }
    }

    /// An empty index without a store.
    pub fn empty() -> (r: TagLookup)
        ensures
            r.wf(),
            r@ == Map::<Seq<char>, AddressTag>::empty(),
            r.store().is_none(),
            r.discovered() == 0,
    {
        TagLookup { map: TagTable::new(), db: None, cluster_tags_discovered: 0 }
    }

    /// An empty index backed by `db`.
    pub fn empty_with_db(db: Database) -> (r: TagLookup)
        requires
            db.wf(),
        ensures
            r.wf(),
            r@ == Map::<Seq<char>, AddressTag>::empty(),
            r.store() == Some(db),
            r.discovered() == 0,
    {
        TagLookup { map: TagTable::new(), db: Some(db), cluster_tags_discovered: 0 }
    }

    /// The backing store.
    pub fn db(&self) -> (r: Option<&Database>)
        ensures
            match r {
                Some(d) => self.store() == Some(*d),
                None => self.store().is_none(),
            },
    {
        match &self.db {
            Some(d) => Some(d),
            None => None,
        }
    }

    /// Number of tags in the index.
    pub fn len(&self) -> (r: usize)
        requires
            self.wf(),
        ensures
            r == self@.len(),
    {
        self.map.len()
    }

    /// The tag of `address`.
    pub fn get(&self, address: &str) -> (r: Option<&AddressTag>)
        requires
            self.wf(),
        ensures
            match r {
                Some(t) => self@.contains_key(address@) && *t == self@[address@],
                None => !self@.contains_key(address@),
            },
    {
        self.map.get(address)
    }

    /// Put a tag into the index (the store is left alone).
    pub fn insert(&mut self, tag: AddressTag)
        requires
            old(self).wf(),
        ensures
            final(self).wf(),
            final(self)@ == old(self)@.insert(tag.address@, tag),
            final(self).store() == old(self).store(),
            final(self).discovered() == old(self).discovered(),
    {
        self.map.put(tag);
    }

    /// Total number of tags discovered by cluster expansion.
    pub fn cluster_tags_count(&self) -> (r: u64)
        ensures
            r == self.discovered(),
    {
        self.cluster_tags_discovered
    }

    /// The tags of the listed input addresses, each as a FromExchange match, in order.
    pub fn check_input_addresses(&self, addresses: &[String]) -> (r: Vec<TagMatch>)
        requires
            self.wf(),
        ensures
            input_matches(self@, addresses@, r@),
    {
        let mut r: Vec<TagMatch> = Vec::new();
        let mut i: usize = 0;
        let ghost idx: Seq<int> = Seq::empty();
        while i < addresses.len()
            invariant
                self.wf(),
                i <= addresses.len(),
                input_matches(self@, addresses@.subrange(0, i as int), r@),
            decreases addresses.len() - i,
        {
            proof {
                assert(addresses@.subrange(0, i as int + 1).drop_last() =~= addresses@.subrange(0, i as int));
            }
            let ghost r0 = r@;
            match self.map.get(addresses[i].as_str()) {
                Some(tag) => {
                    r.push(TagMatch { address: addresses[i].clone(), tag: tag.duplicate(), direction: FlowDirection::FromExchange });
                    proof {
                        assert(r@.drop_last() =~= r0);
                    }
                },
                None => {},
            }
            i = i + 1;
        }
        assert(addresses@.subrange(0, i as int) =~= addresses@);
        r
    }

    /// Expand tags by the common-input-ownership heuristic: when a listed
    /// input address is tagged, every listed address whose tag is missing or
    /// less confident than 70% of the best one gets a cluster tag at that
    /// confidence, in the index and (upsert-if-higher) in the store. Nothing
    /// happens for a CoinJoin or for fewer than two inputs. Returns the number
    /// of new tags.
    pub fn expand_from_tx(&mut self, input_addresses: &[String], is_coinjoin: bool) -> (r: usize)
        requires
            old(self).wf(),
        ensures
            final(self).wf(),
            is_coinjoin || input_addresses@.len() < 2 || best_tag(old(self)@, input_addresses@).is_none()
                ==> r == 0 && *final(self) == *old(self),
            !is_coinjoin && input_addresses@.len() >= 2 && best_tag(old(self)@, input_addresses@).is_some()
                ==> {
                let best = best_tag(old(self)@, input_addresses@).unwrap();
                let d = derived_confidence(best);
                &&& r == new_tag_count(old(self)@, input_addresses@, d)
                &&& expanded(old(self)@, final(self)@, input_addresses@, best, d)
                &&& store_expanded(old(self).store(), final(self).store(), input_addresses@, old(self)@, best, d)
            },
    {
        if is_coinjoin {
            return 0;
        }
        if input_addresses.len() < 2 {
            return 0;
        }
        let best = match self.best_among(input_addresses) {
            Some(t) => t,
            None => return 0,
        };
        let derived: u32 = (((best.confidence as u64) * 7) / 10) as u32;
        let ghost m0 = self.map@;
        let ghost db0 = self.db;
        let mut count: usize = 0;
        let mut i: usize = 0;
        while i < input_addresses.len()
            invariant
                self.wf(),
                i <= input_addresses.len(),
                derived == derived_confidence(best),
                count == new_tag_count(m0, input_addresses@.subrange(0, i as int), derived),
                count <= i,
                expanded(m0, self.map@, input_addresses@.subrange(0, i as int), best, derived),
                store_expanded(db0, self.db, input_addresses@.subrange(0, i as int), m0, best, derived),
                self.cluster_tags_discovered == old(self).cluster_tags_discovered,
            decreases input_addresses.len() - i,
        {
            let addr = &input_addresses[i];
            let ghost pre = input_addresses@.subrange(0, i as int);
            let ghost post = input_addresses@.subrange(0, i as int + 1);
            proof {
                assert(post.drop_last() =~= pre);
                assert(post.last() == *addr);
                assert forall|a: Seq<char>| listed(post, a) <==> (listed(pre, a) || a == addr@) by {
                    if listed(post, a) {
                        let j = choose|j: int| 0 <= j < post.len() && (#[trigger] post[j])@ == a;
                        if j < pre.len() {
                            assert(pre[j] == post[j]);
                        }
                    }
                    if listed(pre, a) {
                        let j = choose|j: int| 0 <= j < pre.len() && (#[trigger] pre[j])@ == a;
                        assert(post[j] == pre[j]);
                    }
                    if a == addr@ {
                        assert(post[i as int]@ == a);
                    }
                }
            }
            let skip = match self.map.get(addr.as_str()) {
                Some(existing) => existing.confidence >= derived,
                None => false,
            };
            proof {
                if skip {
                    if qualifies(m0, addr@, derived) && !listed(pre, addr@) {
                        assert(self.map@.contains_key(addr@) == m0.contains_key(addr@));
                    }
                } else {
                    if listed(pre, addr@) && qualifies(m0, addr@, derived) {
                        assert(is_cluster_tag(self.map@[addr@], addr@, best, derived));
                    }
                    assert(qualifies(m0, addr@, derived));
                }
            }
            let ghost db_mid = self.db;
            if !skip {
                let new_tag = AddressTag {
                    address: addr.clone(),
                    entity: best.entity.clone(),
                    entity_type: best.entity_type.clone(),
                    confidence: derived,
                    source: Some("cluster_heuristic".to_string()),
                };
                proof {
                    reveal_strlit("cluster_heuristic");
                }
                match &mut self.db {
                    Some(db) => {
                        db.insert_tag_if_higher(&new_tag);
                    },
                    None => {},
                }
                proof {
                    match db_mid {
                        Some(mid) => {
                            assert(!listed(pre, addr@));
                            assert(is_cluster_tag(new_tag, addr@, best, derived));
                            lemma_store_write_step(db0.unwrap(), mid, self.db.unwrap(), pre, post, m0, best, derived, new_tag);
                        },
                        None => {},
                    }
                }
                self.map.put(new_tag);
                count = count + 1;
            } else {
                proof {
                    match db_mid {
                        Some(mid) => {
                            lemma_store_skip_step(db0.unwrap(), mid, pre, post, m0, best, derived, addr@);
                        },
                        None => {},
                    }
                }
            }
            i = i + 1;
        }
        proof {
            assert(input_addresses@.subrange(0, i as int) =~= input_addresses@);
        }
        self.cluster_tags_discovered = self.cluster_tags_discovered.saturating_add(count as u64);
        count
    }

    /// Matches for the outputs' decoded addresses (`None` for an output
    /// without one): a ToExchange match for each address the index tags, in order.
    pub fn check_output_addresses(&self, addresses: &[Option<String>]) -> (r: Vec<TagMatch>)
        requires
            self.wf(),
        ensures
            output_matches(self@, addresses@.map_values(|a: Option<String>| opt_view(a)), r@),
    {
        let mut r: Vec<TagMatch> = Vec::new();
        let mut i: usize = 0;
        let ghost views = addresses@.map_values(|a: Option<String>| opt_view(a));
        while i < addresses.len()
            invariant
                self.wf(),
                i <= addresses.len(),
                views == addresses@.map_values(|a: Option<String>| opt_view(a)),
                output_matches(self@, views.subrange(0, i as int), r@),
                forall|k: int| 0 <= k < r@.len() ==> (#[trigger] r@[k]).direction == FlowDirection::ToExchange,
            decreases addresses.len() - i,
        {
            proof {
                assert(views.subrange(0, i as int + 1).drop_last() =~= views.subrange(0, i as int));
            }
            let ghost r0 = r@;
            match &addresses[i] {
                Some(a) => {
                    match self.map.get(a.as_str()) {
                        Some(tag) => {
                            r.push(TagMatch { address: a.clone(), tag: tag.duplicate(), direction: FlowDirection::ToExchange });
                            proof {
                                assert(r@.drop_last() =~= r0);
                            }
                        },
                        None => {},
                    }
                },
                None => {},
            }
            i = i + 1;
        }
        assert(views.subrange(0, i as int) =~= views);
        r
    }

    /// Check all outputs of a transaction against the index: a ToExchange
    /// match for each output whose script pays to a tagged mainnet address.
    pub fn check_outputs(&self, tx: &ParsedTx) -> (r: Vec<TagMatch>)
        requires
            self.wf(),
        ensures
            output_matches(self@, tx.outputs@.map_values(|o: TxOutput| mainnet_address(o.script@)), r@),
    {
        let mut addrs: Vec<Option<String>> = Vec::new();
        let mut i: usize = 0;
        while i < tx.outputs.len()
            invariant
                i <= tx.outputs.len(),
                addrs@.map_values(|a: Option<String>| opt_view(a)) =~= tx.outputs@.subrange(0, i as int).map_values(
                    |o: TxOutput| mainnet_address(o.script@),
                ),
            decreases tx.outputs.len() - i,
        {
            let a = script_address(tx.outputs[i].script.as_slice());
            assert(opt_view(a) == mainnet_address(tx.outputs@[i as int].script@));
            let ghost before = addrs@;
            addrs.push(a);
            proof {
                assert(addrs@.map_values(|a: Option<String>| opt_view(a)) =~= before.map_values(|a: Option<String>| opt_view(a)).push(opt_view(a)));
                assert(tx.outputs@.subrange(0, i as int + 1).map_values(|o: TxOutput| mainnet_address(o.script@)) =~= tx.outputs@.subrange(0, i as int).map_values(|o: TxOutput| mainnet_address(o.script@)).push(mainnet_address(tx.outputs@[i as int].script@)));
            }
            proof {
                assert(addrs@.map_values(|a: Option<String>| opt_view(a)) =~= tx.outputs@.subrange(0, i as int + 1).map_values(
                    |o: TxOutput| mainnet_address(o.script@),
                ));
            }
            i = i + 1;
        }
        assert(tx.outputs@.subrange(0, i as int) =~= tx.outputs@);
        self.check_output_addresses(addrs.as_slice())
    }

    fn best_among(&self, addresses: &[String]) -> (r: Option<AddressTag>)
        requires
            self.wf(),
        ensures
            r == best_tag(self@, addresses@),
    {
        let mut best: Option<AddressTag> = None;
        let mut i: usize = 0;
        while i < addresses.len()
            invariant
                self.wf(),
                i <= addresses.len(),
                best == best_tag(self@, addresses@.subrange(0, i as int)),
            decreases addresses.len() - i,
        {
            proof {
                assert(addresses@.subrange(0, i as int + 1).drop_last() =~= addresses@.subrange(0, i as int));
            }
            match self.map.get(addresses[i].as_str()) {
                Some(t) => {
                    let take = match &best {
                        None => true,
                        Some(b) => t.confidence >= b.confidence,
                    };
                    if take {
                        best = Some(t.duplicate());
                    }
                },
                None => {},
            }
            i = i + 1;
        }
        assert(addresses@.subrange(0, i as int) =~= addresses@);
        best
    }
}

/// The text of an optional string.
pub open spec fn opt_view(a: Option<String>) -> Option<Seq<char>> {
    match a {
        Some(s) => Some(s@),
        None => None,
    }
}

/// `r` lists, in order, a ToExchange match for each decoded address of `s` that `m` tags.
pub open spec fn output_matches(m: Map<Seq<char>, AddressTag>, s: Seq<Option<Seq<char>>>, r: Seq<TagMatch>) -> bool
    decreases s.len(),
{
    if s.len() == 0 {
        r.len() == 0
    } else if s.last().is_some() && m.contains_key(s.last().unwrap()) {
        &&& r.len() > 0
        &&& r.last().address@ == s.last().unwrap()
        &&& r.last().tag == m[s.last().unwrap()]
        &&& r.last().direction == FlowDirection::ToExchange
        &&& output_matches(m, s.drop_last(), r.drop_last())
    } else {
        output_matches(m, s.drop_last(), r)
    }
}

/// `r` lists, in order, a FromExchange match for each address of `s` that `m` tags.
pub open spec fn input_matches(m: Map<Seq<char>, AddressTag>, s: Seq<String>, r: Seq<TagMatch>) -> bool
    decreases s.len(),
{
    if s.len() == 0 {
        r.len() == 0
    } else if m.contains_key(s.last()@) {
        &&& r.len() > 0
        &&& r.last().address == s.last()
        &&& r.last().tag == m[s.last()@]
        &&& r.last().direction == FlowDirection::FromExchange
        &&& input_matches(m, s.drop_last(), r.drop_last())
    } else {
        input_matches(m, s.drop_last(), r)
    }
}

/// The store after cluster expansion over `s`: unchanged when absent; else no
/// confidence lost; each qualifying listed address holds its cluster tag
/// where the store had no tag there or a less confident one, and keeps its
/// stored tag otherwise; every other address and the other tables are unchanged.
pub open spec fn store_expanded(
    before: Option<Database>,
    after: Option<Database>,
    s: Seq<String>,
    m: Map<Seq<char>, AddressTag>,
    best: AddressTag,
    d: u32,
) -> bool {
    match before {
        None => after.is_none(),
        Some(b) => match after {
            None => false,
            Some(a) => {
                &&& a.wf()
                &&& no_confidence_lost(b.tags(), a.tags())
                &&& a.signals() == b.signals()
                &&& a.cache_rows() == b.cache_rows()
                &&& forall|x: Seq<char>|
                    #![trigger a.tags().contains_key(x)]
                    if listed(s, x) && qualifies(m, x, d) {
                        a.tags().contains_key(x) && if !b.tags().contains_key(x) || b.tags()[x].confidence < d {
                            is_cluster_tag(a.tags()[x], x, best, d)
                        } else {
                            a.tags()[x] == b.tags()[x]
                        }
                    } else {
                        a.tags().contains_key(x) == b.tags().contains_key(x) && (b.tags().contains_key(x)
                            ==> a.tags()[x] == b.tags()[x])
                    }
            },
        },
    }
}

proof fn lemma_store_write_step(
    db0: Database,
    mid: Database,
    after: Database,
    pre: Seq<String>,
    post: Seq<String>,
    m0: Map<Seq<char>, AddressTag>,
    best: AddressTag,
    d: u32,
    t: AddressTag,
)
    requires
        store_expanded(Some(db0), Some(mid), pre, m0, best, d),
        is_cluster_tag(t, t.address@, best, d),
        !listed(pre, t.address@),
        after.wf(),
        after.tags() == upsert_spec(mid.tags(), t, true),
        no_confidence_lost(mid.tags(), after.tags()),
        after.signals() == mid.signals(),
        after.cache_rows() == mid.cache_rows(),
        t.confidence == d,
        qualifies(m0, t.address@, d),
        forall|a: Seq<char>| listed(post, a) <==> (listed(pre, a) || a == t.address@),
    ensures
        store_expanded(Some(db0), Some(after), post, m0, best, d),
{
    assert forall|x: Seq<char>| #[trigger] db0.tags().contains_key(x) implies after.tags().contains_key(x)
        && after.tags()[x].confidence >= db0.tags()[x].confidence by {
        assert(mid.tags().contains_key(x));
    }
    assert forall|x: Seq<char>|
        if listed(post, x) && qualifies(m0, x, d) {
            #[trigger] after.tags().contains_key(x) && if !db0.tags().contains_key(x) || db0.tags()[x].confidence < d {
                is_cluster_tag(after.tags()[x], x, best, d)
            } else {
                after.tags()[x] == db0.tags()[x]
            }
        } else {
            after.tags().contains_key(x) == db0.tags().contains_key(x) && (db0.tags().contains_key(x)
                ==> after.tags()[x] == db0.tags()[x])
        } by {
        if x == t.address@ {
            if mid.tags().contains_key(x) {
            }
            assert(mid.tags().contains_key(x) == db0.tags().contains_key(x));
        } else {
            assert(mid.tags().contains_key(x) == after.tags().contains_key(x));
        }
    }
}

proof fn lemma_store_skip_step(
    db0: Database,
    mid: Database,
    pre: Seq<String>,
    post: Seq<String>,
    m0: Map<Seq<char>, AddressTag>,
    best: AddressTag,
    d: u32,
    a0: Seq<char>,
)
    requires
        store_expanded(Some(db0), Some(mid), pre, m0, best, d),
        qualifies(m0, a0, d) ==> listed(pre, a0),
        forall|a: Seq<char>| listed(post, a) <==> (listed(pre, a) || a == a0),
    ensures
        store_expanded(Some(db0), Some(mid), post, m0, best, d),
{
    assert forall|x: Seq<char>|
        if listed(post, x) && qualifies(m0, x, d) {
            #[trigger] mid.tags().contains_key(x) && if !db0.tags().contains_key(x) || db0.tags()[x].confidence < d {
                is_cluster_tag(mid.tags()[x], x, best, d)
            } else {
                mid.tags()[x] == db0.tags()[x]
            }
        } else {
            mid.tags().contains_key(x) == db0.tags().contains_key(x) && (db0.tags().contains_key(x)
                ==> mid.tags()[x] == db0.tags()[x])
        } by {
        assert(listed(post, x) == (listed(pre, x) || x == a0));
        if mid.tags().contains_key(x) {
        }
        if x == a0 {
            if listed(post, x) && qualifies(m0, x, d) {
                assert(listed(pre, x));
            } else {
                assert(!(listed(pre, x) && qualifies(m0, x, d)));
            }
        }
    }
}

} // verus!
