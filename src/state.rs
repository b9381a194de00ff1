use vstd::prelude::*;
use crate::qiita_api::{QiitaItem, QiitaItemView, clone_opt, opt_view};
use crate::text::{lemma_less_total, lemma_less_transitive, text_is_less, text_less};
use crate::time::{Timestamp, earlier, format_rfc3339, is_earlier, parse_rfc3339, rfc3339_instant, rfc3339_text, SECS_PER_DAY};

verus! {

/// One record kept between runs.
#[derive(Debug, Clone)]
pub struct StoredItem {
    pub key: String,
    pub item_id: Option<String>,
    pub title: String,
    pub link: String,
    pub summary: Option<String>,
    pub published: Option<String>,
    pub updated: Option<String>,
    pub author_name: Option<String>,
    pub likes_count: u32,
    /// RFC 3339 time of the last run that saw the item.
    pub last_seen: String,
}

pub struct StoredItemView {
    pub key: Seq<char>,
    pub item_id: Option<Seq<char>>,
    pub title: Seq<char>,
    pub link: Seq<char>,
    pub summary: Option<Seq<char>>,
    pub published: Option<Seq<char>>,
    pub updated: Option<Seq<char>>,
    pub author_name: Option<Seq<char>>,
    pub likes_count: u32,
    pub last_seen: Seq<char>,
}

impl View for StoredItem {
    type V = StoredItemView;

    open spec fn view(&self) -> StoredItemView {
        StoredItemView {
            key: self.key@,
            item_id: opt_view(self.item_id),
            title: self.title@,
            link: self.link@,
            summary: opt_view(self.summary),
            published: opt_view(self.published),
            updated: opt_view(self.updated),
            author_name: opt_view(self.author_name),
            likes_count: self.likes_count,
            last_seen: self.last_seen@,
        }
    }
}

impl StoredItem {
    pub fn copy(&self) -> (r: StoredItem)
        ensures
            r@ == self@,
    {
        StoredItem {
            key: self.key.clone(),
            item_id: clone_opt(&self.item_id),
            title: self.title.clone(),
            link: self.link.clone(),
            summary: clone_opt(&self.summary),
            published: clone_opt(&self.published),
            updated: clone_opt(&self.updated),
            author_name: clone_opt(&self.author_name),
            likes_count: self.likes_count,
            last_seen: self.last_seen.clone(),
        }
    }
}

/// Identity key of a feed item: its item id, else its link.
pub open spec fn key_of(item: QiitaItemView) -> Seq<char> {
    match item.item_id {
        Some(id) => id,
        None => item.link,
    }
}

/// Key of a feed item; every item has one.
pub fn item_key(item: &QiitaItem) -> (r: Option<String>)
    ensures
        opt_view(r) == Some(key_of(item@)),
{
    match &item.item_id {
        Some(id) => Some(id.clone()),
        None => Some(item.link.clone()),
    }
}

/// The record a feed item becomes when seen at the time written `seen`.
pub open spec fn stored_of(item: QiitaItemView, seen: Seq<char>) -> StoredItemView {
    StoredItemView {
        key: key_of(item),
        item_id: item.item_id,
        title: item.title,
        link: item.link,
        summary: item.summary,
        published: item.published,
        updated: item.updated,
        author_name: item.author_name,
        likes_count: item.likes_count,
        last_seen: seen,
    }
}

/// Records by key; where two share a key, the later one stands.
pub open spec fn records_map(s: Seq<StoredItem>) -> Map<Seq<char>, StoredItemView>
    decreases s.len(),
{
    if s.len() == 0 {
        Map::empty()
    } else {
        records_map(s.drop_last()).insert(s.last().key@, s.last()@)
    }
}

/// Keys pairwise distinct.
pub open spec fn unique_keys(s: Seq<StoredItem>) -> bool {
    forall|i: int, j: int| 0 <= i < s.len() && 0 <= j < s.len() && i != j ==> s[i].key@ != s[j].key@
}

/// The store after merging `items`, in order, at the time written `seen`.
pub open spec fn merged(m: Map<Seq<char>, StoredItemView>, items: Seq<QiitaItemView>, seen: Seq<char>) -> Map<Seq<char>, StoredItemView>
    decreases items.len(),
{
    if items.len() == 0 {
        m
    } else {
        merged(m, items.drop_last(), seen).insert(key_of(items.last()), stored_of(items.last(), seen))
    }
}

pub open spec fn item_views(items: Seq<QiitaItem>) -> Seq<QiitaItemView> {
    items.map_values(|i: QiitaItem| i@)
}

proof fn lemma_records_map_update(s: Seq<StoredItem>, i: int, r: StoredItem)
    requires
        unique_keys(s),
        0 <= i < s.len(),
        s[i].key@ == r.key@,
    ensures
        records_map(s.update(i, r)) == records_map(s).insert(r.key@, r@),
    decreases s.len(),
{
    let t = s.update(i, r);
    if i == s.len() - 1 {
        assert(t.drop_last() =~= s.drop_last());
        assert(records_map(t) =~= records_map(s).insert(r.key@, r@));
    } else {
        assert(t.drop_last() =~= s.drop_last().update(i, r));
        lemma_records_map_update(s.drop_last(), i, r);
        assert(s.last().key@ != r.key@);
        assert(records_map(t) =~= records_map(s).insert(r.key@, r@));
    }
}

proof fn lemma_records_map_has(s: Seq<StoredItem>, i: int)
    requires
        unique_keys(s),
        0 <= i < s.len(),
    ensures
        records_map(s).contains_key(s[i].key@),
        records_map(s)[s[i].key@] == s[i]@,
    decreases s.len(),
{
    if i < s.len() - 1 {
        lemma_records_map_has(s.drop_last(), i);
    }
}

proof fn lemma_records_map_lacks(s: Seq<StoredItem>, k: Seq<char>)
    requires
        forall|i: int| 0 <= i < s.len() ==> s[i].key@ != k,
    ensures
        !records_map(s).contains_key(k),
    decreases s.len(),
{
    if s.len() > 0 {
        lemma_records_map_lacks(s.drop_last(), k);
    }
}

/// The records kept between runs, at most one per key.
pub struct StateStore {
    pub items: Vec<StoredItem>,
}

impl StateStore {
    pub open spec fn wf(&self) -> bool {
        unique_keys(self.items@)
    }

    /// The records by key.
    pub open spec fn map(&self) -> Map<Seq<char>, StoredItemView> {
        records_map(self.items@)
    }

    pub fn new() -> (r: Self)
        ensures
            r.wf(),
            r.map() == Map::<Seq<char>, StoredItemView>::empty(),
            r.items@.len() == 0,
    {
        StateStore { items: Vec::new() }
    }

    /// Number of records.
    pub fn len(&self) -> (r: usize)
        ensures
            r == self.items@.len(),
    {
        self.items.len()
    }

    /// Index of the record with key `key`.
    fn position(&self, key: &String) -> (r: Option<usize>)
        requires
            self.wf(),
        ensures
            match r {
                Some(i) => i < self.items@.len() && self.items@[i as int].key@ == key@,
                None => forall|i: int| 0 <= i < self.items@.len() ==> self.items@[i].key@ != key@,
            },
    {
        let mut i: usize = 0;
        while i < self.items.len()
            invariant
                forall|j: int| 0 <= j < i ==> self.items@[j].key@ != key@,
            decreases self.items.len() - i,
        {
            if self.items[i].key == *key {
                return Some(i);
            }
            i = i + 1;
        }
        None
    }

    /// Puts `record` in the store, in place of any record with the same key.
    pub fn upsert(&mut self, record: StoredItem)
        requires
            old(self).wf(),
        ensures
            final(self).wf(),
            final(self).map() == old(self).map().insert(record.key@, record@),
    {
        let ghost k = record.key@;
        let ghost rv = record@;
        match self.position(&record.key) {
            Some(i) => {
                proof {
                    lemma_records_map_update(self.items@, i as int, record);
                }
                self.items.set(i, record);
            },
            None => {
                let ghost before = self.items@;
                self.items.push(record);
                assert(self.items@.drop_last() =~= before);
            },
        }
    }

    /// Looks up the record with key `key`.
    pub fn get(&self, key: &String) -> (r: Option<StoredItem>)
        requires
            self.wf(),
        ensures
            match r {
                Some(x) => self.map().contains_key(key@) && self.map()[key@] == x@,
                None => !self.map().contains_key(key@),
            },
    {
        match self.position(key) {
            Some(i) => {
                proof {
                    lemma_records_map_has(self.items@, i as int);
                }
                Some(self.items[i].copy())
            },
            None => {
                proof {
                    lemma_records_map_lacks(self.items@, key@);
                }
                None
            },
        }
    }

    /// A store holding the given records; where two share a key, the later stands.
    pub fn from_items(items: Vec<StoredItem>) -> (r: Self)
        ensures
            r.wf(),
            r.map() == records_map(items@),
    {
        let mut store = StateStore::new();
        let mut i: usize = 0;
        while i < items.len()
            invariant
                store.wf(),
                i <= items@.len(),
                store.map() == records_map(items@.take(i as int)),
            decreases items.len() - i,
        {
            assert(items@.take(i + 1).drop_last() =~= items@.take(i as int));
            store.upsert(items[i].copy());
            i = i + 1;
        }
        assert(items@.take(i as int) =~= items@);
        store
    }

    /// Merges the feed items seen at `now`: each becomes the record of its key,
    /// replacing whatever was stored under it. Returns the number merged.
    pub fn merge_from_feed(&mut self, items: &Vec<QiitaItem>, now: Timestamp) -> (r: usize)
        requires
            old(self).wf(),
            now.in_range(),
        ensures
            final(self).wf(),
            final(self).map() == merged(old(self).map(), item_views(items@), rfc3339_text(now)),
            r == items@.len(),
    {
        let seen = format_rfc3339(now);
        let mut i: usize = 0;
        while i < items.len()
            invariant
                self.wf(),
                i <= items@.len(),
                seen@ == rfc3339_text(now),
                self.map() == merged(old(self).map(), item_views(items@).take(i as int), seen@),
            decreases items.len() - i,
        {
            let item = &items[i];
            let key = match item_key(item) {
                Some(k) => k,
                None => item.link.clone(),
            };
            let record = StoredItem {
                key,
                item_id: clone_opt(&item.item_id),
                title: item.title.clone(),
                link: item.link.clone(),
                summary: clone_opt(&item.summary),
                published: clone_opt(&item.published),
                updated: clone_opt(&item.updated),
                author_name: clone_opt(&item.author_name),
                likes_count: item.likes_count,
                last_seen: seen.clone(),
            };
            assert(record@ == stored_of(item@, seen@));
            self.upsert(record);
            assert(item_views(items@).take(i + 1).drop_last() =~= item_views(items@).take(i as int));
            i = i + 1;
        }
        assert(item_views(items@).take(i as int) =~= item_views(items@));
        items.len()
    }
}

/// `t` is no more than `days` days before `now`.
pub open spec fn within_days(t: Timestamp, now: Timestamp, days: nat) -> bool {
    let cutoff = now.secs - days * SECS_PER_DAY;
    t.secs > cutoff || (t.secs == cutoff && t.nanos >= now.nanos)
}

/// The record's last-seen time parses and is within `days` days of `now`.
pub open spec fn is_fresh(r: StoredItemView, now: Timestamp, days: nat) -> bool {
    match rfc3339_instant(r.last_seen) {
        Some(t) => within_days(t, now, days),
        None => false,
    }
}

/// The record's last-seen time; `now` when it does not parse.
pub open spec fn seen_time(r: StoredItemView, now: Timestamp) -> Timestamp {
    match rfc3339_instant(r.last_seen) {
        Some(t) => t,
        None => now,
    }
}

pub open spec fn count_fresh(s: Seq<StoredItem>, now: Timestamp, days: nat) -> nat
    decreases s.len(),
{
    if s.len() == 0 {
        0
    } else {
        count_fresh(s.drop_last(), now, days) + if is_fresh(s.last()@, now, days) {
            1nat
        } else {
            0nat
        }
    }
}

pub open spec fn min_nat(a: nat, b: nat) -> nat {
    if a <= b {
        a
    } else {
        b
    }
}

/// Some record of `s` has the view `v`.
pub open spec fn holds(s: Seq<StoredItem>, v: StoredItemView) -> bool {
    exists|j: int| 0 <= j < s.len() && s[j]@ == v
}

fn seen_time_of(r: &StoredItem, now: Timestamp) -> (t: Timestamp)
    ensures
        t == seen_time(r@, now),
{
    match parse_rfc3339(r.last_seen.as_str()) {
        Some(t) => t,
        None => now,
    }
}

/// Index of a record seen no later than any other.
fn oldest(v: &Vec<StoredItem>, now: Timestamp) -> (m: usize)
    requires
        v@.len() > 0,
    ensures
        m < v@.len(),
        forall|j: int| 0 <= j < v@.len() ==> !earlier(seen_time(v@[j]@, now), seen_time(v@[m as int]@, now)),
{
    let mut m: usize = 0;
    let mut mt = seen_time_of(&v[0], now);
    let mut j: usize = 1;
    while j < v.len()
        invariant
            m < j <= v@.len(),
            mt == seen_time(v@[m as int]@, now),
            forall|k: int| 0 <= k < j ==> !earlier(seen_time(v@[k]@, now), mt),
        decreases v.len() - j,
    {
        let t = seen_time_of(&v[j], now);
        if is_earlier(t, mt) {
            m = j;
            mt = t;
        }
        j = j + 1;
    }
    m
}

impl StateStore {
    /// Drops the records last seen more than `max_days` days before `now`, or
    /// whose last-seen time does not parse; then, while more than `max_items`
    /// remain, drops the ones seen longest ago.
    pub fn prune(&mut self, now: Timestamp, max_days: u32, max_items: usize)
        requires
            old(self).wf(),
            now.in_range(),
        ensures
            final(self).wf(),
            forall|j: int| 0 <= j < final(self).items@.len() ==> #[trigger] holds(old(self).items@, final(self).items@[j]@)
                && is_fresh(final(self).items@[j]@, now, max_days as nat),
            final(self).items@.len() == min_nat(max_items as nat, count_fresh(old(self).items@, now, max_days as nat)),
            count_fresh(old(self).items@, now, max_days as nat) <= max_items ==> forall|i: int| 0 <= i < old(self).items@.len()
                && is_fresh(old(self).items@[i]@, now, max_days as nat) ==> holds(final(self).items@, old(self).items@[i]@),
            forall|i: int, j: int| 0 <= i < old(self).items@.len() && is_fresh(old(self).items@[i]@, now, max_days as nat)
                && !holds(final(self).items@, old(self).items@[i]@) && 0 <= j < final(self).items@.len()
                ==> !earlier(seen_time(final(self).items@[j]@, now), seen_time(old(self).items@[i]@, now)),
    {
        let ghost days = max_days as nat;
        let ghost src = self.items@;
        let cutoff = Timestamp { secs: now.secs - max_days as i64 * SECS_PER_DAY, nanos: now.nanos };
        let mut kept: Vec<StoredItem> = Vec::new();
        let mut i: usize = 0;
        while i < self.items.len()
            invariant
                self.items@ == src,
                unique_keys(src),
                i <= src.len(),
                cutoff.secs == now.secs - days * SECS_PER_DAY,
                cutoff.nanos == now.nanos,
                kept@.len() == count_fresh(src.take(i as int), now, days),
                unique_keys(kept@),
                forall|j: int| 0 <= j < kept@.len() ==> is_fresh(kept@[j]@, now, days)
                    && exists|m: int| 0 <= m < i && #[trigger] src[m]@ == kept@[j]@,
                forall|m: int| 0 <= m < i && is_fresh(src[m]@, now, days) ==> holds(kept@, src[m]@),
            decreases src.len() - i,
        {
            assert(src.take(i + 1).drop_last() =~= src.take(i as int));
            let fresh = match parse_rfc3339(self.items[i].last_seen.as_str()) {
                Some(t) => !is_earlier(t, cutoff),
                None => false,
            };
            if fresh {
                let ghost before = kept@;
                let r = self.items[i].copy();
                proof {
                    assert forall|j: int| 0 <= j < before.len() implies before[j].key@ != r.key@ by {
                        let m = choose|m: int| 0 <= m < i && #[trigger] src[m]@ == before[j]@;
                        assert(src[m].key@ == before[j].key@);
                    }
                }
                kept.push(r);
                assert(kept@[before.len() as int]@ == src[i as int]@);
                assert(forall|j: int| 0 <= j < before.len() ==> kept@[j] == before[j]);
            }
            i = i + 1;
        }
        assert(src.take(i as int) =~= src);
        let ghost count = count_fresh(src, now, days);
        while kept.len() > max_items
            invariant
                unique_keys(kept@),
                kept@.len() == count || (kept@.len() >= max_items && count > max_items),
                forall|j: int| 0 <= j < kept@.len() ==> is_fresh(kept@[j]@, now, days)
                    && #[trigger] holds(src, kept@[j]@),
                count <= max_items ==> forall|m: int| 0 <= m < src.len() && is_fresh(src[m]@, now, days)
                    ==> holds(kept@, src[m]@),
                forall|a: int, j: int| 0 <= a < src.len() && is_fresh(src[a]@, now, days)
                    && !holds(kept@, src[a]@) && 0 <= j < kept@.len()
                    ==> !earlier(seen_time(kept@[j]@, now), seen_time(src[a]@, now)),
            decreases kept.len(),
        {
            let m = oldest(&kept, now);
            let ghost before = kept@;
            kept.remove(m);
            proof {
                let after = kept@;
                assert(forall|x: int| 0 <= x < m ==> after[x] == before[x]);
                assert(forall|x: int| m <= x < after.len() ==> after[x] == before[x + 1]);
                assert forall|a: int, j: int| 0 <= a < src.len() && is_fresh(src[a]@, now, days)
                    && !holds(after, src[a]@) && 0 <= j < after.len()
                    implies !earlier(seen_time(after[j]@, now), seen_time(src[a]@, now)) by {
                    let jb = if j < m { j } else { j + 1 };
                    assert(after[j] == before[jb]);
                    if holds(before, src[a]@) {
                        let j0 = choose|j0: int| 0 <= j0 < before.len() && before[j0]@ == src[a]@;
                        if j0 < m {
                            assert(after[j0]@ == src[a]@);
                        } else if j0 > m {
                            assert(after[j0 - 1]@ == src[a]@);
                        }
                    }
                }
                assert forall|j: int| 0 <= j < kept@.len() implies is_fresh(#[trigger] kept@[j]@, now, days)
                    && holds(src, kept@[j]@) by {
                    let jb = if j < m { j } else { j + 1 };
                    assert(after[j] == before[jb]);
                    assert(0 <= jb < before.len());
                    assert(holds(src, before[jb]@));
                    assert(is_fresh(before[jb]@, now, days));
                }
            }
        }
        self.items = kept;
    }
}

/// Index of the record with the smallest key.
fn smallest_key(v: &Vec<StoredItem>) -> (m: usize)
    requires
        v@.len() > 0,
        unique_keys(v@),
    ensures
        m < v@.len(),
        forall|j: int| 0 <= j < v@.len() && j != m ==> text_less(v@[m as int].key@, #[trigger] v@[j].key@),
{
    let mut m: usize = 0;
    let mut j: usize = 1;
    while j < v.len()
        invariant
            m < j <= v@.len(),
            unique_keys(v@),
            forall|k: int| 0 <= k < j && k != m ==> text_less(v@[m as int].key@, #[trigger] v@[k].key@),
        decreases v.len() - j,
    {
        if text_is_less(&v[j].key, &v[m].key) {
            proof {
                assert forall|k: int| 0 <= k < j + 1 && k != j implies text_less(v@[j as int].key@, #[trigger] v@[k].key@) by {
                    if k != m {
                        lemma_less_transitive(v@[j as int].key@, v@[m as int].key@, v@[k].key@, 0);
                    }
                }
            }
            m = j;
        } else {
            proof {
                lemma_less_total(v@[m as int].key@, v@[j as int].key@, 0);
            }
        }
        j = j + 1;
    }
    m
}

impl StateStore {
    /// The records in increasing order of key.
    pub fn to_sorted_vec(&self) -> (r: Vec<StoredItem>)
        requires
            self.wf(),
        ensures
            r@.len() == self.items@.len(),
            forall|j: int| 0 <= j < r@.len() ==> #[trigger] holds(self.items@, r@[j]@),
            forall|i: int| 0 <= i < self.items@.len() ==> holds(r@, #[trigger] self.items@[i]@),
            forall|i: int, j: int| 0 <= i < j < r@.len() ==> text_less(r@[i].key@, r@[j].key@),
    {
        let ghost src = self.items@;
        let mut pool: Vec<StoredItem> = Vec::new();
        let mut i: usize = 0;
        while i < self.items.len()
            invariant
                self.items@ == src,
                i <= src.len(),
                pool@.len() == i,
                forall|j: int| 0 <= j < i ==> #[trigger] pool@[j]@ == src[j]@,
            decreases src.len() - i,
        {
            pool.push(self.items[i].copy());
            i = i + 1;
        }
        assert forall|a: int, b: int| 0 <= a < pool@.len() && 0 <= b < pool@.len() && a != b
            implies pool@[a].key@ != pool@[b].key@ by {
            assert(pool@[a]@ == src[a]@ && pool@[b]@ == src[b]@);
        }
        assert forall|j: int| 0 <= j < pool@.len() implies #[trigger] holds(src, pool@[j]@) by {
            assert(pool@[j]@ == src[j]@);
        }
        assert forall|k: int| 0 <= k < src.len() implies holds(pool@, #[trigger] src[k]@) by {
            assert(pool@[k]@ == src[k]@);
        }
        let mut out: Vec<StoredItem> = Vec::new();
        while pool.len() > 0
            invariant
                unique_keys(pool@),
                out@.len() + pool@.len() == src.len(),
                forall|j: int| 0 <= j < pool@.len() ==> #[trigger] holds(src, pool@[j]@),
                forall|j: int| 0 <= j < out@.len() ==> #[trigger] holds(src, out@[j]@),
                forall|k: int| 0 <= k < src.len() ==> holds(out@, #[trigger] src[k]@) || holds(pool@, src[k]@),
                forall|a: int, b: int| 0 <= a < b < out@.len() ==> text_less(out@[a].key@, out@[b].key@),
                forall|a: int, b: int| 0 <= a < out@.len() && 0 <= b < pool@.len() ==> text_less(out@[a].key@, pool@[b].key@),
            decreases pool.len(),
        {
            let m = smallest_key(&pool);
            let ghost before = pool@;
            let ghost out_before = out@;
            let x = pool.remove(m);
            out.push(x);
            proof {
                let after = pool@;
                assert(forall|k: int| 0 <= k < m ==> after[k] == before[k]);
                assert(forall|k: int| m <= k < after.len() ==> after[k] == before[k + 1]);
                assert(forall|k: int| 0 <= k < out_before.len() ==> out@[k] == out_before[k]);
                assert forall|j: int| 0 <= j < pool@.len() implies #[trigger] holds(src, pool@[j]@) by {
                    let jb = if j < m { j } else { j + 1 };
                    assert(after[j] == before[jb]);
                    assert(holds(src, before[jb]@));
                }
                assert forall|j: int| 0 <= j < out@.len() implies #[trigger] holds(src, out@[j]@) by {
                    if j < out_before.len() {
                        assert(holds(src, out_before[j]@));
                    } else {
                        assert(holds(src, before[m as int]@));
                    }
                }
                assert forall|a: int, b: int| 0 <= a < out@.len() && 0 <= b < pool@.len()
                    implies text_less(out@[a].key@, pool@[b].key@) by {
                    let bb = if b < m { b } else { b + 1 };
                    assert(after[b] == before[bb]);
                    if a == out_before.len() {
                        assert(text_less(before[m as int].key@, before[bb].key@));
                    }
                }
                assert forall|a: int, b: int| 0 <= a < b < out@.len() implies text_less(out@[a].key@, out@[b].key@) by {
                    if b == out_before.len() {
                        assert(text_less(out_before[a].key@, before[m as int].key@));
                    }
                }
                assert forall|k: int| 0 <= k < src.len() implies holds(out@, #[trigger] src[k]@) || holds(pool@, src[k]@) by {
                    if holds(out_before, src[k]@) {
                        let j0 = choose|j0: int| 0 <= j0 < out_before.len() && out_before[j0]@ == src[k]@;
                        assert(out@[j0]@ == src[k]@);
                    } else {
                        let j0 = choose|j0: int| 0 <= j0 < before.len() && before[j0]@ == src[k]@;
                        if j0 < m {
                            assert(after[j0]@ == src[k]@);
                        } else if j0 > m {
                            assert(after[j0 - 1]@ == src[k]@);
                        } else {
                            assert(out@[out_before.len() as int]@ == src[k]@);
                        }
                    }
                }
                assert forall|a: int, b: int| 0 <= a < after.len() && 0 <= b < after.len() && a != b
                    implies after[a].key@ != after[b].key@ by {
                    let ab = if a < m { a } else { a + 1 };
                    let bb = if b < m { b } else { b + 1 };
                    assert(after[a] == before[ab]);
                    assert(after[b] == before[bb]);
                }
            }
        }
        out
    }
}

/// Merging two items with the same key, one after the other, leaves one record
/// for the key: the second item's, with the second merge's time.
pub proof fn lemma_merge_same_key_twice(
    m: Map<Seq<char>, StoredItemView>,
    first: QiitaItemView,
    second: QiitaItemView,
    t1: Seq<char>,
    t2: Seq<char>,
)
    requires
        key_of(first) == key_of(second),
    ensures
        merged(merged(m, seq![first], t1), seq![second], t2) == merged(m, seq![second], t2),
        merged(merged(m, seq![first], t1), seq![second], t2)[key_of(second)] == stored_of(second, t2),
{
    assert(seq![first].drop_last() =~= Seq::<QiitaItemView>::empty());
    assert(seq![second].drop_last() =~= Seq::<QiitaItemView>::empty());
    let m1 = merged(m, seq![first], t1);
    assert(merged(m, Seq::<QiitaItemView>::empty(), t1) == m);
    assert(merged(m, Seq::<QiitaItemView>::empty(), t2) == m);
    assert(merged(m1, Seq::<QiitaItemView>::empty(), t2) == m1);
    assert(seq![first].last() == first);
    assert(seq![second].last() == second);
    assert(m1 == m.insert(key_of(first), stored_of(first, t1)));
    assert(merged(m1, seq![second], t2) == m1.insert(key_of(second), stored_of(second, t2)));
    assert(merged(m, seq![second], t2) == m.insert(key_of(second), stored_of(second, t2)));
    assert(merged(m1, seq![second], t2) =~= merged(m, seq![second], t2));
}

} // verus!
