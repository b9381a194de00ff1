use vstd::prelude::*;
use crate::state::{StateStore, StoredItem, StoredItemView, holds, min_nat, unique_keys};
use crate::text::{lemma_less_asymmetric, lemma_less_irreflexive, lemma_less_total, lemma_less_transitive, text_is_less, text_less};
use crate::time::{Timestamp, earlier, is_earlier, parse_rfc3339, rfc3339_instant};

verus! {

pub open spec fn parsed_time(o: Option<Seq<char>>) -> Option<Timestamp> {
    match o {
        Some(s) => rfc3339_instant(s),
        None => None,
    }
}

/// The later of two optional times; a time wins over none.
pub open spec fn later_of(a: Option<Timestamp>, b: Option<Timestamp>) -> Option<Timestamp> {
    match (a, b) {
        (Some(x), Some(y)) => Some(if earlier(y, x) { x } else { y }),
        (Some(x), None) => Some(x),
        (None, Some(y)) => Some(y),
        (None, None) => None,
    }
}

/// Effective time of a record: the later of its parsed updated and published times.
pub open spec fn effective_time(r: StoredItemView) -> Option<Timestamp> {
    later_of(parsed_time(r.updated), parsed_time(r.published))
}

fn parse_opt(o: &Option<String>) -> (r: Option<Timestamp>)
    ensures
        r == parsed_time(crate::qiita_api::opt_view(*o)),
{
    match o {
        Some(s) => parse_rfc3339(s.as_str()),
        None => None,
    }
}

/// The later of the record's updated and published times, where they parse.
pub fn select_updated_time(item: &StoredItem) -> (r: Option<Timestamp>)
    ensures
        r == effective_time(item@),
{
    let updated = parse_opt(&item.updated);
    let published = parse_opt(&item.published);
    match (updated, published) {
        (Some(a), Some(b)) => Some(if is_earlier(b, a) { a } else { b }),
        (Some(a), None) => Some(a),
        (None, Some(b)) => Some(b),
        (None, None) => None,
    }
}

/// `a` is strictly later than `b`; any time is later than none.
pub open spec fn time_after(a: Option<Timestamp>, b: Option<Timestamp>) -> bool {
    match (a, b) {
        (Some(x), Some(y)) => earlier(y, x),
        (Some(_), None) => true,
        _ => false,
    }
}

/// Output order: more likes first; among equal likes the later effective time
/// first; among equal times the smaller key first.
pub open spec fn precedes(a: StoredItemView, b: StoredItemView) -> bool {
    a.likes_count > b.likes_count || (a.likes_count == b.likes_count && (time_after(
        effective_time(a),
        effective_time(b),
    ) || (effective_time(a) == effective_time(b) && text_less(a.key, b.key))))
}

pub proof fn lemma_precedes_total(a: StoredItemView, b: StoredItemView)
    requires
        a.key != b.key,
    ensures
        precedes(a, b) || precedes(b, a),
{
    lemma_less_total(a.key, b.key, 0);
}

pub proof fn lemma_precedes_transitive(a: StoredItemView, b: StoredItemView, c: StoredItemView)
    requires
        precedes(a, b),
        precedes(b, c),
    ensures
        precedes(a, c),
{
    if text_less(a.key, b.key) && text_less(b.key, c.key) {
        lemma_less_transitive(a.key, b.key, c.key, 0);
    }
}

pub proof fn lemma_precedes_asymmetric(a: StoredItemView, b: StoredItemView)
    requires
        precedes(a, b),
    ensures
        !precedes(b, a),
{
    lemma_less_irreflexive(a.key, 0);
    if text_less(a.key, b.key) {
        lemma_less_asymmetric(a.key, b.key, 0);
    }
}

fn same_time(a: Option<Timestamp>, b: Option<Timestamp>) -> (r: bool)
    ensures
        r == (a == b),
{
    match (a, b) {
        (Some(x), Some(y)) => x.secs == y.secs && x.nanos == y.nanos,
        (None, None) => true,
        _ => false,
    }
}

/// Whether `a` comes before `b` in the output order.
pub fn item_precedes(a: &StoredItem, b: &StoredItem) -> (r: bool)
    ensures
        r == precedes(a@, b@),
{
    if a.likes_count != b.likes_count {
        return a.likes_count > b.likes_count;
    }
    let ta = select_updated_time(a);
    let tb = select_updated_time(b);
    let after = match (ta, tb) {
        (Some(x), Some(y)) => is_earlier(y, x),
        (Some(_), None) => true,
        _ => false,
    };
    after || (same_time(ta, tb) && text_is_less(&a.key, &b.key))
}

/// Index of the record that precedes every other one.
fn first_in_order(v: &Vec<StoredItem>) -> (m: usize)
    requires
        v@.len() > 0,
        unique_keys(v@),
    ensures
        m < v@.len(),
        forall|j: int| 0 <= j < v@.len() && j != m ==> precedes(v@[m as int]@, #[trigger] v@[j]@),
{
    let mut m: usize = 0;
    let mut j: usize = 1;
    while j < v.len()
        invariant
            m < j <= v@.len(),
            unique_keys(v@),
            forall|k: int| 0 <= k < j && k != m ==> precedes(v@[m as int]@, #[trigger] v@[k]@),
        decreases v.len() - j,
    {
        if item_precedes(&v[j], &v[m]) {
            proof {
                assert forall|k: int| 0 <= k < j + 1 && k != j implies precedes(v@[j as int]@, #[trigger] v@[k]@) by {
                    if k != m {
                        lemma_precedes_transitive(v@[j as int]@, v@[m as int]@, v@[k]@);
                    }
                }
            }
            m = j;
        } else {
            proof {
                lemma_precedes_total(v@[m as int]@, v@[j as int]@);
            }
        }
        j = j + 1;
    }
    m
}

pub open spec fn count_at_least(s: Seq<StoredItem>, min_likes: u32) -> nat
    decreases s.len(),
{
    if s.len() == 0 {
        0
    } else {
        count_at_least(s.drop_last(), min_likes) + if s.last().likes_count >= min_likes {
            1nat
        } else {
            0nat
        }
    }
}

/// `r` is a selection from `store`: as many records as allowed, each from the
/// store with at least `min_likes` likes, in output order, and ahead of every
/// qualifying record left out.
pub open spec fn is_selection(store: Seq<StoredItem>, min_likes: u32, max_entries: nat, r: Seq<StoredItem>) -> bool {
    &&& r.len() == min_nat(max_entries, count_at_least(store, min_likes))
    &&& forall|j: int| 0 <= j < r.len() ==> #[trigger] holds(store, r[j]@) && r[j].likes_count >= min_likes
    &&& forall|i: int, j: int| 0 <= i < j < r.len() ==> precedes(r[i]@, r[j]@)
    &&& forall|i: int, j: int| 0 <= i < store.len() && store[i].likes_count >= min_likes
        && !holds(r, store[i]@) && 0 <= j < r.len() ==> precedes(r[j]@, store[i]@)
}

/// The records of `store` with at least `min_likes` likes, in output order,
/// cut to the first `max_entries`.
pub fn select_top(store: &StateStore, min_likes: u32, max_entries: usize) -> (r: Vec<StoredItem>)
    requires
        store.wf(),
    ensures
        is_selection(store.items@, min_likes, max_entries as nat, r@),
{
    let ghost src = store.items@;
    let mut pool: Vec<StoredItem> = Vec::new();
    let mut i: usize = 0;
    while i < store.items.len()
        invariant
            store.items@ == src,
            unique_keys(src),
            i <= src.len(),
            pool@.len() == count_at_least(src.take(i as int), min_likes),
            unique_keys(pool@),
            forall|j: int| 0 <= j < pool@.len() ==> pool@[j].likes_count >= min_likes
                && exists|m: int| 0 <= m < i && #[trigger] src[m]@ == pool@[j]@,
            forall|m: int| 0 <= m < i && src[m].likes_count >= min_likes ==> holds(pool@, src[m]@),
        decreases src.len() - i,
    {
        assert(src.take(i + 1).drop_last() =~= src.take(i as int));
        if store.items[i].likes_count >= min_likes {
            let ghost before = pool@;
            let r = store.items[i].copy();
            proof {
                assert forall|j: int| 0 <= j < before.len() implies before[j].key@ != r.key@ by {
                    let m = choose|m: int| 0 <= m < i && #[trigger] src[m]@ == before[j]@;
                    assert(src[m].key@ == before[j].key@);
                }
            }
            pool.push(r);
            assert(pool@[before.len() as int]@ == src[i as int]@);
            assert(forall|j: int| 0 <= j < before.len() ==> pool@[j] == before[j]);
        }
        i = i + 1;
    }
    assert(src.take(i as int) =~= src);
    let ghost count = count_at_least(src, min_likes);
    assert forall|j: int| 0 <= j < pool@.len() implies #[trigger] holds(src, pool@[j]@) by {
        let m = choose|m: int| 0 <= m < i && #[trigger] src[m]@ == pool@[j]@;
    }
    let mut out: Vec<StoredItem> = Vec::new();
    while out.len() < max_entries && pool.len() > 0
        invariant
            unique_keys(pool@),
            out@.len() <= max_entries,
            out@.len() + pool@.len() == count,
            forall|j: int| 0 <= j < pool@.len() ==> #[trigger] holds(src, pool@[j]@) && pool@[j].likes_count >= min_likes,
            forall|j: int| 0 <= j < out@.len() ==> #[trigger] holds(src, out@[j]@) && out@[j].likes_count >= min_likes,
            forall|m: int| 0 <= m < src.len() && src[m].likes_count >= min_likes
                ==> holds(out@, src[m]@) || holds(pool@, src[m]@),
            forall|a: int, b: int| 0 <= a < b < out@.len() ==> precedes(out@[a]@, out@[b]@),
            forall|a: int, b: int| 0 <= a < out@.len() && 0 <= b < pool@.len() ==> precedes(out@[a]@, pool@[b]@),
        decreases pool.len(),
    {
        let m = first_in_order(&pool);
        let ghost before = pool@;
        let ghost out_before = out@;
        let x = pool.remove(m);
        out.push(x);
        proof {
            let after = pool@;
            assert(forall|k: int| 0 <= k < m ==> after[k] == before[k]);
            assert(forall|k: int| m <= k < after.len() ==> after[k] == before[k + 1]);
            assert(forall|k: int| 0 <= k < out_before.len() ==> out@[k] == out_before[k]);
            assert forall|j: int| 0 <= j < pool@.len() implies #[trigger] holds(src, pool@[j]@)
                && pool@[j].likes_count >= min_likes by {
                let jb = if j < m { j } else { j + 1 };
                assert(after[j] == before[jb]);
                assert(holds(src, before[jb]@));
            }
            assert forall|j: int| 0 <= j < out@.len() implies #[trigger] holds(src, out@[j]@)
                && out@[j].likes_count >= min_likes by {
                if j < out_before.len() {
                    assert(holds(src, out_before[j]@));
                } else {
                    assert(holds(src, before[m as int]@));
                }
            }
            assert forall|a: int, b: int| 0 <= a < out@.len() && 0 <= b < pool@.len()
                implies precedes(out@[a]@, pool@[b]@) by {
                let bb = if b < m { b } else { b + 1 };
                assert(after[b] == before[bb]);
                if a == out_before.len() {
                    assert(precedes(before[m as int]@, before[bb]@));
                }
            }
            assert forall|a: int, b: int| 0 <= a < b < out@.len() implies precedes(out@[a]@, out@[b]@) by {
                if b == out_before.len() {
                    assert(precedes(out_before[a]@, before[m as int]@));
                }
            }
            assert forall|k: int| 0 <= k < src.len() && src[k].likes_count >= min_likes
                implies holds(out@, src[k]@) || holds(pool@, src[k]@) by {
                if holds(out_before, src[k]@) {
                    let j0 = choose|j0: int| 0 <= j0 < out_before.len() && out_before[j0]@ == src[k]@;
                    assert(out@[j0]@ == src[k]@);
                } else {
                    let j0 = choose|j0: int| 0 <= j0 < before.len() && before[j0]@ == src[k]@;
                    if j0 < m {
                        assert(after[j0]@ == src[k]@);
                    } else if j0 > m {
                        assert(after[j0 - 1]@ == src[k]@);
                    } else {
                        assert(out@[out_before.len() as int]@ == src[k]@);
                    }
                }
            }
            assert forall|a: int, b: int| 0 <= a < after.len() && 0 <= b < after.len() && a != b
                implies after[a].key@ != after[b].key@ by {
                let ab = if a < m { a } else { a + 1 };
                let bb = if b < m { b } else { b + 1 };
                assert(after[a] == before[ab]);
                assert(after[b] == before[bb]);
            }
        }
    }
    proof {
        assert forall|i: int, j: int| 0 <= i < src.len() && src[i].likes_count >= min_likes
            && !holds(out@, src[i]@) && 0 <= j < out@.len() implies precedes(out@[j]@, src[i]@) by {
            let b = choose|b: int| 0 <= b < pool@.len() && pool@[b]@ == src[i]@;
        }
    }
    out
}

/// The selection is determined by the store alone: any two sequences that are
/// selections from the same store, with the same bounds, hold the same records
/// in the same order.
pub proof fn lemma_selection_unique(
    store: Seq<StoredItem>,
    min_likes: u32,
    max_entries: nat,
    r1: Seq<StoredItem>,
    r2: Seq<StoredItem>,
)
    requires
        unique_keys(store),
        is_selection(store, min_likes, max_entries, r1),
        is_selection(store, min_likes, max_entries, r2),
    ensures
        r1.len() == r2.len(),
        forall|i: int| 0 <= i < r1.len() ==> #[trigger] r1[i]@ == r2[i]@,
{
    lemma_selection_prefix(store, min_likes, max_entries, r1, r2, r1.len() as int);
}

/// Two selections from the same store agree on their first `k` records.
proof fn lemma_selection_prefix(
    store: Seq<StoredItem>,
    min_likes: u32,
    max_entries: nat,
    r1: Seq<StoredItem>,
    r2: Seq<StoredItem>,
    k: int,
)
    requires
        unique_keys(store),
        is_selection(store, min_likes, max_entries, r1),
        is_selection(store, min_likes, max_entries, r2),
        0 <= k <= r1.len(),
    ensures
        r1.len() == r2.len(),
        forall|i: int| 0 <= i < k ==> #[trigger] r1[i]@ == r2[i]@,
    decreases k,
{
    if k > 0 {
        lemma_selection_prefix(store, min_likes, max_entries, r1, r2, k - 1);
        let a = r1[k - 1]@;
        let b = r2[k - 1]@;
        if a != b {
            assert(holds(store, r1[k - 1]@));
            assert(holds(store, r2[k - 1]@));
            let p = choose|p: int| 0 <= p < store.len() && store[p]@ == a;
            let q = choose|q: int| 0 <= q < store.len() && store[q]@ == b;
            assert(p != q);
            assert(a.key != b.key);
            lemma_precedes_total(a, b);
            lemma_not_ahead(store, min_likes, max_entries, r1, r2, k - 1, p);
            lemma_not_ahead(store, min_likes, max_entries, r2, r1, k - 1, q);
        }
    }
}

/// Where two selections agree before position `k` and differ at `k`, the first
/// one's record at `k` (store index `p`) does not come ahead of the second one's.
proof fn lemma_not_ahead(
    store: Seq<StoredItem>,
    min_likes: u32,
    max_entries: nat,
    r1: Seq<StoredItem>,
    r2: Seq<StoredItem>,
    k: int,
    p: int,
)
    requires
        is_selection(store, min_likes, max_entries, r1),
        is_selection(store, min_likes, max_entries, r2),
        r1.len() == r2.len(),
        0 <= k < r1.len(),
        forall|i: int| 0 <= i < k ==> #[trigger] r1[i]@ == r2[i]@,
        0 <= p < store.len(),
        store[p]@ == r1[k]@,
        r1[k]@ != r2[k]@,
    ensures
        !precedes(r1[k]@, r2[k]@),
{
    if precedes(r1[k]@, r2[k]@) {
        lemma_precedes_asymmetric(r1[k]@, r2[k]@);
        assert(holds(store, r1[k]@));
        assert(store[p].likes_count >= min_likes);
        if holds(r2, store[p]@) {
            let j = choose|j: int| 0 <= j < r2.len() && r2[j]@ == store[p]@;
            if j < k {
                assert(r1[j]@ == r2[j]@);
                assert(precedes(r1[j]@, r1[k]@));
                lemma_precedes_asymmetric(r1[j]@, r1[k]@);
            } else if j > k {
                assert(precedes(r2[k]@, r2[j]@));
            }
        } else {
            assert(precedes(r2[k]@, store[p]@));
        }
    }
}

} // verus!
