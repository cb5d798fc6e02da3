//! A mathematical model of a least-recently-used cache.
//!
//! A cache is modelled as the sequence of its entries, most recently used
//! first, together with its capacity. The keys of a cache are distinct and
//! the cache never holds more entries than its capacity.
use vstd::prelude::*;

verus! {

/// `k` is the key of some entry of `s`.
pub open spec fn has_key<K, V>(s: Seq<(K, V)>, k: K) -> bool {
    exists|i: int| 0 <= i < s.len() && #[trigger] s[i].0 == k
}

/// The position of the entry with key `k` (meaningful when `has_key(s, k)`).
pub open spec fn key_index<K, V>(s: Seq<(K, V)>, k: K) -> int {
    choose|i: int| 0 <= i < s.len() && #[trigger] s[i].0 == k
}

/// No two entries share a key.
pub open spec fn keys_distinct<K, V>(s: Seq<(K, V)>) -> bool {
    forall|i: int, j: int|
        0 <= i < s.len() && 0 <= j < s.len() && i != j ==> #[trigger] s[i].0 != #[trigger] s[j].0
}

/// A well-formed cache of capacity `cap`.
pub open spec fn cache_wf<K, V>(s: Seq<(K, V)>, cap: nat) -> bool {
    &&& keys_distinct(s)
    &&& s.len() <= cap
    &&& cap > 0
}

/// The value stored under `k`, if any.
pub open spec fn lookup<K, V>(s: Seq<(K, V)>, k: K) -> Option<V> {
    if has_key(s, k) {
        Some(s[key_index(s, k)].1)
    } else {
        None
    }
}

/// The cache as a finite map from keys to values, forgetting recency.
pub open spec fn as_map<K, V>(s: Seq<(K, V)>) -> Map<K, V> {
    Map::new(|k: K| has_key(s, k), |k: K| lookup(s, k)->0)
}

/// Reading `k` makes its entry the most recently used one; the cache is
/// unchanged when `k` is absent.
pub open spec fn promote<K, V>(s: Seq<(K, V)>, k: K) -> Seq<(K, V)> {
    if has_key(s, k) {
        seq![s[key_index(s, k)]] + s.remove(key_index(s, k))
    } else {
        s
    }
}

/// Storing `v` under `k`: an existing entry for `k` is replaced and becomes
/// the most recently used one; otherwise a new entry is added in front,
/// and when the cache is full the least recently used entry is evicted.
pub open spec fn put<K, V>(s: Seq<(K, V)>, cap: nat, k: K, v: V) -> Seq<(K, V)> {
    if has_key(s, k) {
        seq![(k, v)] + s.remove(key_index(s, k))
    } else if s.len() < cap {
        seq![(k, v)] + s
    } else {
        seq![(k, v)] + s.drop_last()
    }
}

/// Reading `k`, inserting `d` first when `k` is absent.
pub open spec fn get_or_insert<K, V>(s: Seq<(K, V)>, cap: nat, k: K, d: V) -> Seq<(K, V)> {
    if has_key(s, k) {
        promote(s, k)
    } else {
        put(s, cap, k, d)
    }
}

/// The entry at `i` is the one for its key.
pub proof fn lemma_key_index<K, V>(s: Seq<(K, V)>, i: int)
    requires
        keys_distinct(s),
        0 <= i < s.len(),
    ensures
        has_key(s, s[i].0),
        key_index(s, s[i].0) == i,
        lookup(s, s[i].0) == Some(s[i].1),
{
    assert(has_key(s, s[i].0));
}

/// What `put` does to the other keys, the size and the well-formedness.
pub proof fn lemma_put<K, V>(s: Seq<(K, V)>, cap: nat, k: K, v: V)
    requires
        cache_wf(s, cap),
    ensures
        ({
            let r = put(s, cap, k, v);
            &&& cache_wf(r, cap)
            &&& r[0] == (k, v)
            &&& lookup(r, k) == Some(v)
            &&& key_index(r, k) == 0
            &&& r.len() == if has_key(s, k) || s.len() == cap {
                s.len() as int
            } else {
                s.len() + 1int
            }
            &&& forall|k2: K| k2 != k && has_key(r, k2) ==> #[trigger] lookup(r, k2) == lookup(s, k2)
            &&& (has_key(s, k) || s.len() < cap) ==> forall|k2: K|
                #[trigger] has_key(s, k2) ==> has_key(r, k2)
            &&& (has_key(s, k) || s.len() < cap) ==> as_map(r) == as_map(s).insert(k, v)
        }),
{
    let r = put(s, cap, k, v);
    let p = key_index(s, k);
    if has_key(s, k) {
        lemma_key_index(s, p);
    }
    assert forall|i: int, j: int|
        0 <= i < r.len() && 0 <= j < r.len() && i != j implies #[trigger] r[i].0 != #[trigger] r[j].0 by {
        if i > 0 && j > 0 {
            if has_key(s, k) {
                let a = if i - 1 < p { i - 1 } else { i };
                let b = if j - 1 < p { j - 1 } else { j };
                assert(r[i] == s[a]);
                assert(r[j] == s[b]);
            } else {
                assert(r[i] == s[i - 1]);
                assert(r[j] == s[j - 1]);
            }
        } else if i == 0 {
            if has_key(s, k) {
                let b = if j - 1 < p { j - 1 } else { j };
                assert(r[j] == s[b]);
            } else {
                assert(r[j] == s[j - 1]);
            }
        } else {
            if has_key(s, k) {
                let a = if i - 1 < p { i - 1 } else { i };
                assert(r[i] == s[a]);
            } else {
                assert(r[i] == s[i - 1]);
            }
        }
    }
    lemma_key_index(r, 0);
    assert forall|k2: K| k2 != k && has_key(r, k2) implies #[trigger] lookup(r, k2) == lookup(s, k2) by {
        let j = key_index(r, k2);
        lemma_key_index(r, j);
        let b = if has_key(s, k) {
            if j - 1 < p { j - 1 } else { j }
        } else {
            j - 1
        };
        assert(r[j] == s[b]);
        lemma_key_index(s, b);
    }
    if has_key(s, k) || s.len() < cap {
        assert forall|k2: K| #[trigger] has_key(s, k2) implies has_key(r, k2) by {
            let i = key_index(s, k2);
            if k2 != k {
                let j = if has_key(s, k) {
                    if i < p { i + 1 } else { i }
                } else {
                    i + 1
                };
                assert(r[j] == s[i]);
            }
        }
        assert(as_map(r) =~= as_map(s).insert(k, v));
    }
}

/// What `promote` does: same entries, `k` first.
pub proof fn lemma_promote<K, V>(s: Seq<(K, V)>, cap: nat, k: K)
    requires
        cache_wf(s, cap),
        has_key(s, k),
    ensures
        ({
            let r = promote(s, k);
            &&& r == put(s, cap, k, lookup(s, k)->0)
            &&& cache_wf(r, cap)
            &&& as_map(r) == as_map(s)
        }),
{
    let p = key_index(s, k);
    lemma_key_index(s, p);
    lemma_put(s, cap, k, s[p].1);
    assert(as_map(s).insert(k, s[p].1) =~= as_map(s));
}

/// Putting under a key that a read just moved to the front replaces the
/// first entry, whatever value the read inserted.
pub proof fn lemma_put_over_read<K, V>(s: Seq<(K, V)>, cap: nat, k: K, d: V, v: V)
    requires
        cache_wf(s, cap),
    ensures
        cache_wf(get_or_insert(s, cap, k, d), cap),
        put(get_or_insert(s, cap, k, d), cap, k, v) == put(s, cap, k, v),
{
    let g = get_or_insert(s, cap, k, d);
    if has_key(s, k) {
        let p = key_index(s, k);
        lemma_key_index(s, p);
        lemma_promote(s, cap, k);
        lemma_put(s, cap, k, s[p].1);
    } else {
        lemma_put(s, cap, k, d);
    }
    lemma_put(g, cap, k, v);
    lemma_put(s, cap, k, v);
    assert(put(g, cap, k, v) =~= put(s, cap, k, v));
}

/// A cache of capacity `cap` that starts empty and gets the entries `rs`
/// put in order.
pub open spec fn fill<K, V>(cap: nat, rs: Seq<(K, V)>) -> Seq<(K, V)>
    decreases rs.len(),
{
    if rs.len() == 0 {
        seq![]
    } else {
        put(fill(cap, rs.drop_last()), cap, rs.last().0, rs.last().1)
    }
}

/// Filling a cache is a well-formed cache.
pub proof fn lemma_fill_wf<K, V>(cap: nat, rs: Seq<(K, V)>)
    requires
        cap > 0,
    ensures
        cache_wf(fill(cap, rs), cap),
    decreases rs.len(),
{
    if rs.len() > 0 {
        lemma_fill_wf(cap, rs.drop_last());
        lemma_put(fill(cap, rs.drop_last()), cap, rs.last().0, rs.last().1);
    }
}

/// Law: entries with distinct keys that fit in the capacity all survive
/// being put into an empty cache, each with its own value.
pub proof fn lemma_fill_keeps_all<K, V>(cap: nat, rs: Seq<(K, V)>)
    requires
        cap > 0,
        keys_distinct(rs),
        rs.len() <= cap,
    ensures
        cache_wf(fill(cap, rs), cap),
        fill(cap, rs).len() == rs.len(),
        as_map(fill(cap, rs)) == as_map(rs),
    decreases rs.len(),
{
    lemma_fill_wf(cap, rs);
    if rs.len() == 0 {
        assert(as_map(fill(cap, rs)) =~= as_map(rs));
    } else {
        let t = rs.drop_last();
        let e = rs.last();
        let n = rs.len() - 1;
        assert(keys_distinct(t));
        lemma_fill_keeps_all(cap, t);
        lemma_key_index(rs, n);
        assert(!has_key(t, e.0)) by {
            if has_key(t, e.0) {
                let i = key_index(t, e.0);
                assert(t[i] == rs[i]);
            }
        }
        let f = fill(cap, t);
        assert(!has_key(f, e.0)) by {
            if has_key(f, e.0) {
                assert(as_map(f).dom().contains(e.0));
            }
        }
        lemma_put(f, cap, e.0, e.1);
        assert forall|k: K| has_key(rs, k) <==> (has_key(t, k) || k == e.0) by {
            if has_key(rs, k) && k != e.0 {
                let i = key_index(rs, k);
                assert(t[i] == rs[i]);
            }
            if has_key(t, k) {
                let i = key_index(t, k);
                assert(rs[i] == t[i]);
            }
        }
        assert forall|k: K| has_key(t, k) implies lookup(rs, k) == lookup(t, k) by {
            let i = key_index(t, k);
            lemma_key_index(t, i);
            assert(rs[i] == t[i]);
            lemma_key_index(rs, i);
        }
        assert(as_map(rs) =~= as_map(t).insert(e.0, e.1));
    }
}

/// Every entry after a `put` is the stored one or was already in the cache.
pub proof fn lemma_put_entries<K, V>(s: Seq<(K, V)>, cap: nat, k: K, v: V)
    requires
        cache_wf(s, cap),
    ensures
        forall|i: int|
            0 <= i < put(s, cap, k, v).len() ==> #[trigger] put(s, cap, k, v)[i] == (k, v)
                || s.contains(put(s, cap, k, v)[i]),
{
    let r = put(s, cap, k, v);
    let p = key_index(s, k);
    if has_key(s, k) {
        lemma_key_index(s, p);
    }
    assert forall|i: int| 0 <= i < r.len() implies #[trigger] r[i] == (k, v) || s.contains(r[i]) by {
        if i > 0 {
            let j = if has_key(s, k) {
                if i - 1 < p { i - 1 } else { i }
            } else {
                i - 1
            };
            assert(r[i] == s[j]);
        }
    }
}

} // verus!
