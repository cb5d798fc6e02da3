//! Which senders get blocked, and what blocking does to their statistics.
use crate::lru_model::{
    as_map, cache_wf, has_key, key_index, keys_distinct, lemma_key_index, lemma_promote, lemma_put,
    lookup, put,
};
use crate::stats::{block_rule, IpKey, IpStats};
use vstd::prelude::*;

verus! {

/// The keys of the entries that the blocking rule picks, in cache order
/// (most recently used first).
pub open spec fn block_keys(s: Seq<(IpKey, IpStats)>) -> Seq<IpKey>
    decreases s.len(),
{
    if s.len() == 0 {
        seq![]
    } else {
        let r = block_keys(s.drop_last());
        if block_rule(s.last().1) {
            r.push(s.last().0)
        } else {
            r
        }
    }
}

/// Marking one address blocked: its entry, when there is one, is read
/// (which makes it the most recently used) and gets `blocked` set.
pub open spec fn mark_one(s: Seq<(IpKey, IpStats)>, cap: nat, k: IpKey) -> Seq<(IpKey, IpStats)> {
    match lookup(s, k) {
        Some(st) => put(s, cap, k, st.with_blocked()),
        None => s,
    }
}

/// Marking the addresses `ks` blocked, in order.
pub open spec fn mark_blocked(s: Seq<(IpKey, IpStats)>, cap: nat, ks: Seq<IpKey>) -> Seq<(IpKey, IpStats)>
    decreases ks.len(),
{
    if ks.len() == 0 {
        s
    } else {
        mark_one(mark_blocked(s, cap, ks.drop_last()), cap, ks.last())
    }
}

/// What blocking leaves of one sender's statistics.
pub open spec fn after_block(st: IpStats) -> IpStats {
    if block_rule(st) {
        st.with_blocked()
    } else {
        st
    }
}

/// The statistics of every address once the picked ones are blocked.
pub open spec fn blocked_map(m: Map<IpKey, IpStats>) -> Map<IpKey, IpStats> {
    Map::new(|k: IpKey| m.dom().contains(k), |k: IpKey| after_block(m[k]))
}

/// The picked keys are distinct keys of the cache, each picked by the rule,
/// and every key that the rule picks is among them.
pub proof fn lemma_block_keys(s: Seq<(IpKey, IpStats)>)
    requires
        keys_distinct(s),
    ensures
        block_keys(s).no_duplicates(),
        forall|k: IpKey| #[trigger]
            block_keys(s).contains(k) <==> (has_key(s, k) && block_rule(lookup(s, k)->0)),
    decreases s.len(),
{
    if s.len() > 0 {
        let t = s.drop_last();
        let e = s.last();
        assert(keys_distinct(t));
        lemma_block_keys(t);
        let n = (s.len() - 1) as int;
        lemma_key_index(s, n);
        assert forall|k: IpKey| #[trigger] has_key(t, k) implies has_key(s, k) && lookup(s, k) == lookup(t, k) && k != e.0 by {
            let i = key_index(t, k);
            lemma_key_index(t, i);
            lemma_key_index(s, i);
        }
        assert forall|k: IpKey| #[trigger] has_key(s, k) && k != e.0 implies has_key(t, k) by {
            let i = key_index(s, k);
            assert(t[i] == s[i]);
        }
        let r = block_keys(s);
        assert forall|k: IpKey| #[trigger]
            r.contains(k) <==> (has_key(s, k) && block_rule(lookup(s, k)->0)) by {
            if k == e.0 {
                assert(!has_key(t, k));
                assert(!block_keys(t).contains(k));
                if block_rule(e.1) {
                    assert(r[r.len() - 1] == k);
                }
            } else {
                if block_rule(e.1) {
                    if r.contains(k) {
                        let j = choose|j: int| 0 <= j < r.len() && r[j] == k;
                        assert(block_keys(t)[j] == k);
                    }
                    if block_keys(t).contains(k) {
                        let j = choose|j: int| 0 <= j < block_keys(t).len() && block_keys(t)[j] == k;
                        assert(r[j] == k);
                    }
                }
            }
        }
        if block_rule(e.1) {
            assert(!block_keys(t).contains(e.0));
            assert forall|i: int, j: int| 0 <= i < r.len() && 0 <= j < r.len() && i != j implies r[i] != r[j] by {
                if i == r.len() - 1 {
                    assert(block_keys(t).contains(r[j]));
                } else if j == r.len() - 1 {
                    assert(block_keys(t).contains(r[i]));
                }
            }
        }
    }
}

/// Marking distinct keys of the cache blocked keeps it well formed, keeps
/// its keys, sets `blocked` on exactly those keys and changes nothing else.
pub proof fn lemma_mark_blocked(s: Seq<(IpKey, IpStats)>, cap: nat, ks: Seq<IpKey>)
    requires
        cache_wf(s, cap),
        ks.no_duplicates(),
        forall|k: IpKey| #[trigger] ks.contains(k) ==> has_key(s, k),
    ensures
        cache_wf(mark_blocked(s, cap, ks), cap),
        as_map(mark_blocked(s, cap, ks)) == Map::new(
            |k: IpKey| as_map(s).dom().contains(k),
            |k: IpKey|
                if ks.contains(k) {
                    as_map(s)[k].with_blocked()
                } else {
                    as_map(s)[k]
                },
        ),
    decreases ks.len(),
{
    if ks.len() == 0 {
        assert(as_map(s) =~= Map::new(
            |k: IpKey| as_map(s).dom().contains(k),
            |k: IpKey|
                if ks.contains(k) {
                    as_map(s)[k].with_blocked()
                } else {
                    as_map(s)[k]
                },
        ));
    } else {
        let init = ks.drop_last();
        let k = ks.last();
        assert forall|x: IpKey| #[trigger] init.contains(x) implies has_key(s, x) by {
            let j = choose|j: int| 0 <= j < init.len() && init[j] == x;
            assert(ks[j] == x);
            assert(ks.contains(x));
        }
        assert(ks.contains(k)) by {
            assert(ks[ks.len() - 1] == k);
        }
        assert(!init.contains(k)) by {
            if init.contains(k) {
                let j = choose|j: int| 0 <= j < init.len() && init[j] == k;
                assert(ks[j] == ks[ks.len() - 1]);
            }
        }
        lemma_mark_blocked(s, cap, init);
        let m = mark_blocked(s, cap, init);
        assert(as_map(m).dom().contains(k));
        assert(has_key(m, k));
        let st = lookup(m, k)->0;
        lemma_put(m, cap, k, st.with_blocked());
        assert(mark_blocked(s, cap, ks) == put(m, cap, k, st.with_blocked()));
        assert(as_map(m)[k] == st);
        assert(as_map(s)[k] == st);
        assert(as_map(mark_blocked(s, cap, ks)) =~= Map::new(
            |x: IpKey| as_map(s).dom().contains(x),
            |x: IpKey|
                if ks.contains(x) {
                    as_map(s)[x].with_blocked()
                } else {
                    as_map(s)[x]
                },
        )) by {
            assert forall|x: IpKey| ks.contains(x) <==> (init.contains(x) || x == k) by {
                if ks.contains(x) && x != k {
                    let j = choose|j: int| 0 <= j < ks.len() && ks[j] == x;
                    assert(init[j] == x);
                }
                if init.contains(x) {
                    let j = choose|j: int| 0 <= j < init.len() && init[j] == x;
                    assert(ks[j] == x);
                }
            }
        }
    }
}

/// Law: blocking keeps every address of the cache and the well-formedness
/// of the cache; the statistics of each address become `after_block` of
/// what they were, so exactly the addresses that the rule picked are now
/// blocked; and once that is done the rule picks no address any more.
pub proof fn lemma_blocking(s: Seq<(IpKey, IpStats)>, cap: nat)
    requires
        cache_wf(s, cap),
    ensures
        cache_wf(mark_blocked(s, cap, block_keys(s)), cap),
        as_map(mark_blocked(s, cap, block_keys(s))) == blocked_map(as_map(s)),
        block_keys(mark_blocked(s, cap, block_keys(s))) == Seq::<IpKey>::empty(),
{
    let ks = block_keys(s);
    lemma_block_keys(s);
    lemma_mark_blocked(s, cap, ks);
    let r = mark_blocked(s, cap, ks);
    assert(as_map(r) =~= blocked_map(as_map(s)));
    lemma_block_keys(r);
    if block_keys(r).len() > 0 {
        let k = block_keys(r)[0];
        assert(block_keys(r).contains(k));
        assert(as_map(r).dom().contains(k));
        assert(as_map(r)[k] == lookup(r, k)->0);
    }
}

} // verus!
