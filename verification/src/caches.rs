//! The two least-recently-used caches of the `lru` crate that the state
//! keeps, and what each call made on them does, stated over the model of
//! `lru_model`. The contents of a cache are named (`*_entries`, most
//! recently used first) together with the capacity it was made with.
use crate::lru_model::{get_or_insert, lookup, promote, put};
use crate::stats::{IpKey, IpStats, SignatureKey};
use lru::LruCache;
use std::num::NonZeroUsize;
use vstd::prelude::*;

verus! {

#[verifier::external_type_specification]
#[verifier::external_body]
#[verifier::reject_recursive_types(K)]
#[verifier::reject_recursive_types(V)]
#[verifier::reject_recursive_types(S)]
pub struct ExLruCache<K, V, S>(lru::LruCache<K, V, S>);

#[verifier::external_type_specification]
#[verifier::external_body]
pub struct ExDefaultHasher(lru::DefaultHasher);

/// The entries of a signature cache, most recently used first.
pub uninterp spec fn lookup_entries(c: LruCache<SignatureKey, IpKey>) -> Seq<(SignatureKey, IpKey)>;

/// The capacity that a signature cache was made with.
pub uninterp spec fn lookup_capacity(c: LruCache<SignatureKey, IpKey>) -> nat;

/// The entries of a statistics cache, most recently used first.
pub uninterp spec fn stats_entries(c: LruCache<IpKey, IpStats>) -> Seq<(IpKey, IpStats)>;

/// The capacity that a statistics cache was made with.
pub uninterp spec fn stats_capacity(c: LruCache<IpKey, IpStats>) -> nat;

/// `LruCache::new`, for a signature cache: made empty with capacity `cap`
/// when `cap` is not zero (no cache otherwise: `NonZeroUsize::new` refuses).
#[verifier::external_body]
pub(crate) fn lookup_with_capacity(cap: usize) -> (r: Option<LruCache<SignatureKey, IpKey>>)
    ensures
        r is Some <==> cap > 0,
        r matches Some(c) ==> lookup_entries(c) == Seq::<(SignatureKey, IpKey)>::empty()
            && lookup_capacity(c) == cap,
{
    match NonZeroUsize::new(cap) {
        Some(cap) => Some(LruCache::new(cap)),
        None => None,
    }
}

/// `LruCache::put` on a signature cache: stores `v` under `k` as the most
/// recently used entry, evicting the least recently used one when a new key
/// meets a full cache; gives back the value that `k` had.
#[verifier::external_body]
pub(crate) fn lookup_put(c: &mut LruCache<SignatureKey, IpKey>, k: SignatureKey, v: IpKey) -> (r: Option<IpKey>)
    ensures
        lookup_entries(*final(c)) == put(
            lookup_entries(*old(c)),
            lookup_capacity(*old(c)),
            k,
            v,
        ),
        lookup_capacity(*final(c)) == lookup_capacity(*old(c)),
        r == lookup(lookup_entries(*old(c)), k),
{
    c.put(k, v)
}

/// `LruCache::get` on a signature cache: the value under `k`, whose entry
/// becomes the most recently used one.
#[verifier::external_body]
pub(crate) fn lookup_get(c: &mut LruCache<SignatureKey, IpKey>, k: &SignatureKey) -> (r: Option<IpKey>)
    ensures
        lookup_entries(*final(c)) == promote(lookup_entries(*old(c)), *k),
        lookup_capacity(*final(c)) == lookup_capacity(*old(c)),
        r == lookup(lookup_entries(*old(c)), *k),
{
    c.get(k).copied()
}

/// `LruCache::peek` on a signature cache: the value under `k`, with no
/// change to the recency order.
#[verifier::external_body]
pub(crate) fn lookup_peek(c: &LruCache<SignatureKey, IpKey>, k: &SignatureKey) -> (r: Option<IpKey>)
    ensures
        r == lookup(lookup_entries(*c), *k),
{
    c.peek(k).copied()
}

/// `LruCache::new`, for a statistics cache: made empty with capacity `cap`
/// when `cap` is not zero.
#[verifier::external_body]
pub(crate) fn stats_with_capacity(cap: usize) -> (r: Option<LruCache<IpKey, IpStats>>)
    ensures
        r is Some <==> cap > 0,
        r matches Some(c) ==> stats_entries(c) == Seq::<(IpKey, IpStats)>::empty()
            && stats_capacity(c) == cap,
{
    match NonZeroUsize::new(cap) {
        Some(cap) => Some(LruCache::new(cap)),
        None => None,
    }
}

/// `LruCache::put` on a statistics cache (see `lookup_put`).
#[verifier::external_body]
pub(crate) fn stats_put(c: &mut LruCache<IpKey, IpStats>, k: IpKey, v: IpStats) -> (r: Option<IpStats>)
    ensures
        stats_entries(*final(c)) == put(stats_entries(*old(c)), stats_capacity(*old(c)), k, v),
        stats_capacity(*final(c)) == stats_capacity(*old(c)),
        r == lookup(stats_entries(*old(c)), k),
{
    c.put(k, v)
}

/// `LruCache::get` on a statistics cache (see `lookup_get`).
#[verifier::external_body]
pub(crate) fn stats_get(c: &mut LruCache<IpKey, IpStats>, k: &IpKey) -> (r: Option<IpStats>)
    ensures
        stats_entries(*final(c)) == promote(stats_entries(*old(c)), *k),
        stats_capacity(*final(c)) == stats_capacity(*old(c)),
        r == lookup(stats_entries(*old(c)), *k),
{
    c.get(k).copied()
}

/// `LruCache::get_or_insert_mut` on a statistics cache, with
/// `IpStats::default` to fill a missing entry: the entry for `k` becomes
/// the most recently used one, made from the default when absent (which
/// may evict the least recently used entry); gives back a copy of its value.
#[verifier::external_body]
pub(crate) fn stats_get_or_insert(c: &mut LruCache<IpKey, IpStats>, k: IpKey) -> (r: IpStats)
    ensures
        stats_entries(*final(c)) == get_or_insert(
            stats_entries(*old(c)),
            stats_capacity(*old(c)),
            k,
            IpStats::zero(),
        ),
        stats_capacity(*final(c)) == stats_capacity(*old(c)),
        r == (match lookup(stats_entries(*old(c)), k) {
            Some(s) => s,
            None => IpStats::zero(),
        }),
{
    *c.get_or_insert_mut(k, IpStats::default)
}

/// `LruCache::peek` on a statistics cache (see `lookup_peek`).
#[verifier::external_body]
pub(crate) fn stats_peek(c: &LruCache<IpKey, IpStats>, k: &IpKey) -> (r: Option<IpStats>)
    ensures
        r == lookup(stats_entries(*c), *k),
{
    c.peek(k).copied()
}

/// `LruCache::iter` on a statistics cache, collected: the entries, most
/// recently used first, with no change to the cache.
#[verifier::external_body]
pub(crate) fn stats_list(c: &LruCache<IpKey, IpStats>) -> (r: Vec<(IpKey, IpStats)>)
    ensures
        r@ == stats_entries(*c),
{
    c.iter().map(|(k, v)| (*k, *v)).collect()
}

/// `LruCache::clear` on a statistics cache: no entries left, same capacity.
#[verifier::external_body]
pub(crate) fn stats_clear(c: &mut LruCache<IpKey, IpStats>)
    ensures
        stats_entries(*final(c)) == Seq::<(IpKey, IpStats)>::empty(),
        stats_capacity(*final(c)) == stats_capacity(*old(c)),
{
    c.clear()
}

} // verus!
