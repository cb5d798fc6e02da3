//! The tracker's state: the validator's position in its epoch and leader
//! schedule, the sender of each recent signature, and the statistics of
//! each recent sender.
use crate::blocklist::{block_keys, mark_blocked};
use crate::caches::{
    lookup_entries, lookup_capacity, lookup_get, lookup_peek, lookup_put, lookup_with_capacity,
    stats_capacity, stats_clear, stats_entries, stats_get, stats_get_or_insert, stats_list,
    stats_peek, stats_put, stats_with_capacity,
};
use crate::lru_model::{
    as_map, cache_wf, fill, get_or_insert, has_key, key_index, lemma_fill_keeps_all,
    lemma_key_index, lemma_promote, lemma_put, lemma_put_entries, lemma_put_over_read, lookup,
    promote, put,
};
use crate::schedule::{lemma_near_leader_sorted, near_leader, near_leader_spec, sorted};
use crate::stats::{
    lemma_counters_consistent, lemma_running_avg_between, running_avg, IpAddr, IpKey, IpStats,
    Signature, SignatureKey,
};
use lru::LruCache;
use vstd::prelude::*;

verus! {

/// Capacity of each cache of a default state.
pub const DEFAULT_CAPACITY: usize = 100000;

/// The state as the contracts see it.
pub struct StateView {
    pub identity: Seq<char>,
    pub current_slot: u64,
    pub current_epoch: u64,
    pub current_epoch_start_slot: u64,
    pub near_leader_slots: bool,
    pub leader_schedule: Seq<u64>,
    /// Signature to sender, most recently used first.
    pub ip_lookup: Seq<(SignatureKey, IpKey)>,
    pub lookup_capacity: nat,
    /// Sender to statistics, most recently used first.
    pub ip_stats: Seq<(IpKey, IpStats)>,
    pub stats_capacity: nat,
}

/// The slots of a leader schedule, given relative to the epoch start, made
/// absolute.
pub open spec fn shifted(relative: Seq<u64>, start: u64) -> Seq<u64> {
    relative.map_values(|x: u64| (x + start) as u64)
}

/// The schedule can be made absolute without overflow.
pub open spec fn shift_fits(relative: Seq<u64>, start: u64) -> bool {
    forall|j: int| 0 <= j < relative.len() ==> relative[j] + start <= u64::MAX
}

/// Entry `i` is the first whose name is `id`.
pub open spec fn is_first_match(entries: Seq<(String, Vec<u64>)>, id: Seq<char>, i: int) -> bool {
    &&& 0 <= i < entries.len()
    &&& entries[i].0@ == id
    &&& forall|j: int| 0 <= j < i ==> #[trigger] entries[j].0@ != id
}

/// The records as the cache keys them.
pub open spec fn keyed(records: Seq<(IpAddr, IpStats)>) -> Seq<(IpKey, IpStats)> {
    records.map_values(|e: (IpAddr, IpStats)| (e.0.key(), e.1))
}

/// The cache entries as records.
pub open spec fn unkeyed(entries: Seq<(IpKey, IpStats)>) -> Seq<(IpAddr, IpStats)> {
    entries.map_values(|e: (IpKey, IpStats)| (IpAddr::of_key(e.0), e.1))
}

impl StateView {
    /// Both caches are well formed.
    pub open spec fn wf(self) -> bool {
        &&& cache_wf(self.ip_lookup, self.lookup_capacity)
        &&& cache_wf(self.ip_stats, self.stats_capacity)
    }

    /// A fresh state: nothing seen yet, both caches empty.
    pub open spec fn initial(identity: Seq<char>, capacity: nat) -> StateView {
        StateView {
            identity,
            current_slot: 0,
            current_epoch: 0,
            current_epoch_start_slot: 0,
            near_leader_slots: false,
            leader_schedule: Seq::empty(),
            ip_lookup: Seq::empty(),
            lookup_capacity: capacity,
            ip_stats: Seq::empty(),
            stats_capacity: capacity,
        }
    }

    /// The statistics of `k`, or those of an unseen sender.
    pub open spec fn stats_for(self, k: IpKey) -> IpStats {
        match lookup(self.ip_stats, k) {
            Some(s) => s,
            None => IpStats::zero(),
        }
    }

    /// The counters that `usertx` raises do not overflow.
    pub open spec fn usertx_fits(self, ip: IpAddr, signature: Signature) -> bool {
        has_key(self.ip_lookup, signature.bytes) ==> self.stats_for(ip.key()).duplicate_fits(
            self.near_leader_slots,
        )
    }

    /// After `ip` sent `signature`: the signature now maps to `ip`, and if it
    /// had been seen before, `ip` gets one more duplicate.
    pub open spec fn after_usertx(self, ip: IpAddr, signature: Signature) -> StateView {
        let ip_lookup = put(self.ip_lookup, self.lookup_capacity, signature.bytes, ip.key());
        if has_key(self.ip_lookup, signature.bytes) {
            StateView {
                ip_lookup,
                ip_stats: put(
                    self.ip_stats,
                    self.stats_capacity,
                    ip.key(),
                    self.stats_for(ip.key()).with_duplicate(self.near_leader_slots),
                ),
                ..self
            }
        } else {
            StateView { ip_lookup, ..self }
        }
    }

    /// The counters and sums that `fee` computes do not overflow.
    pub open spec fn fee_fits(self, signature: Signature, cu_limit: u64, cu_used: u64, fee: u64) -> bool {
        match lookup(self.ip_lookup, signature.bytes) {
            Some(k) => self.stats_for(k).fee_fits(self.near_leader_slots, cu_limit, cu_used, fee),
            None => true,
        }
    }

    /// After the senders that the blocking rule picks are marked blocked.
    pub open spec fn after_blocklist(self) -> StateView {
        StateView {
            ip_stats: mark_blocked(self.ip_stats, self.stats_capacity, block_keys(self.ip_stats)),
            ..self
        }
    }

    /// After taking in epoch information: the slot is `absolute_slot`; on a
    /// new epoch, the epoch and its start slot change too.
    pub open spec fn after_epoch_info(self, absolute_slot: u64, slot_index: u64, epoch: u64) -> StateView {
        if epoch != self.current_epoch {
            StateView {
                current_slot: absolute_slot,
                current_epoch: epoch,
                current_epoch_start_slot: (absolute_slot - slot_index) as u64,
                ..self
            }
        } else {
            StateView { current_slot: absolute_slot, ..self }
        }
    }

    /// After the leader schedule with these slots, relative to the epoch
    /// start, is taken in.
    pub open spec fn after_leader_schedule(self, relative: Seq<u64>) -> StateView {
        StateView { leader_schedule: shifted(relative, self.current_epoch_start_slot), ..self }
    }

    /// After deciding again whether the validator is near its leader slots.
    pub open spec fn after_refresh(self) -> StateView {
        StateView {
            near_leader_slots: near_leader_spec(self.leader_schedule, self.current_slot),
            ..self
        }
    }

    /// After a transaction with `signature` landed: when its sender is known,
    /// the signature is read (becoming the most recently used) and the
    /// sender's statistics take in the fee; otherwise nothing changes.
    pub open spec fn after_fee(self, signature: Signature, cu_limit: u64, cu_used: u64, fee: u64) -> StateView {
        match lookup(self.ip_lookup, signature.bytes) {
            Some(k) => StateView {
                ip_lookup: promote(self.ip_lookup, signature.bytes),
                ip_stats: put(
                    self.ip_stats,
                    self.stats_capacity,
                    k,
                    self.stats_for(k).with_fee(self.near_leader_slots, cu_limit, cu_used, fee),
                ),
                ..self
            },
            None => self,
        }
    }
}

/// The tracker's state.
pub struct State {
    identity: String,
    current_slot: u64,
    current_epoch: u64,
    current_epoch_start_slot: u64,
    near_leader_slots: bool,
    leader_schedule: Vec<u64>,
    ip_lookup: LruCache<SignatureKey, IpKey>,
    ip_avg_fees: LruCache<IpKey, IpStats>,
}

impl View for State {
    type V = StateView;

    closed spec fn view(&self) -> StateView {
        StateView {
            identity: self.identity@,
            current_slot: self.current_slot,
            current_epoch: self.current_epoch,
            current_epoch_start_slot: self.current_epoch_start_slot,
            near_leader_slots: self.near_leader_slots,
            leader_schedule: self.leader_schedule@,
            ip_lookup: lookup_entries(self.ip_lookup),
            lookup_capacity: lookup_capacity(self.ip_lookup),
            ip_stats: stats_entries(self.ip_avg_fees),
            stats_capacity: stats_capacity(self.ip_avg_fees),
        }
    }
}

impl State {
    pub open spec fn wf(&self) -> bool {
        self@.wf()
    }

    /// A fresh state for the validator `identity`, whose caches each hold
    /// up to `capacity` entries.
    pub fn new(capacity: usize, identity: String) -> (r: State)
        requires
            capacity > 0,
        ensures
            r.wf(),
            r@ == StateView::initial(identity@, capacity as nat),
    {
        State {
            ip_lookup: lookup_with_capacity(capacity).unwrap(),
            ip_avg_fees: stats_with_capacity(capacity).unwrap(),
            identity,
            current_slot: 0,
            current_epoch: 0,
            current_epoch_start_slot: 0,
            near_leader_slots: false,
            leader_schedule: Vec::new(),
        }
    }

    /// Records that `ip` sent a transaction with `signature`. A signature
    /// seen before counts as a duplicate for `ip`.
    pub fn usertx(&mut self, ip: IpAddr, signature: Signature)
        requires
            old(self).wf(),
            old(self)@.usertx_fits(ip, signature),
        ensures
            final(self).wf(),
            final(self)@ == old(self)@.after_usertx(ip, signature),
    {
        let ghost s0 = self@;
        let key = ip.to_key();
        let already_exists = lookup_put(&mut self.ip_lookup, signature.bytes, key);
        proof {
            lemma_put(s0.ip_lookup, s0.lookup_capacity, signature.bytes, key);
        }
        if already_exists.is_some() {
            let mut entry = stats_get_or_insert(&mut self.ip_avg_fees, key);
            entry.add_duplicate(self.near_leader_slots);
            stats_put(&mut self.ip_avg_fees, key, entry);
            proof {
                lemma_put_over_read(s0.ip_stats, s0.stats_capacity, key, IpStats::zero(), entry);
                lemma_put(s0.ip_stats, s0.stats_capacity, key, entry);
            }
        }
    }

    /// Whether `usertx(ip, signature)` stays within the counters' range.
    pub fn usertx_in_range(&self, ip: IpAddr, signature: Signature) -> (r: bool)
        ensures
            r == self@.usertx_fits(ip, signature),
    {
        match lookup_peek(&self.ip_lookup, &signature.bytes) {
            None => true,
            Some(_) => {
                let stats = match stats_peek(&self.ip_avg_fees, &ip.to_key()) {
                    Some(s) => s,
                    None => IpStats::default(),
                };
                stats.duplicate_in_range(self.near_leader_slots)
            },
        }
    }

    /// Records that the transaction with `signature` landed with this fee
    /// and these compute units, for the sender that sent it.
    pub fn fee(&mut self, signature: Signature, cu_limit: u64, cu_used: u64, fee: u64)
        requires
            old(self).wf(),
            old(self)@.fee_fits(signature, cu_limit, cu_used, fee),
        ensures
            final(self).wf(),
            final(self)@ == old(self)@.after_fee(signature, cu_limit, cu_used, fee),
    {
        let ghost s0 = self@;
        if let Some(key) = lookup_get(&mut self.ip_lookup, &signature.bytes) {
            proof {
                lemma_promote(s0.ip_lookup, s0.lookup_capacity, signature.bytes);
            }
            let mut entry = stats_get_or_insert(&mut self.ip_avg_fees, key);
            entry.add_fee(self.near_leader_slots, cu_limit, cu_used, fee);
            stats_put(&mut self.ip_avg_fees, key, entry);
            proof {
                lemma_put_over_read(s0.ip_stats, s0.stats_capacity, key, IpStats::zero(), entry);
                lemma_put(s0.ip_stats, s0.stats_capacity, key, entry);
            }
        }
    }

    /// Whether `fee(signature, cu_limit, cu_used, fee)` stays within the
    /// counters' range.
    pub fn fee_in_range(&self, signature: Signature, cu_limit: u64, cu_used: u64, fee: u64) -> (r: bool)
        ensures
            r == self@.fee_fits(signature, cu_limit, cu_used, fee),
    {
        match lookup_peek(&self.ip_lookup, &signature.bytes) {
            None => true,
            Some(key) => {
                let stats = match stats_peek(&self.ip_avg_fees, &key) {
                    Some(s) => s,
                    None => IpStats::default(),
                };
                stats.fee_in_range(self.near_leader_slots, cu_limit, cu_used, fee)
            },
        }
    }

    /// Blocks the senders that the blocking rule picks: each is marked
    /// blocked in the statistics cache, and the addresses are returned, in
    /// cache order, for the caller to block.
    pub fn create_ip_blocklist(&mut self) -> (blocked: Vec<IpAddr>)
        requires
            old(self).wf(),
        ensures
            final(self).wf(),
            blocked@ == block_keys(old(self)@.ip_stats).map_values(|k: IpKey| IpAddr::of_key(k)),
            final(self)@ == old(self)@.after_blocklist(),
    {
        let ghost s0 = self@;
        let all_records = stats_list(&self.ip_avg_fees);
        let mut ips_to_block: Vec<IpKey> = Vec::new();
        let n = all_records.len();
        for i in 0..n
            invariant
                n == all_records@.len(),
                all_records@ == s0.ip_stats,
                ips_to_block@ == block_keys(all_records@.take(i as int)),
        {
            assert(all_records@.take(i + 1).drop_last() =~= all_records@.take(i as int));
            if all_records[i].1.should_block() {
                ips_to_block.push(all_records[i].0);
            }
        }
        assert(all_records@.take(n as int) =~= all_records@);
        let ghost ks = ips_to_block@;
        let mut blocked: Vec<IpAddr> = Vec::new();
        let m = ips_to_block.len();
        for i in 0..m
            invariant
                m == ks.len(),
                ips_to_block@ == ks,
                ks == block_keys(s0.ip_stats),
                s0.wf(),
                self@ == (StateView {
                    ip_stats: mark_blocked(s0.ip_stats, s0.stats_capacity, ks.take(i as int)),
                    ..s0
                }),
                cache_wf(self@.ip_stats, s0.stats_capacity),
                blocked@ == ks.take(i as int).map_values(|k: IpKey| IpAddr::of_key(k)),
        {
            let ip = ips_to_block[i];
            let ghost before = stats_entries(self.ip_avg_fees);
            assert(ks.take(i + 1).drop_last() =~= ks.take(i as int));
            if let Some(stats) = stats_get(&mut self.ip_avg_fees, &ip) {
                let mut stats = stats;
                stats.blocked = true;
                stats_put(&mut self.ip_avg_fees, ip, stats);
                proof {
                    lemma_put_over_read(before, s0.stats_capacity, ip, stats, stats);
                    assert(get_or_insert(before, s0.stats_capacity, ip, stats) == promote(before, ip));
                    lemma_put(before, s0.stats_capacity, ip, stats);
                }
            }
            blocked.push(IpAddr::from_key(ip));
            assert(blocked@ =~= ks.take(i + 1).map_values(|k: IpKey| IpAddr::of_key(k)));
        }
        assert(ks.take(m as int) =~= ks);
        blocked
    }

    /// The sender statistics, most recently used first.
    pub fn ip_stats_records(&self) -> (r: Vec<(IpAddr, IpStats)>)
        ensures
            r@ == unkeyed(self@.ip_stats),
    {
        let list = stats_list(&self.ip_avg_fees);
        let mut out: Vec<(IpAddr, IpStats)> = Vec::new();
        let n = list.len();
        for i in 0..n
            invariant
                n == list@.len(),
                out@ == unkeyed(list@.take(i as int)),
        {
            out.push((IpAddr::from_key(list[i].0), list[i].1));
            assert(out@ =~= unkeyed(list@.take(i + 1)));
        }
        assert(list@.take(n as int) =~= list@);
        out
    }

    /// Replaces the sender statistics by `records`, put in order into the
    /// emptied cache; returns how many were loaded.
    pub fn load_ip_stats(&mut self, records: &Vec<(IpAddr, IpStats)>) -> (count: usize)
        requires
            old(self).wf(),
        ensures
            final(self).wf(),
            count == records.len(),
            final(self)@ == (StateView {
                ip_stats: fill(old(self)@.stats_capacity, keyed(records@)),
                ..old(self)@
            }),
    {
        let ghost s0 = self@;
        stats_clear(&mut self.ip_avg_fees);
        let mut count: usize = 0;
        let n = records.len();
        for i in 0..n
            invariant
                n == records@.len(),
                s0.wf(),
                count == i,
                self@ == (StateView {
                    ip_stats: fill(s0.stats_capacity, keyed(records@).take(i as int)),
                    ..s0
                }),
                cache_wf(self@.ip_stats, s0.stats_capacity),
        {
            let (ip, stats) = records[i];
            assert(keyed(records@).take(i + 1).drop_last() =~= keyed(records@).take(i as int));
            proof {
                lemma_put(self@.ip_stats, s0.stats_capacity, ip.key(), stats);
            }
            stats_put(&mut self.ip_avg_fees, ip.to_key(), stats);
            count += 1;
        }
        assert(keyed(records@).take(n as int) =~= keyed(records@));
        count
    }

    /// Takes in the validator's epoch information: the current slot is
    /// `absolute_slot`; on a new epoch the epoch and its start slot are
    /// updated and `true` says that the leader schedule must be fetched.
    pub fn apply_epoch_info(&mut self, absolute_slot: u64, slot_index: u64, epoch: u64) -> (new_epoch: bool)
        requires
            old(self).wf(),
            epoch != old(self)@.current_epoch ==> slot_index <= absolute_slot,
        ensures
            final(self).wf(),
            new_epoch == (epoch != old(self)@.current_epoch),
            final(self)@ == old(self)@.after_epoch_info(absolute_slot, slot_index, epoch),
    {
        self.current_slot = absolute_slot;
        if self.current_epoch != epoch {
            self.current_epoch = epoch;
            self.current_epoch_start_slot = self.current_slot - slot_index;
            true
        } else {
            false
        }
    }

    /// Takes in the leader schedules of the epoch, as names with slots
    /// relative to the epoch start: the first entry named after this
    /// validator's identity becomes the leader schedule, made absolute.
    /// Returns whether there was such an entry; without one nothing changes.
    pub fn apply_leader_schedule(&mut self, schedules: &Vec<(String, Vec<u64>)>) -> (found: bool)
        requires
            old(self).wf(),
            forall|i: int|
                is_first_match(schedules@, old(self)@.identity, i) ==> shift_fits(
                    #[trigger] schedules@[i].1@,
                    old(self)@.current_epoch_start_slot,
                ),
        ensures
            final(self).wf(),
            found == exists|i: int|
                0 <= i < schedules@.len() && #[trigger] schedules@[i].0@ == old(self)@.identity,
            forall|i: int|
                is_first_match(schedules@, old(self)@.identity, i) ==> final(self)@
                    == old(self)@.after_leader_schedule(#[trigger] schedules@[i].1@),
            !found ==> final(self)@ == old(self)@,
    {
        let ghost s0 = self@;
        let ghost id = self@.identity;
        let n = schedules.len();
        let mut i: usize = 0;
        while i < n
            invariant
                n == schedules@.len(),
                i <= n,
                self@ == s0,
                s0 == old(self)@,
                s0.wf(),
                id == s0.identity,
                forall|k: int|
                    is_first_match(schedules@, id, k) ==> shift_fits(
                        #[trigger] schedules@[k].1@,
                        s0.current_epoch_start_slot,
                    ),
                forall|j: int| 0 <= j < i ==> #[trigger] schedules@[j].0@ != id,
            decreases n - i,
        {
            if schedules[i].0 == self.identity {
                assert(is_first_match(schedules@, id, i as int));
                let relative = &schedules[i].1;
                let start = self.current_epoch_start_slot;
                let mut absolute: Vec<u64> = Vec::new();
                let len = relative.len();
                for j in 0..len
                    invariant
                        len == relative@.len(),
                        shift_fits(relative@, start),
                        absolute@ == shifted(relative@.take(j as int), start),
                {
                    absolute.push(relative[j] + start);
                    assert(absolute@ =~= shifted(relative@.take(j + 1), start));
                }
                assert(relative@.take(len as int) =~= relative@);
                self.leader_schedule = absolute;
                assert(schedules@[i as int].0@ == id);
                assert(self@ == s0.after_leader_schedule(schedules@[i as int].1@));
                proof {
                    assert forall|k: int| is_first_match(schedules@, id, k) implies k == i by {
                        if k < i {
                            assert(schedules@[k].0@ != id);
                        }
                        if k > i {
                            assert(schedules@[i as int].0@ != id);
                        }
                    }
                }
                return true;
            }
            i += 1;
        }
        false
    }

    /// Sets whether the validator is near its leader slots, from its leader
    /// schedule and current slot.
    pub fn refresh_near_leader_slots(&mut self)
        requires
            old(self).wf(),
        ensures
            final(self).wf(),
            final(self)@ == old(self)@.after_refresh(),
    {
        self.near_leader_slots = near_leader(&self.leader_schedule, self.current_slot);
    }

    /// The validator's identity.
    pub fn identity(&self) -> (r: &String)
        ensures
            r@ == self@.identity,
    {
        &self.identity
    }

    pub fn current_slot(&self) -> (r: u64)
        ensures
            r == self@.current_slot,
    {
        self.current_slot
    }

    pub fn current_epoch(&self) -> (r: u64)
        ensures
            r == self@.current_epoch,
    {
        self.current_epoch
    }

    pub fn current_epoch_start_slot(&self) -> (r: u64)
        ensures
            r == self@.current_epoch_start_slot,
    {
        self.current_epoch_start_slot
    }

    pub fn near_leader_slots(&self) -> (r: bool)
        ensures
            r == self@.near_leader_slots,
    {
        self.near_leader_slots
    }

    /// The absolute leader slots of the current epoch.
    pub fn leader_schedule(&self) -> (r: &Vec<u64>)
        ensures
            r@ == self@.leader_schedule,
    {
        &self.leader_schedule
    }

    /// The statistics kept for `ip`, without touching the recency order.
    pub fn stats_of(&self, ip: IpAddr) -> (r: Option<IpStats>)
        ensures
            r == lookup(self@.ip_stats, ip.key()),
    {
        stats_peek(&self.ip_avg_fees, &ip.to_key())
    }

    /// The sender recorded for `signature`, without touching the recency order.
    pub fn sender_of(&self, signature: Signature) -> (r: Option<IpAddr>)
        ensures
            r == (match lookup(self@.ip_lookup, signature.bytes) {
                Some(k) => Some(IpAddr::of_key(k)),
                None => None,
            }),
    {
        match lookup_peek(&self.ip_lookup, &signature.bytes) {
            Some(k) => Some(IpAddr::from_key(k)),
            None => None,
        }
    }
}

impl Default for State {
    /// A state with no identity and caches of `DEFAULT_CAPACITY` entries.
    fn default() -> (r: Self)
        ensures
            r.wf(),
            r@ == StateView::initial(Seq::empty(), DEFAULT_CAPACITY as nat),
    {
        State::new(DEFAULT_CAPACITY, String::new())
    }
}

/// Law: writing out the sender statistics and loading them back into a
/// cache that has room for them all gives every sender its statistics back.
pub proof fn lemma_records_roundtrip(v: StateView, capacity: nat)
    requires
        v.wf(),
        capacity > 0,
        v.ip_stats.len() <= capacity,
    ensures
        as_map(fill(capacity, keyed(unkeyed(v.ip_stats)))) == as_map(v.ip_stats),
{
    assert(keyed(unkeyed(v.ip_stats)) =~= v.ip_stats);
    lemma_fill_keeps_all(capacity, v.ip_stats);
}

/// Law: a landed transaction whose signature no sender is known for
/// changes nothing.
pub proof fn lemma_fee_unknown_signature(
    v: StateView,
    signature: Signature,
    cu_limit: u64,
    cu_used: u64,
    fee: u64,
)
    requires
        !has_key(v.ip_lookup, signature.bytes),
    ensures
        v.after_fee(signature, cu_limit, cu_used, fee) == v,
{
}

/// Law: after `ip` sends `signature`, the signature belongs to `ip`; a
/// first sighting leaves every sender's statistics as they were, and a
/// repeated one adds exactly one duplicate to `ip`.
pub proof fn lemma_usertx(v: StateView, ip: IpAddr, signature: Signature)
    requires
        v.wf(),
    ensures
        ({
            let w = v.after_usertx(ip, signature);
            &&& w.wf()
            &&& lookup(w.ip_lookup, signature.bytes) == Some(ip.key())
            &&& !has_key(v.ip_lookup, signature.bytes) ==> w.ip_stats == v.ip_stats
            &&& has_key(v.ip_lookup, signature.bytes) ==> lookup(w.ip_stats, ip.key()) == Some(
                v.stats_for(ip.key()).with_duplicate(v.near_leader_slots),
            )
        }),
{
    lemma_put(v.ip_lookup, v.lookup_capacity, signature.bytes, ip.key());
    lemma_put(
        v.ip_stats,
        v.stats_capacity,
        ip.key(),
        v.stats_for(ip.key()).with_duplicate(v.near_leader_slots),
    );
}

/// Law: once `ip` has sent `signature`, the landing of that transaction is
/// credited to `ip`: its statistics take in the fee, and those of every
/// other sender still cached stay as they were.
pub proof fn lemma_fee_credits_sender(
    v: StateView,
    ip: IpAddr,
    signature: Signature,
    cu_limit: u64,
    cu_used: u64,
    fee: u64,
)
    requires
        v.wf(),
    ensures
        ({
            let w = v.after_usertx(ip, signature);
            let x = w.after_fee(signature, cu_limit, cu_used, fee);
            &&& x.wf()
            &&& lookup(x.ip_stats, ip.key()) == Some(
                w.stats_for(ip.key()).with_fee(w.near_leader_slots, cu_limit, cu_used, fee),
            )
            &&& forall|k: IpKey|
                k != ip.key() && has_key(x.ip_stats, k) ==> #[trigger] lookup(x.ip_stats, k)
                    == lookup(w.ip_stats, k)
        }),
{
    lemma_usertx(v, ip, signature);
    let w = v.after_usertx(ip, signature);
    lemma_promote(w.ip_lookup, w.lookup_capacity, signature.bytes);
    lemma_put(
        w.ip_stats,
        w.stats_capacity,
        ip.key(),
        w.stats_for(ip.key()).with_fee(w.near_leader_slots, cu_limit, cu_used, fee),
    );
}

/// Every sender's counters agree with one another.
pub open spec fn counters_sound(s: Seq<(IpKey, IpStats)>) -> bool {
    forall|i: int| 0 <= i < s.len() ==> (#[trigger] s[i]).1.counters_consistent()
}

/// Storing statistics whose counters agree keeps every sender's in agreement.
proof fn lemma_put_sound(s: Seq<(IpKey, IpStats)>, cap: nat, k: IpKey, st: IpStats)
    requires
        cache_wf(s, cap),
        counters_sound(s),
        st.counters_consistent(),
    ensures
        counters_sound(put(s, cap, k, st)),
{
    lemma_put_entries(s, cap, k, st);
    let r = put(s, cap, k, st);
    assert forall|i: int| 0 <= i < r.len() implies (#[trigger] r[i]).1.counters_consistent() by {
        if r[i] != (k, st) {
            let j = choose|j: int| 0 <= j < s.len() && s[j] == r[i];
            assert(s[j].1.counters_consistent());
        }
    }
}

/// The statistics of any sender of a sound cache agree.
proof fn lemma_stats_for_sound(v: StateView, k: IpKey)
    requires
        v.wf(),
        counters_sound(v.ip_stats),
    ensures
        v.stats_for(k).counters_consistent(),
{
    lemma_counters_consistent(IpStats::zero(), false, 0, 0, 0);
    if has_key(v.ip_stats, k) {
        let i = key_index(v.ip_stats, k);
        lemma_key_index(v.ip_stats, i);
        assert(v.ip_stats[i].1.counters_consistent());
    }
}

/// Law: a fresh state's senders agree trivially, and `usertx` keeps every
/// sender's counters in agreement.
pub proof fn lemma_usertx_keeps_counters(v: StateView, ip: IpAddr, signature: Signature)
    requires
        v.wf(),
        counters_sound(v.ip_stats),
        v.usertx_fits(ip, signature),
    ensures
        counters_sound(v.after_usertx(ip, signature).ip_stats),
        forall|id: Seq<char>, capacity: nat|
            counters_sound(#[trigger] StateView::initial(id, capacity).ip_stats),
{
    if has_key(v.ip_lookup, signature.bytes) {
        lemma_stats_for_sound(v, ip.key());
        let st = v.stats_for(ip.key());
        lemma_counters_consistent(st, v.near_leader_slots, 0, 0, 0);
        lemma_put_sound(v.ip_stats, v.stats_capacity, ip.key(), st.with_duplicate(v.near_leader_slots));
    }
}

/// Law: `fee` keeps every sender's counters in agreement.
pub proof fn lemma_fee_keeps_counters(
    v: StateView,
    signature: Signature,
    cu_limit: u64,
    cu_used: u64,
    fee: u64,
)
    requires
        v.wf(),
        counters_sound(v.ip_stats),
        v.fee_fits(signature, cu_limit, cu_used, fee),
    ensures
        counters_sound(v.after_fee(signature, cu_limit, cu_used, fee).ip_stats),
{
    if let Some(k) = lookup(v.ip_lookup, signature.bytes) {
        lemma_stats_for_sound(v, k);
        let st = v.stats_for(k);
        lemma_counters_consistent(st, v.near_leader_slots, cu_limit, cu_used, fee);
        lemma_put_sound(
            v.ip_stats,
            v.stats_capacity,
            k,
            st.with_fee(v.near_leader_slots, cu_limit, cu_used, fee),
        );
    }
}

/// Law: blocking keeps every sender's counters in agreement.
pub proof fn lemma_blocking_keeps_counters(s: Seq<(IpKey, IpStats)>, cap: nat, ks: Seq<IpKey>)
    requires
        cache_wf(s, cap),
        counters_sound(s),
    ensures
        cache_wf(mark_blocked(s, cap, ks), cap),
        counters_sound(mark_blocked(s, cap, ks)),
    decreases ks.len(),
{
    if ks.len() > 0 {
        lemma_blocking_keeps_counters(s, cap, ks.drop_last());
        let m = mark_blocked(s, cap, ks.drop_last());
        let k = ks.last();
        if has_key(m, k) {
            let i = key_index(m, k);
            lemma_key_index(m, i);
            assert(m[i].1.counters_consistent());
            lemma_counters_consistent(m[i].1, false, 0, 0, 0);
            lemma_put(m, cap, k, m[i].1.with_blocked());
            lemma_put_sound(m, cap, k, m[i].1.with_blocked());
        }
    }
}

/// Law: a landed transaction whose fee lies between `lo` and `hi` keeps its
/// sender's average fee between `lo` and `hi`, when that average already was
/// (or the sender had no transaction yet).
pub proof fn lemma_fee_keeps_average_bounds(
    v: StateView,
    signature: Signature,
    cu_limit: u64,
    cu_used: u64,
    fee: u64,
    lo: u64,
    hi: u64,
)
    requires
        v.wf(),
        v.fee_fits(signature, cu_limit, cu_used, fee),
        lookup(v.ip_lookup, signature.bytes) is Some,
        lo <= fee <= hi,
        ({
            let st = v.stats_for(lookup(v.ip_lookup, signature.bytes)->0);
            st.tx_count == 0 || lo <= st.avg_fee <= hi
        }),
    ensures
        ({
            let k = lookup(v.ip_lookup, signature.bytes)->0;
            let after = v.after_fee(signature, cu_limit, cu_used, fee);
            &&& lookup(after.ip_stats, k) is Some
            &&& lo <= (lookup(after.ip_stats, k)->0).avg_fee <= hi
        }),
{
    let k = lookup(v.ip_lookup, signature.bytes)->0;
    let st = v.stats_for(k);
    lemma_put(v.ip_stats, v.stats_capacity, k, st.with_fee(v.near_leader_slots, cu_limit, cu_used, fee));
    if st.tx_count == 0 {
        assert(0 * st.avg_fee == 0);
        assert((0 * st.avg_fee + fee) / 1int == fee);
        assert(running_avg(0, st.avg_fee, fee) == fee);
    } else {
        lemma_running_avg_between(st.tx_count, st.avg_fee, fee);
    }
}

/// An operation on the state, as the methods of `State` perform it.
pub enum Op {
    UserTx(IpAddr, Signature),
    Fee(Signature, u64, u64, u64),
    Blocklist,
    EpochInfo(u64, u64, u64),
    LeaderSchedule(Seq<u64>),
    Refresh,
}

/// The operation stays within the machine's arithmetic (what its method
/// requires beyond well-formedness).
pub open spec fn op_fits(v: StateView, op: Op) -> bool {
    match op {
        Op::UserTx(ip, signature) => v.usertx_fits(ip, signature),
        Op::Fee(signature, cu_limit, cu_used, fee) => v.fee_fits(signature, cu_limit, cu_used, fee),
        Op::Blocklist => true,
        Op::EpochInfo(absolute_slot, slot_index, epoch) => epoch != v.current_epoch ==> slot_index
            <= absolute_slot,
        Op::LeaderSchedule(relative) => shift_fits(relative, v.current_epoch_start_slot),
        Op::Refresh => true,
    }
}

/// The state after the operation.
pub open spec fn apply_op(v: StateView, op: Op) -> StateView {
    match op {
        Op::UserTx(ip, signature) => v.after_usertx(ip, signature),
        Op::Fee(signature, cu_limit, cu_used, fee) => v.after_fee(signature, cu_limit, cu_used, fee),
        Op::Blocklist => v.after_blocklist(),
        Op::EpochInfo(absolute_slot, slot_index, epoch) => v.after_epoch_info(
            absolute_slot,
            slot_index,
            epoch,
        ),
        Op::LeaderSchedule(relative) => v.after_leader_schedule(relative),
        Op::Refresh => v.after_refresh(),
    }
}

/// The state after the operations, in order.
pub open spec fn run(v: StateView, ops: Seq<Op>) -> StateView
    decreases ops.len(),
{
    if ops.len() == 0 {
        v
    } else {
        apply_op(run(v, ops.drop_last()), ops.last())
    }
}

/// Every operation stays within the machine's arithmetic where it is done.
pub open spec fn run_fits(v: StateView, ops: Seq<Op>) -> bool
    decreases ops.len(),
{
    if ops.len() == 0 {
        true
    } else {
        run_fits(v, ops.drop_last()) && op_fits(run(v, ops.drop_last()), ops.last())
    }
}

/// Law: along any sequence of operations, both caches stay well formed with
/// their capacities (so neither ever holds more entries than it was made
/// for), and every sender's counters keep agreeing with one another; a
/// fresh state starts with both.
pub proof fn lemma_run_keeps_invariants(v: StateView, ops: Seq<Op>)
    requires
        v.wf(),
        counters_sound(v.ip_stats),
        run_fits(v, ops),
    ensures
        run(v, ops).wf(),
        run(v, ops).lookup_capacity == v.lookup_capacity,
        run(v, ops).stats_capacity == v.stats_capacity,
        counters_sound(run(v, ops).ip_stats),
        forall|id: Seq<char>, capacity: nat|
            capacity > 0 ==> (#[trigger] StateView::initial(id, capacity)).wf() && counters_sound(
                StateView::initial(id, capacity).ip_stats,
            ),
    decreases ops.len(),
{
    if ops.len() > 0 {
        lemma_run_keeps_invariants(v, ops.drop_last());
        let u = run(v, ops.drop_last());
        match ops.last() {
            Op::UserTx(ip, signature) => {
                lemma_usertx(u, ip, signature);
                lemma_usertx_keeps_counters(u, ip, signature);
            },
            Op::Fee(signature, cu_limit, cu_used, fee) => {
                lemma_fee_keeps_counters(u, signature, cu_limit, cu_used, fee);
                if let Some(k) = lookup(u.ip_lookup, signature.bytes) {
                    lemma_promote(u.ip_lookup, u.lookup_capacity, signature.bytes);
                    lemma_put(
                        u.ip_stats,
                        u.stats_capacity,
                        k,
                        u.stats_for(k).with_fee(u.near_leader_slots, cu_limit, cu_used, fee),
                    );
                }
            },
            Op::Blocklist => {
                lemma_blocking_keeps_counters(u.ip_stats, u.stats_capacity, block_keys(u.ip_stats));
            },
            _ => {},
        }
    }
}

/// Law: a refresh decides the flag from the leader schedule and the current
/// slot alone, whatever the flag was before, and changes nothing else; on a
/// sorted schedule the flag is set exactly when no leader slot lies at or
/// before the current slot, or none after it, or one lies fewer than 150
/// slots away, and it is cleared otherwise.
pub proof fn lemma_refresh(v: StateView, before: bool)
    ensures
        (StateView { near_leader_slots: before, ..v }).after_refresh() == v.after_refresh(),
        (StateView { near_leader_slots: v.near_leader_slots, ..v.after_refresh() }) == v,
        sorted(v.leader_schedule) ==> (v.after_refresh().near_leader_slots <==> {
            let s = v.leader_schedule;
            let c = v.current_slot;
            ||| (forall|i: int| 0 <= i < s.len() ==> s[i] > c)
            ||| (forall|i: int| 0 <= i < s.len() ==> s[i] <= c)
            ||| (exists|i: int| 0 <= i < s.len() && c - 150 < #[trigger] s[i] < c + 150)
        }),
{
    if sorted(v.leader_schedule) {
        lemma_near_leader_sorted(v.leader_schedule, v.current_slot);
    }
}

/// Law: the records handed out for saving are the cached senders' statistics
/// unchanged, one record per cached sender: each cached key `k` gives the
/// record (`IpAddr::of_key(k)`, its statistics), and each record holds what
/// the cache holds for its address.
pub proof fn lemma_records_are_cached_stats(v: StateView)
    requires
        v.wf(),
    ensures
        unkeyed(v.ip_stats).len() == v.ip_stats.len(),
        forall|i: int|
            0 <= i < v.ip_stats.len() ==> lookup(v.ip_stats, (#[trigger] unkeyed(v.ip_stats)[i]).0.key())
                == Some(unkeyed(v.ip_stats)[i].1),
        forall|k: IpKey|
            #[trigger] has_key(v.ip_stats, k) ==> unkeyed(v.ip_stats).contains(
                (IpAddr::of_key(k), lookup(v.ip_stats, k)->0),
            ),
{
    let s = v.ip_stats;
    let r = unkeyed(s);
    assert forall|i: int| 0 <= i < s.len() implies lookup(s, (#[trigger] r[i]).0.key()) == Some(
        r[i].1,
    ) by {
        lemma_key_index(s, i);
        assert(r[i].0.key() == s[i].0);
    }
    assert forall|k: IpKey| #[trigger] has_key(s, k) implies r.contains(
        (IpAddr::of_key(k), lookup(s, k)->0),
    ) by {
        let i = key_index(s, k);
        lemma_key_index(s, i);
        assert(r[i] == (IpAddr::of_key(k), lookup(s, k)->0));
    }
}

/// Law: loading records for distinct addresses that fit in the cache leaves
/// each address with exactly the statistics of its record, and no other
/// address cached.
pub proof fn lemma_load_gives_records(capacity: nat, records: Seq<(IpAddr, IpStats)>)
    requires
        capacity > 0,
        records.len() <= capacity,
        forall|i: int, j: int|
            0 <= i < records.len() && 0 <= j < records.len() && i != j ==> #[trigger] records[i].0
                != #[trigger] records[j].0,
    ensures
        forall|i: int|
            0 <= i < records.len() ==> lookup(
                fill(capacity, keyed(records)),
                (#[trigger] records[i]).0.key(),
            ) == Some(records[i].1),
        forall|k: IpKey|
            #[trigger] has_key(fill(capacity, keyed(records)), k) ==> exists|i: int|
                0 <= i < records.len() && records[i].0.key() == k,
{
    let ks = keyed(records);
    assert forall|i: int, j: int|
        0 <= i < ks.len() && 0 <= j < ks.len() && i != j implies #[trigger] ks[i].0 != #[trigger] ks[j].0 by {
        assert(records[i].0 != records[j].0);
    }
    lemma_fill_keeps_all(capacity, ks);
    let f = fill(capacity, ks);
    assert forall|i: int| 0 <= i < records.len() implies lookup(f, (#[trigger] records[i]).0.key())
        == Some(records[i].1) by {
        lemma_key_index(ks, i);
        assert(ks[i] == (records[i].0.key(), records[i].1));
        assert(as_map(ks).dom().contains(ks[i].0));
        assert(as_map(f).dom().contains(ks[i].0));
        assert(as_map(f)[ks[i].0] == as_map(ks)[ks[i].0]);
    }
    assert forall|k: IpKey| #[trigger] has_key(f, k) implies exists|i: int|
        0 <= i < records.len() && records[i].0.key() == k by {
        assert(as_map(f).dom().contains(k));
        assert(has_key(ks, k));
        let i = key_index(ks, k);
        assert(ks[i] == (records[i].0.key(), records[i].1));
    }
}

} // verus!
