//! Addresses, signatures and the fee statistics kept for each sender.
use vstd::prelude::*;

verus! {

/// Average fee at or above which a busy sender is never blocked for its fees.
pub const BLOCK_AVG_FEE_BELOW: u64 = 30000;

/// Number of transactions above which a low average fee gets a sender blocked.
pub const BLOCK_MIN_TXS: u64 = 300;

/// Fees at or below this many lamports count as low-fee transactions.
pub const LOW_FEE_LIMIT: u64 = 50000;

/// How an address is keyed in the caches: whether it is IPv6, and its bits.
pub type IpKey = (bool, u128);

/// How a transaction signature is keyed in the caches: its 64 bytes.
pub type SignatureKey = [u8; 64];

/// An IP address: IPv4 (`is_v6 == false`, `bits` below 2^32) or IPv6.
#[derive(Clone, Copy, Debug, PartialEq, Eq, Structural)]
pub struct IpAddr {
    pub is_v6: bool,
    pub bits: u128,
}

impl IpAddr {
    /// The IPv4 address with these 32 bits.
    pub fn v4(bits: u32) -> (r: IpAddr)
        ensures
            r == (IpAddr { is_v6: false, bits: bits as u128 }),
    {
        IpAddr { is_v6: false, bits: bits as u128 }
    }

    /// The IPv6 address with these 128 bits.
    pub fn v6(bits: u128) -> (r: IpAddr)
        ensures
            r == (IpAddr { is_v6: true, bits }),
    {
        IpAddr { is_v6: true, bits }
    }

    /// The cache key of this address.
    pub open spec fn key(self) -> IpKey {
        (self.is_v6, self.bits)
    }

    /// The address that a cache key stands for.
    pub open spec fn of_key(k: IpKey) -> IpAddr {
        IpAddr { is_v6: k.0, bits: k.1 }
    }

    pub fn to_key(&self) -> (k: IpKey)
        ensures
            k == self.key(),
    {
        (self.is_v6, self.bits)
    }

    pub fn from_key(k: IpKey) -> (r: IpAddr)
        ensures
            r == IpAddr::of_key(k),
            r.key() == k,
    {
        IpAddr { is_v6: k.0, bits: k.1 }
    }
}

/// A transaction signature.
#[derive(Clone, Copy, Debug)]
pub struct Signature {
    pub bytes: [u8; 64],
}

/// What is known of the transactions seen from one IP address. The `leader_`
/// fields count only what arrived while the validator was near its leader
/// slots.
#[derive(Clone, Copy, Debug, PartialEq, Eq, Structural)]
pub struct IpStats {
    pub tx_count: u64,
    pub tx_count_under_50k: u64,
    pub dup_count: u64,
    pub avg_fee: u64,
    pub min_fee: u64,
    pub max_fee: u64,
    pub avg_cu_limit: u64,
    pub avg_cu_used: u64,
    pub leader_tx_count: u64,
    pub leader_tx_count_under_50k: u64,
    pub leader_dup_count: u64,
    pub leader_avg_fee: u64,
    pub leader_min_fee: u64,
    pub leader_max_fee: u64,
    pub leader_avg_cu_limit: u64,
    pub leader_avg_cu_used: u64,
    pub blocked: bool,
}

/// The new average after one more sample `x`, rounded down, given `count`
/// samples of average `avg`.
pub open spec fn running_avg(count: u64, avg: u64, x: u64) -> u64 {
    ((count * avg + x) / (count + 1)) as u64
}

/// `count * avg + x` can be computed in 64 bits.
pub open spec fn avg_fits(count: u64, avg: u64, x: u64) -> bool {
    count * avg + x <= u64::MAX
}

/// Whether `count * avg + x` can be computed in 64 bits.
pub fn avg_in_range(count: u64, avg: u64, x: u64) -> (r: bool)
    ensures
        r == avg_fits(count, avg, x),
{
    match count.checked_mul(avg) {
        Some(p) => p.checked_add(x).is_some(),
        None => false,
    }
}

/// Law: the new running average lies between the old average and the new
/// sample.
pub proof fn lemma_running_avg_between(count: u64, avg: u64, x: u64)
    requires
        count < u64::MAX,
        avg_fits(count, avg, x),
    ensures
        avg <= x ==> avg <= running_avg(count, avg, x) <= x,
        x <= avg ==> x <= running_avg(count, avg, x) <= avg,
{
    let n: int = count + 1;
    let t: int = count * avg + x;
    assert(n > 0);
    if avg <= x {
        assert(avg * n <= t && t <= x * n) by (nonlinear_arith)
            requires
                n == count + 1,
                t == count * avg + x,
                avg <= x,
                count >= 0,
        ;
        lemma_div_bounds(t, n, avg as int, x as int);
    } else {
        assert(x * n <= t && t <= avg * n) by (nonlinear_arith)
            requires
                n == count + 1,
                t == count * avg + x,
                x <= avg,
                count >= 0,
        ;
        lemma_div_bounds(t, n, x as int, avg as int);
    }
}

/// `lo * n <= t <= hi * n` puts `t / n` between `lo` and `hi`.
proof fn lemma_div_bounds(t: int, n: int, lo: int, hi: int)
    requires
        n > 0,
        lo * n <= t,
        t <= hi * n,
    ensures
        lo <= t / n <= hi,
{
    assert(lo <= t / n <= hi) by (nonlinear_arith)
        requires
            n > 0,
            lo * n <= t,
            t <= hi * n,
    ;
}


/// A run of landed transactions for one sender: for each, whether it came
/// near the leader slots, its compute-unit limit and use, and its fee.
pub open spec fn apply_fees(st: IpStats, fees: Seq<(bool, u64, u64, u64)>) -> IpStats
    decreases fees.len(),
{
    if fees.len() == 0 {
        st
    } else {
        let (near, cu_limit, cu_used, fee) = fees.last();
        apply_fees(st, fees.drop_last()).with_fee(near, cu_limit, cu_used, fee)
    }
}

/// Every transaction of the run can be recorded without overflow.
pub open spec fn fees_fit(st: IpStats, fees: Seq<(bool, u64, u64, u64)>) -> bool
    decreases fees.len(),
{
    if fees.len() == 0 {
        true
    } else {
        let (near, cu_limit, cu_used, fee) = fees.last();
        fees_fit(st, fees.drop_last()) && apply_fees(st, fees.drop_last()).fee_fits(
            near,
            cu_limit,
            cu_used,
            fee,
        )
    }
}

/// Law: for a sender first seen with no statistics, after any run of landed
/// transactions whose fees all lie between `lo` and `hi` (for instance the
/// least and the largest of them), the transaction count is the length of
/// the run and the average fee lies between `lo` and `hi`.
pub proof fn lemma_average_between_fees(fees: Seq<(bool, u64, u64, u64)>, lo: u64, hi: u64)
    requires
        fees.len() > 0,
        fees_fit(IpStats::zero(), fees),
        forall|i: int| 0 <= i < fees.len() ==> lo <= (#[trigger] fees[i]).3 <= hi,
    ensures
        apply_fees(IpStats::zero(), fees).tx_count == fees.len(),
        lo <= apply_fees(IpStats::zero(), fees).avg_fee <= hi,
    decreases fees.len(),
{
    let init = fees.drop_last();
    let (near, cu_limit, cu_used, fee) = fees.last();
    assert(lo <= fees[fees.len() - 1].3 <= hi);
    let prev = apply_fees(IpStats::zero(), init);
    if init.len() == 0 {
        assert(prev == IpStats::zero());
        assert(running_avg(0, 0, fee) == fee);
    } else {
        assert forall|i: int| 0 <= i < init.len() implies lo <= (#[trigger] init[i]).3 <= hi by {
            assert(init[i] == fees[i]);
        }
        lemma_average_between_fees(init, lo, hi);
        lemma_running_avg_between(prev.tx_count, prev.avg_fee, fee);
    }
}


/// The fees of a run of landed transactions.
pub open spec fn fees_of(fees: Seq<(bool, u64, u64, u64)>) -> Seq<u64> {
    fees.map_values(|e: (bool, u64, u64, u64)| e.3)
}

/// The fees of the transactions of a run that came near the leader slots.
pub open spec fn leader_fees_of(fees: Seq<(bool, u64, u64, u64)>) -> Seq<u64>
    decreases fees.len(),
{
    if fees.len() == 0 {
        seq![]
    } else if fees.last().0 {
        leader_fees_of(fees.drop_last()).push(fees.last().3)
    } else {
        leader_fees_of(fees.drop_last())
    }
}

/// `min` and `max` are the least and the largest of `xs`, both zero when
/// `xs` is empty.
pub open spec fn least_and_largest(min: u64, max: u64, xs: Seq<u64>) -> bool {
    if xs.len() == 0 {
        min == 0 && max == 0
    } else {
        &&& forall|i: int| 0 <= i < xs.len() ==> min <= #[trigger] xs[i] <= max
        &&& xs.contains(min)
        &&& xs.contains(max)
    }
}

/// One more positive fee keeps the minimum and maximum those of all fees.
proof fn lemma_least_and_largest_push(min: u64, max: u64, xs: Seq<u64>, x: u64)
    requires
        least_and_largest(min, max, xs),
        forall|i: int| 0 <= i < xs.len() ==> #[trigger] xs[i] > 0,
        x > 0,
    ensures
        least_and_largest(next_min(min, x), next_max(max, x), xs.push(x)),
{
    let ys = xs.push(x);
    assert(ys[xs.len() as int] == x);
    if xs.len() > 0 {
        let a = choose|i: int| 0 <= i < xs.len() && xs[i] == min;
        let b = choose|i: int| 0 <= i < xs.len() && xs[i] == max;
        assert(xs[a] > 0);
        assert(ys[a] == min);
        assert(ys[b] == max);
        assert forall|i: int| 0 <= i < ys.len() implies next_min(min, x) <= #[trigger] ys[i]
            <= next_max(max, x) by {
            if i < xs.len() {
                assert(ys[i] == xs[i]);
            }
        }
    }
}

/// Law: for a sender first seen with no statistics, after any run of
/// landed transactions with positive fees, `min_fee` and `max_fee` are the
/// least and the largest fee of the run, and `leader_min_fee` and
/// `leader_max_fee` those of its transactions near the leader slots (zero
/// when there were none).
pub proof fn lemma_min_max_fees(fees: Seq<(bool, u64, u64, u64)>)
    requires
        forall|i: int| 0 <= i < fees.len() ==> (#[trigger] fees[i]).3 > 0,
    ensures
        least_and_largest(
            apply_fees(IpStats::zero(), fees).min_fee,
            apply_fees(IpStats::zero(), fees).max_fee,
            fees_of(fees),
        ),
        least_and_largest(
            apply_fees(IpStats::zero(), fees).leader_min_fee,
            apply_fees(IpStats::zero(), fees).leader_max_fee,
            leader_fees_of(fees),
        ),
        forall|i: int| 0 <= i < leader_fees_of(fees).len() ==> #[trigger] leader_fees_of(fees)[i] > 0,
    decreases fees.len(),
{
    if fees.len() == 0 {
        assert(fees_of(fees) =~= Seq::<u64>::empty());
    } else {
        let init = fees.drop_last();
        let e = fees.last();
        assert(fees[fees.len() - 1].3 > 0);
        assert forall|i: int| 0 <= i < init.len() implies (#[trigger] init[i]).3 > 0 by {
            assert(init[i] == fees[i]);
        }
        lemma_min_max_fees(init);
        let prev = apply_fees(IpStats::zero(), init);
        assert(fees_of(fees) =~= fees_of(init).push(e.3));
        assert forall|i: int| 0 <= i < fees_of(init).len() implies #[trigger] fees_of(init)[i] > 0 by {
            assert(init[i].3 > 0);
        }
        lemma_least_and_largest_push(prev.min_fee, prev.max_fee, fees_of(init), e.3);
        if e.0 {
            lemma_least_and_largest_push(
                prev.leader_min_fee,
                prev.leader_max_fee,
                leader_fees_of(init),
                e.3,
            );
            let ys = leader_fees_of(fees);
            assert forall|i: int| 0 <= i < ys.len() implies #[trigger] ys[i] > 0 by {
                if i < leader_fees_of(init).len() {
                    assert(ys[i] == leader_fees_of(init)[i]);
                }
            }
        }
    }
}

/// Law: the leader-window average takes in only the fees that landed near
/// the leader slots. For a sender first seen with no statistics, after any
/// run of landed transactions, `leader_tx_count` is the number of those fees
/// and, when there is one, `leader_avg_fee` lies between any bounds `lo` and
/// `hi` of them (so a single near-leader fee `f` gives exactly `f`).
pub proof fn lemma_leader_average_between_fees(fees: Seq<(bool, u64, u64, u64)>, lo: u64, hi: u64)
    requires
        fees_fit(IpStats::zero(), fees),
        forall|i: int|
            0 <= i < leader_fees_of(fees).len() ==> lo <= #[trigger] leader_fees_of(fees)[i] <= hi,
    ensures
        apply_fees(IpStats::zero(), fees).leader_tx_count == leader_fees_of(fees).len(),
        leader_fees_of(fees).len() > 0 ==> lo <= apply_fees(IpStats::zero(), fees).leader_avg_fee
            <= hi,
    decreases fees.len(),
{
    if fees.len() > 0 {
        let init = fees.drop_last();
        let (near, cu_limit, cu_used, fee) = fees.last();
        let prev = apply_fees(IpStats::zero(), init);
        if near {
            let ys = leader_fees_of(fees);
            assert(ys == leader_fees_of(init).push(fee));
            assert forall|i: int| 0 <= i < leader_fees_of(init).len() implies lo
                <= #[trigger] leader_fees_of(init)[i] <= hi by {
                assert(ys[i] == leader_fees_of(init)[i]);
            }
            assert(lo <= ys[ys.len() - 1] <= hi);
            lemma_leader_average_between_fees(init, lo, hi);
            if prev.leader_tx_count == 0 {
                assert(0 * prev.leader_avg_fee == 0);
                assert((0 * prev.leader_avg_fee + fee) / 1int == fee);
            } else {
                lemma_running_avg_between(prev.leader_tx_count, prev.leader_avg_fee, fee);
            }
        } else {
            assert(leader_fees_of(fees) == leader_fees_of(init));
            lemma_leader_average_between_fees(init, lo, hi);
        }
    }
}

/// Law: the blocking rule looks only at `tx_count`, `avg_fee`, `dup_count`
/// and `blocked`. A sender not yet blocked is picked when its average fee is
/// below 30000 over more than 300 transactions, when it has more than 100
/// duplicates and no landed transaction, or when it averages 9544 over more
/// than 3 transactions; a blocked sender is never picked, and a picked one
/// meets one of these.
pub proof fn lemma_block_rule(s: IpStats, t: IpStats)
    ensures
        !s.blocked && s.avg_fee < 30000 && s.tx_count > 300 ==> block_rule(s),
        !s.blocked && s.tx_count == 0 && s.dup_count > 100 ==> block_rule(s),
        !s.blocked && s.tx_count > 3 && s.avg_fee == 9544 ==> block_rule(s),
        s.blocked ==> !block_rule(s),
        block_rule(s) ==> (s.avg_fee < 30000 && s.tx_count > 300) || (s.tx_count == 0
            && s.dup_count > 100) || (s.tx_count > 3 && s.avg_fee == 9544),
        t.tx_count == s.tx_count && t.avg_fee == s.avg_fee && t.dup_count == s.dup_count
            && t.blocked == s.blocked ==> block_rule(t) == block_rule(s),
{
}

/// Law: counting a duplicate raises `dup_count` by one and, near the leader
/// slots, `leader_dup_count` by one, and leaves every other field as it
/// was; it fits exactly when those counters are below their limit.
pub proof fn lemma_duplicate_counts_only_duplicates(s: IpStats, near_leader: bool)
    ensures
        s.duplicate_fits(near_leader) <==> (s.dup_count < u64::MAX && (near_leader
            ==> s.leader_dup_count < u64::MAX)),
        s.duplicate_fits(near_leader) ==> {
            let t = s.with_duplicate(near_leader);
            &&& t.dup_count == s.dup_count + 1
            &&& t.leader_dup_count == if near_leader {
                s.leader_dup_count + 1
            } else {
                s.leader_dup_count as int
            }
            &&& (IpStats { dup_count: s.dup_count, leader_dup_count: s.leader_dup_count, ..t }) == s
        },
{
}

/// Law: recording a landed transaction raises `tx_count` by one, leaves the
/// duplicate counts and `blocked` as they were, and away from the leader
/// slots leaves every leader-window field as it was.
pub proof fn lemma_fee_counts(s: IpStats, near_leader: bool, cu_limit: u64, cu_used: u64, fee: u64)
    requires
        s.fee_fits(near_leader, cu_limit, cu_used, fee),
    ensures
        ({
            let t = s.with_fee(near_leader, cu_limit, cu_used, fee);
            &&& t.tx_count == s.tx_count + 1
            &&& t.dup_count == s.dup_count
            &&& t.leader_dup_count == s.leader_dup_count
            &&& t.blocked == s.blocked
            &&& t.leader_tx_count == if near_leader {
                s.leader_tx_count + 1
            } else {
                s.leader_tx_count as int
            }
            &&& !near_leader ==> {
                &&& t.leader_avg_fee == s.leader_avg_fee
                &&& t.leader_avg_cu_limit == s.leader_avg_cu_limit
                &&& t.leader_avg_cu_used == s.leader_avg_cu_used
                &&& t.leader_min_fee == s.leader_min_fee
                &&& t.leader_max_fee == s.leader_max_fee
                &&& t.leader_tx_count_under_50k == s.leader_tx_count_under_50k
            }
        }),
{
}

impl IpStats {
    /// The counters agree with one another: low-fee transactions and leader
    /// transactions are among all transactions, leader low-fee ones among
    /// both, and leader duplicates among all duplicates.
    pub open spec fn counters_consistent(self) -> bool {
        &&& self.tx_count_under_50k <= self.tx_count
        &&& self.leader_tx_count <= self.tx_count
        &&& self.leader_tx_count_under_50k <= self.leader_tx_count
        &&& self.leader_tx_count_under_50k <= self.tx_count_under_50k
        &&& self.leader_dup_count <= self.dup_count
    }
}

/// Law: statistics with no record agree, and counting a duplicate, recording
/// a landed transaction or blocking keeps the counters in agreement.
pub proof fn lemma_counters_consistent(
    st: IpStats,
    near_leader: bool,
    cu_limit: u64,
    cu_used: u64,
    fee: u64,
)
    requires
        st.counters_consistent(),
    ensures
        IpStats::zero().counters_consistent(),
        st.duplicate_fits(near_leader) ==> st.with_duplicate(near_leader).counters_consistent(),
        st.fee_fits(near_leader, cu_limit, cu_used, fee) ==> st.with_fee(
            near_leader,
            cu_limit,
            cu_used,
            fee,
        ).counters_consistent(),
        st.with_blocked().counters_consistent(),
{
}

/// The new minimum: a fee replaces a minimum of zero (none yet) or a larger one.
pub open spec fn next_min(min: u64, fee: u64) -> u64 {
    if min == 0 || fee < min {
        fee
    } else {
        min
    }
}

/// The new maximum: the larger of the maximum so far and the fee.
pub open spec fn next_max(max: u64, fee: u64) -> u64 {
    if fee > max {
        fee
    } else {
        max
    }
}

/// A count raised by one when the fee is low.
pub open spec fn next_low_count(count: u64, fee: u64) -> u64 {
    if fee <= LOW_FEE_LIMIT {
        (count + 1) as u64
    } else {
        count
    }
}

/// The sender matched one of the blocking rules and is not blocked yet: a
/// low average fee over many transactions, many duplicates and no landed
/// transaction, or the fee of 9544 lamports over more than three transactions.
pub open spec fn block_rule(s: IpStats) -> bool {
    &&& {
        ||| (s.avg_fee < BLOCK_AVG_FEE_BELOW && s.tx_count > BLOCK_MIN_TXS)
        ||| (s.tx_count < 1 && s.dup_count > 100)
        ||| (s.tx_count > 3 && s.avg_fee == 9544)
    }
    &&& !s.blocked
}

impl IpStats {
    /// Statistics of an address that nothing was recorded for.
    pub open spec fn zero() -> IpStats {
        IpStats {
            tx_count: 0,
            tx_count_under_50k: 0,
            dup_count: 0,
            avg_fee: 0,
            min_fee: 0,
            max_fee: 0,
            avg_cu_limit: 0,
            avg_cu_used: 0,
            leader_tx_count: 0,
            leader_tx_count_under_50k: 0,
            leader_dup_count: 0,
            leader_avg_fee: 0,
            leader_min_fee: 0,
            leader_max_fee: 0,
            leader_avg_cu_limit: 0,
            leader_avg_cu_used: 0,
            blocked: false,
        }
    }

    /// A duplicate signature can be counted without overflow.
    pub open spec fn duplicate_fits(self, near_leader: bool) -> bool {
        &&& self.dup_count < u64::MAX
        &&& near_leader ==> self.leader_dup_count < u64::MAX
    }

    /// The statistics after one more duplicate signature.
    pub open spec fn with_duplicate(self, near_leader: bool) -> IpStats {
        IpStats {
            dup_count: (self.dup_count + 1) as u64,
            leader_dup_count: if near_leader {
                (self.leader_dup_count + 1) as u64
            } else {
                self.leader_dup_count
            },
            ..self
        }
    }

    /// A landed transaction can be recorded without overflow.
    pub open spec fn fee_fits(self, near_leader: bool, cu_limit: u64, cu_used: u64, fee: u64) -> bool {
        &&& self.tx_count < u64::MAX
        &&& avg_fits(self.tx_count, self.avg_fee, fee)
        &&& avg_fits(self.tx_count, self.avg_cu_limit, fee)
        &&& avg_fits(self.tx_count, self.avg_cu_used, fee)
        &&& fee <= LOW_FEE_LIMIT ==> self.tx_count_under_50k < u64::MAX
        &&& near_leader ==> {
            &&& self.leader_tx_count < u64::MAX
            &&& avg_fits(self.leader_tx_count, self.leader_avg_fee, fee)
            &&& avg_fits(self.leader_tx_count, self.leader_avg_cu_limit, cu_limit)
            &&& avg_fits(self.leader_tx_count, self.leader_avg_cu_used, cu_used)
            &&& fee <= LOW_FEE_LIMIT ==> self.leader_tx_count_under_50k < u64::MAX
        }
    }

    /// The statistics after one more landed transaction. Outside the leader
    /// window the compute-unit averages take in the fee, not the compute units.
    pub open spec fn with_fee(self, near_leader: bool, cu_limit: u64, cu_used: u64, fee: u64) -> IpStats {
        let s = IpStats {
            tx_count: (self.tx_count + 1) as u64,
            avg_fee: running_avg(self.tx_count, self.avg_fee, fee),
            avg_cu_limit: running_avg(self.tx_count, self.avg_cu_limit, fee),
            avg_cu_used: running_avg(self.tx_count, self.avg_cu_used, fee),
            min_fee: next_min(self.min_fee, fee),
            max_fee: next_max(self.max_fee, fee),
            tx_count_under_50k: next_low_count(self.tx_count_under_50k, fee),
            ..self
        };
        if near_leader {
            IpStats {
                leader_tx_count: (self.leader_tx_count + 1) as u64,
                leader_avg_fee: running_avg(self.leader_tx_count, self.leader_avg_fee, fee),
                leader_avg_cu_limit: running_avg(
                    self.leader_tx_count,
                    self.leader_avg_cu_limit,
                    cu_limit,
                ),
                leader_avg_cu_used: running_avg(
                    self.leader_tx_count,
                    self.leader_avg_cu_used,
                    cu_used,
                ),
                leader_min_fee: next_min(self.leader_min_fee, fee),
                leader_max_fee: next_max(self.leader_max_fee, fee),
                leader_tx_count_under_50k: next_low_count(self.leader_tx_count_under_50k, fee),
                ..s
            }
        } else {
            s
        }
    }

    /// The statistics once the address is blocked.
    pub open spec fn with_blocked(self) -> IpStats {
        IpStats { blocked: true, ..self }
    }

    /// Counts one more duplicate signature.
    pub fn add_duplicate(&mut self, near_leader: bool)
        requires
            old(self).duplicate_fits(near_leader),
        ensures
            *final(self) == old(self).with_duplicate(near_leader),
    {
        self.dup_count += 1;
        if near_leader {
            self.leader_dup_count += 1;
        }
    }

    /// Records one more landed transaction with its fee and compute units.
    pub fn add_fee(&mut self, near_leader: bool, cu_limit: u64, cu_used: u64, fee: u64)
        requires
            old(self).fee_fits(near_leader, cu_limit, cu_used, fee),
        ensures
            *final(self) == old(self).with_fee(near_leader, cu_limit, cu_used, fee),
    {
        let new_count = self.tx_count + 1;
        self.avg_fee = (self.tx_count * self.avg_fee + fee) / new_count;
        self.avg_cu_limit = (self.tx_count * self.avg_cu_limit + fee) / new_count;
        self.avg_cu_used = (self.tx_count * self.avg_cu_used + fee) / new_count;
        self.tx_count = new_count;

        if self.min_fee == 0 || fee < self.min_fee {
            self.min_fee = fee;
        }
        if fee > self.max_fee {
            self.max_fee = fee;
        }

        if fee <= LOW_FEE_LIMIT {
            self.tx_count_under_50k += 1;
        }

        if near_leader {
            let leader_new_count = self.leader_tx_count + 1;
            self.leader_avg_fee = (self.leader_tx_count * self.leader_avg_fee + fee) / leader_new_count;
            self.leader_avg_cu_limit = (self.leader_tx_count * self.leader_avg_cu_limit + cu_limit)
                / leader_new_count;
            self.leader_avg_cu_used = (self.leader_tx_count * self.leader_avg_cu_used + cu_used)
                / leader_new_count;
            self.leader_tx_count = leader_new_count;

            if self.leader_min_fee == 0 || fee < self.leader_min_fee {
                self.leader_min_fee = fee;
            }
            if fee > self.leader_max_fee {
                self.leader_max_fee = fee;
            }

            if fee <= LOW_FEE_LIMIT {
                self.leader_tx_count_under_50k += 1;
            }
        }
    }

    /// Whether a duplicate signature can be counted without overflow.
    pub fn duplicate_in_range(&self, near_leader: bool) -> (r: bool)
        ensures
            r == self.duplicate_fits(near_leader),
    {
        self.dup_count < u64::MAX && (!near_leader || self.leader_dup_count < u64::MAX)
    }

    /// Whether a landed transaction can be recorded without overflow.
    pub fn fee_in_range(&self, near_leader: bool, cu_limit: u64, cu_used: u64, fee: u64) -> (r: bool)
        ensures
            r == self.fee_fits(near_leader, cu_limit, cu_used, fee),
    {
        let low = fee <= LOW_FEE_LIMIT;
        let base = self.tx_count < u64::MAX && avg_in_range(self.tx_count, self.avg_fee, fee)
            && avg_in_range(self.tx_count, self.avg_cu_limit, fee) && avg_in_range(
            self.tx_count,
            self.avg_cu_used,
            fee,
        ) && (!low || self.tx_count_under_50k < u64::MAX);
        let leader = self.leader_tx_count < u64::MAX && avg_in_range(
            self.leader_tx_count,
            self.leader_avg_fee,
            fee,
        ) && avg_in_range(self.leader_tx_count, self.leader_avg_cu_limit, cu_limit)
            && avg_in_range(self.leader_tx_count, self.leader_avg_cu_used, cu_used) && (!low
            || self.leader_tx_count_under_50k < u64::MAX);
        base && (!near_leader || leader)
    }

    /// Whether the statistics make the address one to block now.
    pub fn should_block(&self) -> (r: bool)
        ensures
            r == block_rule(*self),
    {
        ((self.avg_fee < BLOCK_AVG_FEE_BELOW && self.tx_count > BLOCK_MIN_TXS) || (self.tx_count
            < 1 && self.dup_count > 100) || (self.tx_count > 3 && self.avg_fee == 9544))
            && !self.blocked
    }
}

impl Default for IpStats {
    fn default() -> (r: Self)
        ensures
            r == IpStats::zero(),
    {
        IpStats {
            tx_count: 0,
            tx_count_under_50k: 0,
            avg_fee: 0,
            min_fee: 0,
            max_fee: 0,
            dup_count: 0,
            avg_cu_limit: 0,
            avg_cu_used: 0,
            blocked: false,
            leader_tx_count: 0,
            leader_tx_count_under_50k: 0,
            leader_avg_fee: 0,
            leader_min_fee: 0,
            leader_max_fee: 0,
            leader_dup_count: 0,
            leader_avg_cu_limit: 0,
            leader_avg_cu_used: 0,
        }
    }
}

} // verus!
