//! Whether the current slot is near one of the validator's leader slots.
use vstd::prelude::*;

verus! {

/// How many slots from a leader slot still count as near it.
pub const NEAR_LEADER_SLOTS: u64 = 150;

/// One step of the scan over the schedule: a slot at or before `current`
/// gives the distance back to it, the first slot after `current` gives the
/// distance forward to it, and once both are known the scan stops.
pub open spec fn scan_step(
    acc: (Option<u64>, Option<u64>),
    slot: u64,
    current: u64,
) -> (Option<u64>, Option<u64>) {
    let (since, until) = acc;
    if since is Some && until is Some {
        acc
    } else if slot <= current {
        (Some((current - slot) as u64), until)
    } else if until is None {
        (since, Some((slot - current) as u64))
    } else {
        acc
    }
}

/// The distances (since the last leader slot seen, until the next one) that
/// scanning `schedule` in order from its start yields.
pub open spec fn scan(schedule: Seq<u64>, current: u64) -> (Option<u64>, Option<u64>)
    decreases schedule.len(),
{
    if schedule.len() == 0 {
        (None, None)
    } else {
        scan_step(scan(schedule.drop_last(), current), schedule.last(), current)
    }
}

/// A distance that was not found counts as zero.
pub open spec fn or_zero(d: Option<u64>) -> u64 {
    match d {
        Some(x) => x,
        None => 0,
    }
}

/// The validator is near its leader slots: the scan found a distance below
/// `NEAR_LEADER_SLOTS` on either side, or found none on that side.
pub open spec fn near_leader_spec(schedule: Seq<u64>, current: u64) -> bool {
    let (since, until) = scan(schedule, current);
    or_zero(since) < NEAR_LEADER_SLOTS || or_zero(until) < NEAR_LEADER_SLOTS
}

/// The slots are in ascending order.
pub open spec fn sorted(s: Seq<u64>) -> bool {
    forall|i: int, j: int| 0 <= i <= j < s.len() ==> s[i] <= s[j]
}

/// Once both distances are known, the rest of the schedule changes nothing.
proof fn lemma_scan_settled(s: Seq<u64>, i: int, current: u64)
    requires
        0 <= i <= s.len(),
        scan(s.take(i), current).0 is Some,
        scan(s.take(i), current).1 is Some,
    ensures
        scan(s, current) == scan(s.take(i), current),
    decreases s.len(),
{
    if i == s.len() {
        assert(s.take(i) =~= s);
    } else {
        assert(s.drop_last().take(i) =~= s.take(i));
        lemma_scan_settled(s.drop_last(), i, current);
    }
}

/// Decides whether `current_slot` is near a slot of `schedule`, scanning the
/// schedule in order as `scan` does.
pub fn near_leader(schedule: &Vec<u64>, current_slot: u64) -> (r: bool)
    ensures
        r == near_leader_spec(schedule@, current_slot),
{
    let mut slots_since_leader: Option<u64> = None;
    let mut slots_until_next_leader: Option<u64> = None;
    let mut i: usize = 0;
    assert(schedule@.take(schedule@.len() as int) =~= schedule@);
    while i < schedule.len()
        invariant_except_break
            !(slots_since_leader is Some && slots_until_next_leader is Some),
        invariant
            i <= schedule.len(),
            (slots_since_leader, slots_until_next_leader) == scan(
                schedule@.take(i as int),
                current_slot,
            ),
            schedule@.take(schedule@.len() as int) == schedule@,
        ensures
            (slots_since_leader, slots_until_next_leader) == scan(schedule@, current_slot),
        decreases schedule.len() - i,
    {
        let slot = schedule[i];
        assert(schedule@.take(i + 1).drop_last() =~= schedule@.take(i as int));
        if slot <= current_slot {
            slots_since_leader = Some(current_slot - slot);
        } else if slots_until_next_leader.is_none() && slot >= current_slot {
            slots_until_next_leader = Some(slot - current_slot);
        }
        i += 1;
        if slots_since_leader.is_some() && slots_until_next_leader.is_some() {
            proof {
                lemma_scan_settled(schedule@, i as int, current_slot);
            }
            break;
        }
    }
    slots_since_leader.unwrap_or(0) < NEAR_LEADER_SLOTS || slots_until_next_leader.unwrap_or(0)
        < NEAR_LEADER_SLOTS
}

/// On a sorted schedule the scan finds the last slot at or before `current`
/// and the first slot after it.
proof fn lemma_scan_sorted(s: Seq<u64>, current: u64, p: int)
    requires
        sorted(s),
        0 <= p <= s.len(),
        forall|i: int| 0 <= i < p ==> s[i] <= current,
        forall|i: int| p <= i < s.len() ==> s[i] > current,
    ensures
        scan(s, current) == (
            if p > 0 {
                Some((current - s[p - 1]) as u64)
            } else {
                None::<u64>
            },
            if p < s.len() {
                Some((s[p] - current) as u64)
            } else {
                None::<u64>
            },
        ),
    decreases s.len(),
{
    if s.len() > 0 {
        let t = s.drop_last();
        let q = if p == s.len() { p - 1 } else { p };
        lemma_scan_sorted(t, current, q);
    }
}

/// The number of slots at or before `current` in a sorted schedule; they
/// come first.
proof fn lemma_split(s: Seq<u64>, current: u64) -> (p: int)
    requires
        sorted(s),
    ensures
        0 <= p <= s.len(),
        forall|i: int| 0 <= i < p ==> s[i] <= current,
        forall|i: int| p <= i < s.len() ==> s[i] > current,
    decreases s.len(),
{
    if s.len() == 0 {
        0
    } else if s.last() <= current {
        assert forall|i: int| 0 <= i < s.len() implies s[i] <= current by {
            assert(s[i] <= s[s.len() - 1]);
        }
        s.len() as int
    } else {
        let q = lemma_split(s.drop_last(), current);
        assert forall|i: int| 0 <= i < q implies s[i] <= current by {
            assert(s.drop_last()[i] == s[i]);
        }
        assert forall|i: int| q <= i < s.len() implies s[i] > current by {
            if i < s.len() - 1 {
                assert(s.drop_last()[i] == s[i]);
            }
        }
        q
    }
}

/// Law: on a sorted schedule, the validator is near its leader slots exactly
/// when no leader slot lies at or before the current slot, or none lies
/// after it, or some leader slot lies fewer than `NEAR_LEADER_SLOTS` slots
/// away on either side.
pub proof fn lemma_near_leader_sorted(schedule: Seq<u64>, current: u64)
    requires
        sorted(schedule),
    ensures
        near_leader_spec(schedule, current) <==> {
            ||| (forall|i: int| 0 <= i < schedule.len() ==> schedule[i] > current)
            ||| (forall|i: int| 0 <= i < schedule.len() ==> schedule[i] <= current)
            ||| (exists|i: int|
                0 <= i < schedule.len() && current - NEAR_LEADER_SLOTS < #[trigger] schedule[i]
                    < current + NEAR_LEADER_SLOTS)
        },
{
    let s = schedule;
    let p = lemma_split(s, current);
    lemma_scan_sorted(s, current, p);
    let none_before = forall|i: int| 0 <= i < s.len() ==> s[i] > current;
    let none_after = forall|i: int| 0 <= i < s.len() ==> s[i] <= current;
    let close = exists|i: int|
        0 <= i < s.len() && current - NEAR_LEADER_SLOTS < #[trigger] s[i] < current
            + NEAR_LEADER_SLOTS;
    if p == 0 {
        assert(none_before);
    } else if p == s.len() {
        assert(none_after);
    } else {
        assert(!none_before) by {
            assert(s[p - 1] <= current);
        }
        assert(!none_after) by {
            assert(s[p] > current);
        }
        if close {
            let i = choose|i: int|
                0 <= i < s.len() && current - NEAR_LEADER_SLOTS < #[trigger] s[i] < current
                    + NEAR_LEADER_SLOTS;
            if i < p {
                assert(s[i] <= s[p - 1]);
            } else {
                assert(s[p] <= s[i]);
            }
        }
        if current - s[p - 1] < NEAR_LEADER_SLOTS {
            assert(current - NEAR_LEADER_SLOTS < s[p - 1] < current + NEAR_LEADER_SLOTS);
        }
        if s[p] - current < NEAR_LEADER_SLOTS {
            assert(current - NEAR_LEADER_SLOTS < s[p] < current + NEAR_LEADER_SLOTS);
        }
    }
}

} // verus!
