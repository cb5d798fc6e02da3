use ipfee::clock::{epoch_millis, now_millis};
use ipfee::schedule::near_leader;
use ipfee::state::State;
use ipfee::stats::{avg_in_range, IpAddr, IpStats, Signature};
use ipfee::timers::Timers;

fn sig(n: u8) -> Signature {
    let mut bytes = [0u8; 64];
    bytes[0] = n;
    bytes[63] = n.wrapping_mul(7);
    Signature { bytes }
}

fn ip(n: u8) -> IpAddr {
    IpAddr::v4(u32::from_be_bytes([10, 0, 0, n]))
}

fn stats_with(tx_count: u64, avg_fee: u64, dup_count: u64) -> IpStats {
    let mut s = IpStats::default();
    s.tx_count = tx_count;
    s.avg_fee = avg_fee;
    s.dup_count = dup_count;
    s
}

#[test]
fn default_stats_are_zero() {
    let s = IpStats::default();
    assert_eq!(s.tx_count, 0);
    assert_eq!(s.dup_count, 0);
    assert_eq!(s.avg_fee, 0);
    assert_eq!(s.min_fee, 0);
    assert_eq!(s.max_fee, 0);
    assert_eq!(s.leader_tx_count, 0);
    assert!(!s.blocked);
}

#[test]
fn add_fee_running_average_rounds_down() {
    let mut s = IpStats::default();
    s.add_fee(false, 1000, 500, 100);
    assert_eq!(s.tx_count, 1);
    assert_eq!(s.avg_fee, 100);
    s.add_fee(false, 1000, 500, 100);
    s.add_fee(false, 1000, 500, 50);
    // (2 * 100 + 50) / 3 = 83
    assert_eq!(s.avg_fee, 83);
    assert_eq!(s.tx_count, 3);
    assert_eq!(s.tx_count_under_50k, 3);
}

#[test]
fn add_fee_outside_leader_window_averages_fee_into_compute_units() {
    let mut s = IpStats::default();
    s.add_fee(false, 200000, 150000, 7000);
    assert_eq!(s.avg_cu_limit, 7000);
    assert_eq!(s.avg_cu_used, 7000);
    assert_eq!(s.leader_tx_count, 0);
    assert_eq!(s.leader_avg_cu_limit, 0);
}

#[test]
fn add_fee_in_leader_window_tracks_leader_fields() {
    let mut s = IpStats::default();
    s.add_fee(true, 200000, 150000, 7000);
    s.add_fee(true, 100000, 50000, 9000);
    assert_eq!(s.leader_tx_count, 2);
    assert_eq!(s.leader_avg_fee, 8000);
    assert_eq!(s.leader_avg_cu_limit, 150000);
    assert_eq!(s.leader_avg_cu_used, 100000);
    assert_eq!(s.leader_min_fee, 7000);
    assert_eq!(s.leader_max_fee, 9000);
    assert_eq!(s.leader_tx_count_under_50k, 2);
}

#[test]
fn min_and_max_fee_are_least_and_largest_fee() {
    let mut s = IpStats::default();
    s.add_fee(false, 0, 0, 500);
    assert_eq!(s.min_fee, 500);
    assert_eq!(s.max_fee, 500);
    s.add_fee(false, 0, 0, 800);
    assert_eq!(s.min_fee, 500);
    assert_eq!(s.max_fee, 800);
    s.add_fee(false, 0, 0, 100);
    assert_eq!(s.min_fee, 100);
    assert_eq!(s.max_fee, 800);
    s.add_fee(false, 0, 0, 600);
    assert_eq!(s.min_fee, 100);
    assert_eq!(s.max_fee, 800);
}

#[test]
fn high_fees_do_not_count_as_low() {
    let mut s = IpStats::default();
    s.add_fee(false, 0, 0, 50000);
    s.add_fee(false, 0, 0, 50001);
    assert_eq!(s.tx_count_under_50k, 1);
}

#[test]
fn add_duplicate_counts_leader_duplicates_only_near_leader() {
    let mut s = IpStats::default();
    s.add_duplicate(false);
    s.add_duplicate(true);
    assert_eq!(s.dup_count, 2);
    assert_eq!(s.leader_dup_count, 1);
}

#[test]
fn blocking_rules() {
    assert!(stats_with(301, 29999, 0).should_block());
    assert!(!stats_with(300, 29999, 0).should_block());
    assert!(!stats_with(301, 30000, 0).should_block());
    assert!(stats_with(0, 0, 101).should_block());
    assert!(!stats_with(0, 0, 100).should_block());
    assert!(!stats_with(1, 0, 500).should_block());
    assert!(stats_with(4, 9544, 0).should_block());
    assert!(!stats_with(3, 9544, 0).should_block());
    let mut blocked = stats_with(301, 10, 0);
    blocked.blocked = true;
    assert!(!blocked.should_block());
}

#[test]
fn range_checks() {
    assert!(avg_in_range(2, 10, 5));
    assert!(!avg_in_range(u64::MAX, 2, 0));
    assert!(!avg_in_range(1, u64::MAX, 1));
    assert!(avg_in_range(1, u64::MAX - 1, 1));
    let mut s = IpStats::default();
    assert!(s.fee_in_range(true, 1, 1, 1));
    s.tx_count = u64::MAX;
    assert!(!s.fee_in_range(false, 1, 1, 1));
    let mut d = IpStats::default();
    d.leader_dup_count = u64::MAX;
    assert!(d.duplicate_in_range(false));
    assert!(!d.duplicate_in_range(true));
}

#[test]
fn ip_keys_round_trip() {
    let a = IpAddr::v6(0x2001_0db8_0000_0000_0000_0000_0000_0001);
    assert_eq!(IpAddr::from_key(a.to_key()), a);
    let b = ip(9);
    assert_eq!(b.to_key(), (false, 0x0a00_0009));
    assert_ne!(IpAddr::v4(1), IpAddr::v6(1));
}

#[test]
fn new_state_is_empty() {
    let s = State::new(10, String::from("validator"));
    assert_eq!(s.identity(), "validator");
    assert_eq!(s.current_slot(), 0);
    assert_eq!(s.current_epoch(), 0);
    assert!(!s.near_leader_slots());
    assert!(s.leader_schedule().is_empty());
    assert!(s.ip_stats_records().is_empty());
}

#[test]
fn default_state_has_no_identity() {
    let s = State::default();
    assert_eq!(s.identity(), "");
    assert!(s.ip_stats_records().is_empty());
}

#[test]
fn usertx_records_sender_without_stats() {
    let mut s = State::new(10, String::new());
    assert!(s.usertx_in_range(ip(1), sig(1)));
    s.usertx(ip(1), sig(1));
    assert_eq!(s.sender_of(sig(1)), Some(ip(1)));
    assert_eq!(s.stats_of(ip(1)), None);
}

#[test]
fn repeated_signature_counts_duplicate() {
    let mut s = State::new(10, String::new());
    s.usertx(ip(1), sig(1));
    s.usertx(ip(1), sig(1));
    s.usertx(ip(2), sig(1));
    assert_eq!(s.stats_of(ip(1)).unwrap().dup_count, 1);
    assert_eq!(s.stats_of(ip(2)).unwrap().dup_count, 1);
    assert_eq!(s.stats_of(ip(2)).unwrap().leader_dup_count, 0);
    assert_eq!(s.sender_of(sig(1)), Some(ip(2)));
}

#[test]
fn fee_is_credited_to_sender() {
    let mut s = State::new(10, String::new());
    s.usertx(ip(3), sig(3));
    assert!(s.fee_in_range(sig(3), 200000, 1000, 12000));
    s.fee(sig(3), 200000, 1000, 12000);
    let st = s.stats_of(ip(3)).unwrap();
    assert_eq!(st.tx_count, 1);
    assert_eq!(st.avg_fee, 12000);
    assert_eq!(st.min_fee, 12000);
    assert_eq!(st.max_fee, 12000);
    assert_eq!(st.tx_count_under_50k, 1);
    assert_eq!(st.leader_tx_count, 0);
}

#[test]
fn fee_for_unknown_signature_changes_nothing() {
    let mut s = State::new(10, String::new());
    s.usertx(ip(3), sig(3));
    s.fee(sig(4), 1, 1, 1);
    assert_eq!(s.stats_of(ip(3)), None);
    assert!(s.ip_stats_records().is_empty());
}

#[test]
fn statistics_cache_evicts_least_recently_used() {
    let mut s = State::new(2, String::new());
    for n in 1..=3u8 {
        s.usertx(ip(n), sig(n));
        s.fee(sig(n), 0, 0, 1000);
    }
    // the signature cache holds two signatures, the statistics cache two senders
    assert_eq!(s.sender_of(sig(1)), None);
    assert_eq!(s.stats_of(ip(1)), None);
    let records = s.ip_stats_records();
    assert_eq!(records.len(), 2);
    assert_eq!(records[0].0, ip(3));
    assert_eq!(records[1].0, ip(2));
}

#[test]
fn reading_a_signature_makes_it_most_recent() {
    let mut s = State::new(2, String::new());
    s.usertx(ip(1), sig(1));
    s.usertx(ip(2), sig(2));
    // the fee reads signature 1, so signature 2 is now the least recently used
    s.fee(sig(1), 0, 0, 10);
    s.usertx(ip(3), sig(3));
    assert_eq!(s.sender_of(sig(1)), Some(ip(1)));
    assert_eq!(s.sender_of(sig(2)), None);
}

#[test]
fn fee_in_leader_window() {
    let mut s = State::new(10, String::from("me"));
    s.apply_epoch_info(1000, 0, 1);
    assert!(s.apply_leader_schedule(&vec![(String::from("me"), vec![1010])]));
    s.refresh_near_leader_slots();
    assert!(s.near_leader_slots());
    s.usertx(ip(5), sig(5));
    s.fee(sig(5), 300, 200, 60000);
    let st = s.stats_of(ip(5)).unwrap();
    assert_eq!(st.leader_tx_count, 1);
    assert_eq!(st.leader_avg_cu_limit, 300);
    assert_eq!(st.leader_avg_cu_used, 200);
    assert_eq!(st.leader_tx_count_under_50k, 0);
}

#[test]
fn out_of_range_fee_is_reported() {
    let mut s = State::new(10, String::new());
    s.usertx(ip(1), sig(1));
    s.fee(sig(1), 0, 0, u64::MAX);
    assert!(!s.fee_in_range(sig(1), 0, 0, 1));
    assert!(s.fee_in_range(sig(2), 0, 0, u64::MAX));
}

#[test]
fn blocklist_picks_and_marks_senders() {
    let mut s = State::new(10, String::new());
    let mut records = Vec::new();
    records.push((ip(1), stats_with(400, 100, 0)));
    records.push((ip(2), stats_with(400, 90000, 0)));
    records.push((ip(3), stats_with(0, 0, 150)));
    s.load_ip_stats(&records);
    let blocked = s.create_ip_blocklist();
    // cache order: most recently loaded first
    assert_eq!(blocked, vec![ip(3), ip(1)]);
    assert!(s.stats_of(ip(1)).unwrap().blocked);
    assert!(!s.stats_of(ip(2)).unwrap().blocked);
    assert!(s.stats_of(ip(3)).unwrap().blocked);
    assert_eq!(s.stats_of(ip(1)).unwrap().tx_count, 400);
    // blocking twice picks nothing more
    assert!(s.create_ip_blocklist().is_empty());
}

#[test]
fn blocklist_of_empty_state_is_empty() {
    let mut s = State::new(10, String::new());
    assert!(s.create_ip_blocklist().is_empty());
}

#[test]
fn records_round_trip() {
    let mut s = State::new(10, String::new());
    for n in 1..=4u8 {
        s.usertx(ip(n), sig(n));
        s.fee(sig(n), 0, 0, 1000 * n as u64);
    }
    let records = s.ip_stats_records();
    let mut t = State::new(10, String::new());
    let count = t.load_ip_stats(&records);
    assert_eq!(count, 4);
    for n in 1..=4u8 {
        assert_eq!(t.stats_of(ip(n)), s.stats_of(ip(n)));
    }
}

#[test]
fn loading_replaces_previous_statistics() {
    let mut s = State::new(10, String::new());
    s.usertx(ip(1), sig(1));
    s.fee(sig(1), 0, 0, 5);
    s.load_ip_stats(&vec![(ip(2), stats_with(1, 2, 3))]);
    assert_eq!(s.stats_of(ip(1)), None);
    assert_eq!(s.stats_of(ip(2)), Some(stats_with(1, 2, 3)));
}

#[test]
fn epoch_info_sets_slot_and_epoch() {
    let mut s = State::new(10, String::new());
    assert!(s.apply_epoch_info(5000, 200, 7));
    assert_eq!(s.current_slot(), 5000);
    assert_eq!(s.current_epoch(), 7);
    assert_eq!(s.current_epoch_start_slot(), 4800);
    assert!(!s.apply_epoch_info(5100, 300, 7));
    assert_eq!(s.current_slot(), 5100);
    assert_eq!(s.current_epoch_start_slot(), 4800);
}

#[test]
fn leader_schedule_is_made_absolute() {
    let mut s = State::new(10, String::from("abc"));
    s.apply_epoch_info(5000, 200, 7);
    let schedules = vec![
        (String::from("other"), vec![1, 2]),
        (String::from("abc"), vec![0, 4, 100]),
    ];
    assert!(s.apply_leader_schedule(&schedules));
    assert_eq!(s.leader_schedule(), &vec![4800, 4804, 4900]);
}

#[test]
fn missing_identity_keeps_schedule() {
    let mut s = State::new(10, String::from("abc"));
    s.apply_epoch_info(5000, 200, 7);
    s.apply_leader_schedule(&vec![(String::from("abc"), vec![1])]);
    assert!(!s.apply_leader_schedule(&vec![(String::from("xyz"), vec![2])]));
    assert_eq!(s.leader_schedule(), &vec![4801]);
}

#[test]
fn near_leader_rules() {
    // no slot before or no slot after counts as near
    assert!(near_leader(&vec![], 1000));
    assert!(near_leader(&vec![100], 1000));
    assert!(near_leader(&vec![2000], 1000));
    // both sides far away
    assert!(!near_leader(&vec![100, 2000], 1000));
    // the last past slot is close
    assert!(near_leader(&vec![100, 900, 2000], 1000));
    assert!(!near_leader(&vec![100, 850, 2000], 1000));
    // the next slot is close
    assert!(near_leader(&vec![100, 1149, 2000], 1000));
    assert!(!near_leader(&vec![100, 1150, 2000], 1000));
    // a slot equal to the current slot counts as past, at distance zero
    assert!(near_leader(&vec![100, 1000, 2000], 1000));
}

#[test]
fn refresh_uses_state_schedule() {
    let mut s = State::new(10, String::from("v"));
    s.apply_epoch_info(1000, 1000, 1);
    s.apply_leader_schedule(&vec![(String::from("v"), vec![100, 2000])]);
    s.refresh_near_leader_slots();
    assert!(!s.near_leader_slots());
    s.apply_epoch_info(1950, 0, 1);
    s.refresh_near_leader_slots();
    assert!(s.near_leader_slots());
}

#[test]
fn clock_reads_after_epoch() {
    let a = now_millis().unwrap();
    let b = now_millis().unwrap();
    assert!(a > 1_600_000_000_000);
    assert!(b >= a);
}

#[test]
fn timers_fire_after_their_intervals() {
    let mut t = Timers::new(1000);
    assert!(t.tick_in_range());
    let d = t.tick(5999);
    assert!(!d.write_stats && !d.get_epoch_info && !d.create_ip_blocklist);
    let d = t.tick(6000);
    assert!(!d.write_stats && d.get_epoch_info && !d.create_ip_blocklist);
    assert_eq!(t.last_get_epoch_info, 6000);
    let d = t.tick(61000);
    assert!(d.write_stats && d.get_epoch_info && !d.create_ip_blocklist);
    assert_eq!(t.last_write, 61000);
    let d = t.tick(121000);
    assert!(d.write_stats && d.get_epoch_info && d.create_ip_blocklist);
    assert_eq!(t.last_create_ip_blocklist, 121000);
}

#[test]
fn building_the_block_list_counts_as_a_save() {
    let mut t = Timers { last_write: 100000, last_get_epoch_info: 118000, last_create_ip_blocklist: 0 };
    let d = t.tick(120000);
    assert!(!d.write_stats && !d.get_epoch_info && d.create_ip_blocklist);
    assert_eq!(t.last_write, 120000);
    assert_eq!(t.last_get_epoch_info, 118000);
}

#[test]
fn timers_near_the_end_of_time_are_out_of_range() {
    let t = Timers::new(u64::MAX - 100);
    assert!(!t.tick_in_range());
}

#[test]
fn clock_readings_are_cut_to_64_bits() {
    assert_eq!(epoch_millis(Some(1_700_000_000_123)), Some(1_700_000_000_123));
    assert_eq!(epoch_millis(Some((1u128 << 64) + 5)), Some(5));
    assert_eq!(epoch_millis(None), None);
}

#[test]
fn average_stays_between_least_and_largest_fee() {
    let mut s = IpStats::default();
    for (i, f) in [9000u64, 20000, 1000, 15000, 3000].iter().enumerate() {
        s.add_fee(i % 2 == 0, 10, 10, *f);
        assert!(s.avg_fee >= 1000 || i < 2);
        assert!(s.avg_fee <= 20000);
        assert!(s.tx_count_under_50k <= s.tx_count);
        assert!(s.leader_tx_count <= s.tx_count);
        assert!(s.leader_tx_count_under_50k <= s.leader_tx_count);
    }
    assert_eq!(s.tx_count, 5);
}

#[test]
fn leader_min_and_max_follow_leader_fees_only() {
    let mut s = IpStats::default();
    s.add_fee(false, 0, 0, 5000);
    s.add_fee(true, 0, 0, 3000);
    s.add_fee(false, 0, 0, 1000);
    s.add_fee(true, 0, 0, 4000);
    assert_eq!((s.min_fee, s.max_fee), (1000, 5000));
    assert_eq!((s.leader_min_fee, s.leader_max_fee), (3000, 4000));
}
