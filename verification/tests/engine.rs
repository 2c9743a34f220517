use topic_bus::addr::subscription_mask;
use topic_bus::bus::Bus;
use topic_bus::params::{BITWORDS, DATA_SIZE, NUM_TOPICS};

#[test]
fn write_read_round_trip() {
    let mut bus = Bus::new();
    bus.write(3, 5, b"abc");
    let m = bus.read(3, 5).expect("just-written message must be readable");
    assert_eq!(m.seq, 5);
    assert_eq!(m.data_len, 3);
    assert_eq!(m.data, b"abc".to_vec());
}

#[test]
fn write_truncates_long_payload() {
    let mut bus = Bus::new();
    let payload = vec![7u8; DATA_SIZE + 900];
    bus.write(0, 1, &payload);
    let m = bus.read(0, 1).expect("written message must be readable");
    assert_eq!(m.data_len as usize, DATA_SIZE);
    assert_eq!(m.data, vec![7u8; DATA_SIZE]);
}

#[test]
fn stale_mismatch() {
    let mut bus = Bus::new();
    bus.write(4, 5, b"one");
    bus.write(4, 15, b"two");
    assert!(bus.read(4, 5).is_none());
    let m = bus.read(4, 15).expect("latest write must be readable");
    assert_eq!(m.data, b"two".to_vec());
}

#[test]
fn latest_seq_monotonic() {
    let mut bus = Bus::new();
    for seq in 1..=15u64 {
        bus.write(2, seq, b"payload");
        bus.write(7, seq * 3, b"other topic");
    }
    assert_eq!(bus.get_latest_seq(2), 15);
    assert_eq!(bus.get_latest_seq(7), 45);
    assert_eq!(bus.get_latest_seq(9), 0);
}

#[test]
fn ring_wraparound_loses_oldest() {
    let mut bus = Bus::new();
    for seq in 1..=11u64 {
        bus.write(0, seq, b"x");
    }
    assert!(bus.read(0, 1).is_none());
    assert!(bus.read(0, 2).is_some());
    assert!(bus.read(0, 11).is_some());
    assert_eq!(bus.get_latest_seq(0), 11);
}

#[test]
fn read_at_latest_recovers_newest_write() {
    let mut bus = Bus::new();
    for seq in 1..=14u64 {
        bus.write(6, seq, format!("payload {}", seq).as_bytes());
    }
    let latest = bus.get_latest_seq(6);
    assert_eq!(latest, 14);
    let m = bus.read(6, latest).expect("the newest write must be recoverable");
    assert_eq!(m.seq, 14);
    assert_eq!(m.data, b"payload 14".to_vec());
}

#[test]
fn notify_coalesces_signal_posts() {
    let mut bus = Bus::new();
    bus.notify(7);
    bus.notify(7);
    bus.notify(7);
    assert!(bus.try_wait());
    assert!(!bus.try_wait());
}

#[test]
fn notify_distinct_topics_posts_each() {
    let mut bus = Bus::new();
    bus.notify(1);
    bus.notify(2);
    assert!(bus.try_wait());
    assert!(bus.try_wait());
    assert!(!bus.try_wait());
}

#[test]
fn drain_filters_by_mask_and_clears_everything() {
    let mut bus = Bus::new();
    bus.notify(2);
    bus.notify(3);
    let only_three = subscription_mask(&vec![3]);
    let got = bus.drain_pending_mask(&only_three);
    assert_eq!(got, vec![3]);
    // Topic 2 was pending but unsubscribed: cleared by the drain, not kept.
    let all = subscription_mask(&vec![]);
    let got = bus.drain_pending_mask(&all);
    assert_eq!(got, Vec::<usize>::new());
}

#[test]
fn drain_reports_each_pending_topic_once_in_order() {
    let mut bus = Bus::new();
    bus.notify(70);
    bus.notify(3);
    bus.notify(130);
    bus.notify(3);
    let all = subscription_mask(&vec![]);
    let got = bus.drain_pending_mask(&all);
    assert_eq!(got, vec![3, 70, 130]);
}

#[test]
fn end_to_end_demo_scenario() {
    let mut bus = Bus::new();
    bus.write(3, 5, b"abc");
    bus.notify(3);
    let mask = subscription_mask(&vec![3]);
    let got = bus.wait_and_drain_mask(&mask);
    assert_eq!(got, vec![3]);
    assert_eq!(bus.get_latest_seq(3), 5);
    let m = bus.read(3, 5).expect("the published message must be readable");
    assert_eq!(m.data_len, 3);
    assert_eq!(m.data, b"abc".to_vec());
}

#[test]
fn fresh_bus_has_zero_state() {
    let mut bus = Bus::new();
    for t in [0usize, 3, 42, NUM_TOPICS - 1] {
        assert_eq!(bus.get_latest_seq(t), 0);
    }
    let all = subscription_mask(&vec![]);
    let got = bus.drain_pending_mask(&all);
    assert_eq!(got, Vec::<usize>::new());
    assert!(!bus.try_wait());
}

#[test]
fn wait_consumes_one_post() {
    let mut bus = Bus::new();
    bus.notify(0);
    bus.wait();
    assert!(!bus.try_wait());
}

#[test]
fn wait_and_drain_flushes_all_posts() {
    let mut bus = Bus::new();
    bus.notify(1);
    bus.notify(2);
    let all = subscription_mask(&vec![]);
    let got = bus.wait_and_drain_mask(&all);
    assert_eq!(got, vec![1, 2]);
    assert!(!bus.try_wait());
}

#[test]
fn mask_width_matches_topic_universe() {
    assert_eq!(BITWORDS, (NUM_TOPICS + 63) / 64);
    let all = subscription_mask(&vec![]);
    assert_eq!(all.len(), BITWORDS);
}
