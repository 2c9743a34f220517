use topic_bus::addr::{new_mask, set_bit, subscription_mask, topic_id, word_topics};
use topic_bus::clock::now_ms;
use topic_bus::journal::{bit_position, latest_of_seqs, slot_of};
use topic_bus::params::{BITWORDS, NUM_TOPICS, SLOTS_PER_TOPIC};
use topic_bus::parse::parse_topic_list;

#[test]
fn slot_of_addresses_ring_by_remainder() {
    assert_eq!(slot_of(0, 0), 0);
    assert_eq!(slot_of(3, 15), 3 * SLOTS_PER_TOPIC + 5);
    assert_eq!(slot_of(3, 5), 3 * SLOTS_PER_TOPIC + 5);
    assert_eq!(slot_of(599, 9), 599 * SLOTS_PER_TOPIC + 9);
}

#[test]
fn bit_position_splits_word_and_bit() {
    assert_eq!(bit_position(0), (0, 0));
    assert_eq!(bit_position(63), (0, 63));
    assert_eq!(bit_position(64), (1, 0));
    assert_eq!(bit_position(130), (2, 2));
}

#[test]
fn latest_of_seqs_is_the_maximum_tag() {
    assert_eq!(latest_of_seqs(&vec![3, 9, 2]), 9);
    assert_eq!(latest_of_seqs(&vec![]), 0);
    assert_eq!(latest_of_seqs(&vec![0, 0]), 0);
}

#[test]
fn topic_id_mixed_radix_values() {
    assert_eq!(topic_id(0, 0, 0, 0), 0);
    assert_eq!(topic_id(0, 0, 0, 1), 1);
    assert_eq!(topic_id(0, 0, 1, 0), 2);
    assert_eq!(topic_id(0, 1, 0, 0), 60);
    assert_eq!(topic_id(1, 0, 0, 0), 120);
    assert_eq!(topic_id(4, 1, 29, 1), NUM_TOPICS - 1);
}

#[test]
fn set_bit_sets_expected_word_and_bit() {
    let mut mask = new_mask();
    assert_eq!(mask, vec![0u64; BITWORDS]);
    set_bit(&mut mask, 42);
    assert_eq!(mask[0], 1u64 << 42);
    set_bit(&mut mask, 64);
    assert_eq!(mask[1], 1u64);
    set_bit(&mut mask, 42);
    assert_eq!(mask[0], 1u64 << 42);
}

#[test]
fn empty_list_subscribes_to_all_topics() {
    let mask = subscription_mask(&vec![]);
    for w in 0..BITWORDS - 1 {
        assert_eq!(mask[w], u64::MAX);
    }
    assert_eq!(mask[BITWORDS - 1], (1u64 << (NUM_TOPICS % 64)) - 1);
}

#[test]
fn subscription_mask_ignores_out_of_range_ids() {
    let mask = subscription_mask(&vec![1, NUM_TOPICS + 100, 3]);
    assert_eq!(mask[0], (1u64 << 1) | (1u64 << 3));
    for w in 1..BITWORDS {
        assert_eq!(mask[w], 0);
    }
}

#[test]
fn word_topics_decodes_set_bits_in_order() {
    assert_eq!(word_topics(1, 0b101), vec![64, 66]);
    assert_eq!(word_topics(0, 0), Vec::<usize>::new());
    assert_eq!(word_topics(0, 1u64 << 63), vec![63]);
}

#[test]
fn parse_plain_list() {
    assert_eq!(parse_topic_list("1,2,3"), vec![1, 2, 3]);
}

#[test]
fn parse_trims_whitespace() {
    assert_eq!(parse_topic_list(" 41,\t42 ,43 "), vec![41, 42, 43]);
}

#[test]
fn parse_skips_invalid_tokens() {
    assert_eq!(parse_topic_list("a,12x,+7,,8"), vec![7, 8]);
    assert_eq!(parse_topic_list("-3,9"), vec![9]);
}

#[test]
fn parse_empty_string_gives_no_topics() {
    assert_eq!(parse_topic_list(""), Vec::<usize>::new());
    assert_eq!(parse_topic_list("   "), Vec::<usize>::new());
}

#[test]
fn parse_respects_machine_range() {
    assert_eq!(parse_topic_list("18446744073709551616"), Vec::<usize>::new());
    assert_eq!(parse_topic_list("18446744073709551615"), vec![usize::MAX]);
}

#[test]
fn parse_accepts_plus_and_leading_zeros() {
    assert_eq!(parse_topic_list("+0009"), vec![9]);
}

#[test]
fn clock_reads_after_the_epoch() {
    // The build machine's clock stands well after 2020.
    assert!(now_ms() > 1_600_000_000_000);
}
