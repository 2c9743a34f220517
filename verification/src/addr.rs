//! Topic addressing and subscription masks: the mixed-radix map from the
//! (exchange, market, symbol, channel) tuple to a flat topic id, and the
//! consumer-local bitmask of subscribed topics.

use vstd::prelude::*;

use crate::bits::bit_set;
use crate::journal::{lemma_topic_join, mask_bit, topic_bit, topic_word};
use crate::params::{
    BITWORDS, NUM_CHANNELS, NUM_EXCHANGES, NUM_MARKETS, NUM_SYMBOLS, NUM_TOPICS, WORD_BITS,
};

verus! {

/// The mixed-radix encoding of an (exchange, market, symbol, channel) tuple.
pub open spec fn spec_topic_id(exchange: int, market: int, symbol: int, channel: int) -> int {
    ((exchange * (NUM_MARKETS as int) + market) * (NUM_SYMBOLS as int) + symbol)
        * (NUM_CHANNELS as int) + channel
}

/// Computes the flat topic id of an (exchange, market, symbol, channel)
/// tuple; the result always lies in the topic universe.
pub fn topic_id(exchange: usize, market: usize, symbol: usize, channel: usize) -> (r: usize)
    requires
        exchange < NUM_EXCHANGES,
        market < NUM_MARKETS,
        symbol < NUM_SYMBOLS,
        channel < NUM_CHANNELS,
    ensures
        r == spec_topic_id(exchange as int, market as int, symbol as int, channel as int),
        r < NUM_TOPICS,
{
    ((exchange * NUM_MARKETS + market) * NUM_SYMBOLS + symbol) * NUM_CHANNELS + channel
}

/// The topic-id encoding is injective over its domain: distinct tuples name
/// distinct topics.
pub proof fn lemma_topic_id_injective(
    e1: int,
    m1: int,
    s1: int,
    c1: int,
    e2: int,
    m2: int,
    s2: int,
    c2: int,
)
    requires
        0 <= e1 < NUM_EXCHANGES as int,
        0 <= m1 < NUM_MARKETS as int,
        0 <= s1 < NUM_SYMBOLS as int,
        0 <= c1 < NUM_CHANNELS as int,
        0 <= e2 < NUM_EXCHANGES as int,
        0 <= m2 < NUM_MARKETS as int,
        0 <= s2 < NUM_SYMBOLS as int,
        0 <= c2 < NUM_CHANNELS as int,
        spec_topic_id(e1, m1, s1, c1) == spec_topic_id(e2, m2, s2, c2),
    ensures
        e1 == e2 && m1 == m2 && s1 == s2 && c1 == c2,
{
    let a1 = (e1 * (NUM_MARKETS as int) + m1) * (NUM_SYMBOLS as int) + s1;
    let a2 = (e2 * (NUM_MARKETS as int) + m2) * (NUM_SYMBOLS as int) + s2;
    assert(a1 * (NUM_CHANNELS as int) + c1 == a2 * (NUM_CHANNELS as int) + c2);
    assert(a1 == a2 && c1 == c2);
    let b1 = e1 * (NUM_MARKETS as int) + m1;
    let b2 = e2 * (NUM_MARKETS as int) + m2;
    assert(b1 * (NUM_SYMBOLS as int) + s1 == b2 * (NUM_SYMBOLS as int) + s2);
    assert(b1 == b2 && s1 == s2);
    assert(e1 == e2 && m1 == m2);
}

/// Builds an empty subscription mask: no topic subscribed.
pub fn new_mask() -> (mask: Vec<u64>)
    ensures
        mask@.len() == BITWORDS as int,
        forall|t: int|
            0 <= t < (BITWORDS as int) * (WORD_BITS as int) ==> !mask_bit(mask@, t),
{
    let mut mask: Vec<u64> = Vec::new();
    let mut w: usize = 0;
    while w < BITWORDS
        invariant
            w <= BITWORDS,
            mask@.len() == w as int,
            forall|k: int| 0 <= k < w as int ==> #[trigger] mask@[k] == 0u64,
        decreases BITWORDS - w,
    {
        mask.push(0u64);
        w = w + 1;
    }
    proof {
        crate::bits::lemma_zero_word();
        assert forall|t: int|
            0 <= t < (BITWORDS as int) * (WORD_BITS as int) implies !mask_bit(mask@, t) by {
            lemma_topic_join(t);
            assert(topic_word(t) < BITWORDS as int) by {
                assert(topic_word(t) * (WORD_BITS as int) <= t);
            }
            assert(mask@[topic_word(t)] == 0u64);
        }
    }
    mask
}

/// Adds one topic to a subscription mask: the topic's bit is set, every
/// other topic's bit keeps its value.
pub fn set_bit(mask: &mut Vec<u64>, topic_id: usize)
    requires
        old(mask)@.len() == BITWORDS as int,
        topic_id < NUM_TOPICS,
    ensures
        final(mask)@.len() == BITWORDS as int,
        mask_bit(final(mask)@, topic_id as int),
        forall|t: int|
            0 <= t < (BITWORDS as int) * (WORD_BITS as int) && t != topic_id as int
                ==> (mask_bit(final(mask)@, t) <==> mask_bit(old(mask)@, t)),
{
    let (w, b) = crate::journal::bit_position(topic_id);
    let word = mask[w];
    mask.set(w, word | (1u64 << b));
    proof {
        crate::bits::lemma_or_bit(word, b);
        assert forall|t: int|
            0 <= t < (BITWORDS as int) * (WORD_BITS as int) && t != topic_id as int implies (
        mask_bit(mask@, t) <==> mask_bit(old(mask)@, t)) by {
            lemma_topic_join(t);
            assert(topic_word(t) < BITWORDS as int) by {
                assert(topic_word(t) * (WORD_BITS as int) <= t);
            }
            if topic_word(t) == w as int {
                assert(topic_bit(t) != b);
            } else {
                assert(mask@[topic_word(t)] == old(mask)@[topic_word(t)]);
            }
        }
    }
}

/// The topic ids a captured bitmap word names, in ascending bit order: bit
/// `c` of word `word_index` stands for topic `word_index * WORD_BITS + c`.
/// This is the decoding a consumer applies to each word it harvests from a
/// pending bitmap.
pub fn word_topics(word_index: usize, bits: u64) -> (r: Vec<usize>)
    requires
        word_index < BITWORDS,
    ensures
        forall|i: int, k: int| 0 <= i < k < r@.len() ==> r@[i] < r@[k],
        forall|i: int|
            0 <= i < r@.len() ==> (word_index as int) * (WORD_BITS as int) <= ((#[trigger] r@[i]) as int)
                && ((#[trigger] r@[i]) as int) < ((word_index as int + 1) * (WORD_BITS as int)),
        forall|c: u64|
            c < WORD_BITS as u64 ==> (r@.contains((word_index * WORD_BITS + c as usize) as usize)
                <==> bit_set(bits, c)),
{
    let mut out: Vec<usize> = Vec::new();
    let mut b: usize = 0;
    while b < WORD_BITS
        invariant
            word_index < BITWORDS,
            b <= WORD_BITS,
            forall|i: int, k: int| 0 <= i < k < out@.len() ==> out@[i] < out@[k],
            forall|i: int|
                0 <= i < out@.len() ==> (word_index as int) * (WORD_BITS as int) <= ((
                #[trigger] out@[i]) as int) && (out@[i] as int) < ((word_index as int) * (WORD_BITS as int) + b as int),
            forall|c: u64|
                c < b as u64 ==> (out@.contains((word_index * WORD_BITS + c as usize) as usize)
                    <==> bit_set(bits, c)),
        decreases WORD_BITS - b,
    {
        if (bits >> (b as u64)) & 1u64 == 1u64 {
            let t = word_index * WORD_BITS + b;
            let ghost prev_out = out@;
            out.push(t);
            proof {
                assert forall|y: usize| #[trigger]
                    out@.contains(y) <==> prev_out.contains(y) || y == t by {
                    if prev_out.contains(y) {
                        let i = choose|i: int| 0 <= i < prev_out.len() && prev_out[i] == y;
                        assert(out@[i] == y);
                    }
                    if y == t {
                        assert(out@[out@.len() - 1] == y);
                    }
                    if out@.contains(y) {
                        let i = choose|i: int| 0 <= i < out@.len() && out@[i] == y;
                        if i < prev_out.len() {
                            assert(prev_out[i] == y);
                        }
                    }
                }
            }
        }
        b = b + 1;
    }
    out
}

/// Builds a consumer's subscription mask from a list of topic ids: exactly
/// the listed in-range topics are subscribed; an empty list subscribes to
/// every topic.
pub fn subscription_mask(topics: &Vec<usize>) -> (mask: Vec<u64>)
    ensures
        mask@.len() == BITWORDS as int,
        topics@.len() == 0 ==> forall|t: int|
            0 <= t < NUM_TOPICS as int ==> mask_bit(mask@, t),
        topics@.len() > 0 ==> forall|t: int|
            0 <= t < (BITWORDS as int) * (WORD_BITS as int)
                ==> (mask_bit(mask@, t) <==> t < NUM_TOPICS as int && topics@.contains(
                t as usize,
            )),
{
    let mut mask = new_mask();
    if topics.len() == 0 {
        let mut t: usize = 0;
        while t < NUM_TOPICS
            invariant
                t <= NUM_TOPICS,
                mask@.len() == BITWORDS as int,
                forall|t2: int| 0 <= t2 < t as int ==> mask_bit(mask@, t2),
            decreases NUM_TOPICS - t,
        {
            set_bit(&mut mask, t);
            t = t + 1;
        }
        mask
    } else {
        let mut i: usize = 0;
        while i < topics.len()
            invariant
                i <= topics@.len(),
                mask@.len() == BITWORDS as int,
                forall|t: int|
                    0 <= t < (BITWORDS as int) * (WORD_BITS as int)
                        ==> (mask_bit(mask@, t) <==> t < NUM_TOPICS as int && topics@.take(
                        i as int,
                    ).contains(t as usize)),
            decreases topics@.len() - i,
        {
            let topic = topics[i];
            let ghost prev = mask@;
            if topic < NUM_TOPICS {
                set_bit(&mut mask, topic);
            }
            proof {
                assert forall|t: int|
                    0 <= t < (BITWORDS as int) * (WORD_BITS as int) implies (mask_bit(mask@, t)
                    <==> t < NUM_TOPICS as int && topics@.take(i as int + 1).contains(
                    t as usize,
                )) by {
                    assert(topics@.take(i as int + 1) =~= topics@.take(i as int).push(
                        topics@[i as int],
                    ));
                    let cur = topics@.take(i as int);
                    let nxt = topics@.take(i as int + 1);
                    assert forall|y: usize| #[trigger]
                        nxt.contains(y) <==> cur.contains(y) || y == topics@[i as int] by {
                        if cur.contains(y) {
                            let k = choose|k: int| 0 <= k < cur.len() && cur[k] == y;
                            assert(nxt[k] == y);
                        }
                        if y == topics@[i as int] {
                            assert(nxt[nxt.len() - 1] == y);
                        }
                        if nxt.contains(y) {
                            let k = choose|k: int| 0 <= k < nxt.len() && nxt[k] == y;
                            if k < cur.len() {
                                assert(cur[k] == y);
                            }
                        }
                    }
                    if topic >= NUM_TOPICS {
                        assert(mask@ == prev);
                    }
                }
            }
            i = i + 1;
        }
        proof {
            assert(topics@.take(topics@.len() as int) =~= topics@);
        }
        mask
    }
}

} // verus!
