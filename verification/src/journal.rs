//! The journal: every topic's circular message history plus the pending
//! bitmap, with the mathematical model the bus contracts are stated over.

use vstd::prelude::*;

use crate::bits::bit_set;
use crate::message::{Message, MessageModel, stored_message};
use crate::params::{BITWORDS, DATA_SIZE, JOURNAL_SIZE, NUM_TOPICS, SLOTS_PER_TOPIC, WORD_BITS};

verus! {

/// Mathematical value of a [`Journal`]: the message slots and the pending
/// bitmap words.
pub struct JournalModel {
    pub slots: Seq<MessageModel>,
    pub pending: Seq<u64>,
}

/// Index of the slot that holds topic `topic_id`'s message with sequence
/// number `seq`: the topic's ring starts at `topic_id * SLOTS_PER_TOPIC` and
/// `seq` picks a ring slot by its remainder.
pub open spec fn slot_index(topic_id: int, seq: u64) -> int {
    topic_id * (SLOTS_PER_TOPIC as int) + (seq as int) % (SLOTS_PER_TOPIC as int)
}

/// Which bitmap word holds topic `topic_id`'s pending bit.
pub open spec fn topic_word(topic_id: int) -> int {
    topic_id / (WORD_BITS as int)
}

/// Which bit within its word is topic `topic_id`'s pending bit.
pub open spec fn topic_bit(topic_id: int) -> u64 {
    (topic_id % (WORD_BITS as int)) as u64
}

/// Topic `topic_id` is marked pending in the journal's bitmap.
pub open spec fn pending_bit(j: JournalModel, topic_id: int) -> bool {
    bit_set(j.pending[topic_word(topic_id)], topic_bit(topic_id))
}

/// Topic `topic_id` is in the subscription mask `mask`.
pub open spec fn mask_bit(mask: Seq<u64>, topic_id: int) -> bool {
    bit_set(mask[topic_word(topic_id)], topic_bit(topic_id))
}

/// The journal model is well formed: full slot and bitmap arrays, every
/// payload within bound, and no pending bit beyond the topic universe.
pub open spec fn journal_wf(j: JournalModel) -> bool {
    &&& j.slots.len() == JOURNAL_SIZE as int
    &&& j.pending.len() == BITWORDS as int
    &&& forall|i: int|
        0 <= i < JOURNAL_SIZE as int ==> (#[trigger] j.slots[i]).data.len() <= DATA_SIZE as int
    &&& forall|t: int|
        NUM_TOPICS as int <= t < (BITWORDS as int) * (WORD_BITS as int) ==> !pending_bit(j, t)
}

/// The journal after a write: the addressed ring slot is replaced by the
/// truncated message, everything else is untouched.
pub open spec fn spec_write(j: JournalModel, topic_id: int, seq: u64, payload: Seq<u8>) -> JournalModel {
    JournalModel {
        slots: j.slots.update(slot_index(topic_id, seq), stored_message(seq, payload)),
        pending: j.pending,
    }
}

/// What a read returns: the addressed slot's message if its stored sequence
/// number still equals the requested one, absent otherwise.
pub open spec fn spec_read(j: JournalModel, topic_id: int, seq: u64) -> Option<MessageModel> {
    if j.slots[slot_index(topic_id, seq)].seq == seq {
        Some(j.slots[slot_index(topic_id, seq)])
    } else {
        None
    }
}

/// Maximum sequence number among the first `k` slots of topic `topic_id`'s
/// ring (0 when `k` is 0).
pub open spec fn latest_upto(j: JournalModel, topic_id: int, k: int) -> u64
    decreases k,
{
    if k <= 0 {
        0u64
    } else {
        let prev = latest_upto(j, topic_id, k - 1);
        let s = j.slots[topic_id * (SLOTS_PER_TOPIC as int) + (k - 1)].seq;
        if s > prev {
            s
        } else {
            prev
        }
    }
}

/// The latest sequence number a scan of topic `topic_id`'s ring observes:
/// the maximum over all its slots, 0 for a never-written topic.
pub open spec fn spec_latest(j: JournalModel, topic_id: int) -> u64 {
    latest_upto(j, topic_id, SLOTS_PER_TOPIC as int)
}

/// A freshly created journal: every slot zeroed (sequence 0, empty payload)
/// and no pending bit set.
pub open spec fn is_fresh(j: JournalModel) -> bool {
    &&& forall|i: int|
        0 <= i < JOURNAL_SIZE as int
            ==> (#[trigger] j.slots[i]).seq == 0 && j.slots[i].data.len() == 0
    &&& forall|w: int| 0 <= w < BITWORDS as int ==> #[trigger] j.pending[w] == 0u64
}

/// A word index and a bit position name the topic `w * WORD_BITS + c`.
pub proof fn lemma_topic_split(w: int, c: int)
    requires
        0 <= w,
        0 <= c < WORD_BITS as int,
    ensures
        topic_word(w * (WORD_BITS as int) + c) == w,
        topic_bit(w * (WORD_BITS as int) + c) == c,
{
    vstd::arithmetic::div_mod::lemma_fundamental_div_mod_converse(
        w * (WORD_BITS as int) + c,
        WORD_BITS as int,
        w,
        c,
    );
}

/// A topic id is recovered from its word index and bit position.
pub proof fn lemma_topic_join(t: int)
    requires
        0 <= t,
    ensures
        topic_word(t) * (WORD_BITS as int) + topic_bit(t) == t,
        0 <= topic_word(t),
        topic_bit(t) < WORD_BITS as u64,
{
    vstd::arithmetic::div_mod::lemma_fundamental_div_mod(t, WORD_BITS as int);
}

/// Computes the slot that holds topic `topic_id`'s message with sequence
/// number `seq`: the binary-layout contract every attached process shares.
pub fn slot_of(topic_id: usize, seq: u64) -> (r: usize)
    requires
        topic_id < NUM_TOPICS,
    ensures
        r as int == slot_index(topic_id as int, seq),
        r < JOURNAL_SIZE,
{
    let r = topic_id * SLOTS_PER_TOPIC + (seq % SLOTS_PER_TOPIC as u64) as usize;
    proof {
        assert(r < JOURNAL_SIZE) by (nonlinear_arith)
            requires
                topic_id < NUM_TOPICS,
                r as int == topic_id as int * (SLOTS_PER_TOPIC as int) + (seq as int) % (
                SLOTS_PER_TOPIC as int),
                JOURNAL_SIZE as int == NUM_TOPICS as int * (SLOTS_PER_TOPIC as int),
                SLOTS_PER_TOPIC >= 1,
        ;
    }
    r
}

/// Computes which bitmap word, and which bit of it, is topic `topic_id`'s
/// pending bit: the other half of the shared layout contract.
pub fn bit_position(topic_id: usize) -> (r: (usize, u64))
    requires
        topic_id < NUM_TOPICS,
    ensures
        r.0 as int == topic_word(topic_id as int),
        r.1 == topic_bit(topic_id as int),
        r.0 < BITWORDS,
        r.1 < WORD_BITS as u64,
{
    (topic_id / WORD_BITS, (topic_id % WORD_BITS) as u64)
}

/// The newest sequence tag among harvested slot tags: their maximum, 0 when
/// none is given (a never-written ring carries only zero tags).
pub fn latest_of_seqs(seqs: &Vec<u64>) -> (r: u64)
    ensures
        forall|i: int| 0 <= i < seqs@.len() ==> #[trigger] seqs@[i] <= r,
        r == 0 || seqs@.contains(r),
{
    let mut m: u64 = 0;
    let mut i: usize = 0;
    while i < seqs.len()
        invariant
            i <= seqs@.len(),
            forall|k: int| 0 <= k < i as int ==> #[trigger] seqs@[k] <= m,
            m == 0 || exists|k: int| 0 <= k < i as int && seqs@[k] == m,
        decreases seqs@.len() - i,
    {
        if seqs[i] > m {
            m = seqs[i];
        }
        i = i + 1;
    }
    m
}

/// The journal: `slots` holds `NUM_TOPICS * SLOTS_PER_TOPIC` message records
/// addressed by [`slot_index`]; `pending_bits` gives each topic one pending
/// bit.
pub struct Journal {
    pub slots: Vec<Message>,
    pub pending_bits: Vec<u64>,
}

impl View for Journal {
    type V = JournalModel;

    open spec fn view(&self) -> JournalModel {
        JournalModel {
            slots: self.slots@.map_values(|m: Message| m@),
            pending: self.pending_bits@,
        }
    }
}

impl Journal {
    /// The records are internally consistent and the model is well formed.
    pub open spec fn wf(&self) -> bool {
        &&& journal_wf(self@)
        &&& forall|i: int| 0 <= i < self.slots@.len() ==> (#[trigger] self.slots@[i]).wf()
    }

    /// Builds a zero-filled journal: all sequence numbers 0, all payloads
    /// empty, no pending bit set.
    pub fn new() -> (r: Journal)
        ensures
            r.wf(),
            is_fresh(r@),
    {
        let mut slots: Vec<Message> = Vec::new();
        let mut i: usize = 0;
        while i < JOURNAL_SIZE
            invariant
                i <= JOURNAL_SIZE,
                slots@.len() == i as int,
                forall|k: int|
                    0 <= k < i as int
                        ==> (#[trigger] slots@[k]).wf() && slots@[k].seq == 0
                            && slots@[k].data@.len() == 0,
            decreases JOURNAL_SIZE - i,
        {
            slots.push(Message { seq: 0, data: Vec::new(), data_len: 0 });
            i = i + 1;
        }
        let mut pending_bits: Vec<u64> = Vec::new();
        let mut w: usize = 0;
        while w < BITWORDS
            invariant
                w <= BITWORDS,
                pending_bits@.len() == w as int,
                forall|k: int| 0 <= k < w as int ==> #[trigger] pending_bits@[k] == 0u64,
            decreases BITWORDS - w,
        {
            pending_bits.push(0u64);
            w = w + 1;
        }
        let r = Journal { slots, pending_bits };
        proof {
            assert forall|i2: int| 0 <= i2 < JOURNAL_SIZE as int implies (#[trigger] r@.slots[i2]).seq
                == 0 && r@.slots[i2].data.len() == 0 by {
                assert(r@.slots[i2] == r.slots@[i2]@);
            }
            crate::bits::lemma_zero_word();
        }
        r
    }
}

} // verus!
