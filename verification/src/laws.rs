//! The bus engine's laws: properties that relate several operations, proved
//! over the journal and bus models the operations' contracts are stated in.

use vstd::prelude::*;

use crate::bus::{BusModel, spec_notify};
use crate::journal::{
    JournalModel, is_fresh, journal_wf, latest_upto, pending_bit, slot_index, spec_read,
    spec_write, spec_latest, topic_bit, topic_word, lemma_topic_join,
};
use crate::message::{stored_message};
use crate::params::{BITWORDS, DATA_SIZE, JOURNAL_SIZE, NUM_TOPICS, SLOTS_PER_TOPIC, WORD_BITS};

verus! {

/// The slot a (topic, sequence) pair addresses lies inside the journal.
pub proof fn lemma_slot_index_bounds(topic_id: int, seq: u64)
    requires
        0 <= topic_id < NUM_TOPICS as int,
    ensures
        0 <= slot_index(topic_id, seq) < JOURNAL_SIZE as int,
        topic_id * (SLOTS_PER_TOPIC as int) <= slot_index(topic_id, seq) < topic_id
            * (SLOTS_PER_TOPIC as int) + (SLOTS_PER_TOPIC as int),
{
    assert(0 <= (seq as int) % (SLOTS_PER_TOPIC as int) < SLOTS_PER_TOPIC as int);
    assert(0 <= topic_id * (SLOTS_PER_TOPIC as int) && (topic_id + 1) * (SLOTS_PER_TOPIC as int)
        <= JOURNAL_SIZE as int) by (nonlinear_arith)
        requires
            0 <= topic_id < NUM_TOPICS as int,
            JOURNAL_SIZE as int == NUM_TOPICS as int * (SLOTS_PER_TOPIC as int),
    ;
    assert((topic_id + 1) * (SLOTS_PER_TOPIC as int) == topic_id * (SLOTS_PER_TOPIC as int)
        + SLOTS_PER_TOPIC as int) by (nonlinear_arith);
}

/// A write keeps the journal well formed.
pub proof fn lemma_write_preserves_wf(j: JournalModel, topic_id: int, seq: u64, payload: Seq<u8>)
    requires
        journal_wf(j),
        0 <= topic_id < NUM_TOPICS as int,
    ensures
        journal_wf(spec_write(j, topic_id, seq, payload)),
{
    lemma_slot_index_bounds(topic_id, seq);
    let j2 = spec_write(j, topic_id, seq, payload);
    assert forall|i: int|
        0 <= i < JOURNAL_SIZE as int implies (#[trigger] j2.slots[i]).data.len()
        <= DATA_SIZE as int by {
        if i != slot_index(topic_id, seq) {
            assert(j2.slots[i] == j.slots[i]);
        }
    }
    assert forall|t: int|
        NUM_TOPICS as int <= t < (BITWORDS as int) * (WORD_BITS as int) implies !pending_bit(
        j2,
        t,
    ) by {
        assert(!pending_bit(j, t));
    }
}

/// Write/read round trip: reading back the sequence number just written to
/// a topic returns exactly the stored message — the input payload truncated
/// to the maximum payload length, tagged with that sequence number.
pub proof fn lemma_write_read_round_trip(j: JournalModel, topic_id: int, seq: u64, payload: Seq<u8>)
    requires
        journal_wf(j),
        0 <= topic_id < NUM_TOPICS as int,
    ensures
        spec_read(spec_write(j, topic_id, seq, payload), topic_id, seq) == Some(
            stored_message(seq, payload),
        ),
{
    lemma_slot_index_bounds(topic_id, seq);
}

/// Stale mismatch: two writes to the same topic whose sequence numbers
/// collide on the same ring slot leave only the later one; reading the
/// earlier sequence number afterwards comes back absent.
pub proof fn lemma_stale_mismatch(
    j: JournalModel,
    topic_id: int,
    seq1: u64,
    p1: Seq<u8>,
    seq2: u64,
    p2: Seq<u8>,
)
    requires
        journal_wf(j),
        0 <= topic_id < NUM_TOPICS as int,
        seq1 != seq2,
        (seq1 as int) % (SLOTS_PER_TOPIC as int) == (seq2 as int) % (SLOTS_PER_TOPIC as int),
    ensures
        spec_read(spec_write(spec_write(j, topic_id, seq1, p1), topic_id, seq2, p2), topic_id, seq1)
            is None,
{
    lemma_slot_index_bounds(topic_id, seq1);
    assert(slot_index(topic_id, seq1) == slot_index(topic_id, seq2));
}

/// Fresh-region zero state: a freshly created journal reports latest
/// sequence number 0 for every topic and has no topic pending.
pub proof fn lemma_fresh_zero_state(j: JournalModel, topic_id: int)
    requires
        journal_wf(j),
        is_fresh(j),
        0 <= topic_id < NUM_TOPICS as int,
    ensures
        spec_latest(j, topic_id) == 0,
        !pending_bit(j, topic_id),
{
    lemma_latest_upto_fresh(j, topic_id, SLOTS_PER_TOPIC as int);
    lemma_topic_join(topic_id);
    assert(topic_word(topic_id) < BITWORDS as int) by {
        assert(topic_word(topic_id) * (WORD_BITS as int) <= topic_id);
    }
    assert(j.pending[topic_word(topic_id)] == 0u64);
    crate::bits::lemma_zero_word();
}

/// A partial ring scan never exceeds the full scan, and every slot the scan
/// covers is bounded by its result.
proof fn lemma_latest_upto_bounds(j: JournalModel, topic_id: int, k: int, m: int)
    requires
        0 <= m < k,
    ensures
        j.slots[topic_id * (SLOTS_PER_TOPIC as int) + m].seq <= latest_upto(j, topic_id, k),
    decreases k,
{
    if m < k - 1 {
        lemma_latest_upto_bounds(j, topic_id, k - 1, m);
    }
}

/// A ring scan's result is 0 or the sequence number of a scanned slot.
proof fn lemma_latest_upto_achieved(j: JournalModel, topic_id: int, k: int)
    requires
        0 <= k,
    ensures
        latest_upto(j, topic_id, k) == 0 || exists|m: int|
            0 <= m < k && (#[trigger] j.slots[topic_id * (SLOTS_PER_TOPIC as int) + m]).seq
                == latest_upto(j, topic_id, k),
    decreases k,
{
    if k > 0 {
        lemma_latest_upto_achieved(j, topic_id, k - 1);
        let s = j.slots[topic_id * (SLOTS_PER_TOPIC as int) + (k - 1)].seq;
        if s > latest_upto(j, topic_id, k - 1) {
            assert(j.slots[topic_id * (SLOTS_PER_TOPIC as int) + (k - 1)].seq == latest_upto(
                j,
                topic_id,
                k,
            ));
        }
    }
}

/// A ring scan sees only the addressed topic's slots.
proof fn lemma_latest_upto_frame(j1: JournalModel, j2: JournalModel, topic_id: int, k: int)
    requires
        0 <= k,
        forall|m: int|
            0 <= m < k ==> (#[trigger] j1.slots[topic_id * (SLOTS_PER_TOPIC as int) + m])
                == j2.slots[topic_id * (SLOTS_PER_TOPIC as int) + m],
    ensures
        latest_upto(j1, topic_id, k) == latest_upto(j2, topic_id, k),
    decreases k,
{
    if k > 0 {
        lemma_latest_upto_frame(j1, j2, topic_id, k - 1);
    }
}

/// Writing a sequence number newer than everything a topic's ring holds
/// makes it the topic's latest.
pub proof fn lemma_latest_after_write(j: JournalModel, topic_id: int, seq: u64, payload: Seq<u8>)
    requires
        journal_wf(j),
        0 <= topic_id < NUM_TOPICS as int,
        seq > spec_latest(j, topic_id),
    ensures
        spec_latest(spec_write(j, topic_id, seq, payload), topic_id) == seq,
{
    let j2 = spec_write(j, topic_id, seq, payload);
    let idx = slot_index(topic_id, seq);
    let r = (seq as int) % (SLOTS_PER_TOPIC as int);
    lemma_slot_index_bounds(topic_id, seq);
    assert(j2.slots[idx].seq == seq);
    lemma_latest_upto_bounds(j2, topic_id, SLOTS_PER_TOPIC as int, r);
    assert(latest_upto(j2, topic_id, SLOTS_PER_TOPIC as int) >= seq);
    lemma_latest_upto_achieved(j2, topic_id, SLOTS_PER_TOPIC as int);
    assert forall|m: int|
        0 <= m < SLOTS_PER_TOPIC as int implies (#[trigger] j2.slots[topic_id
        * (SLOTS_PER_TOPIC as int) + m]).seq <= seq by {
        if m != r {
            assert(j2.slots[topic_id * (SLOTS_PER_TOPIC as int) + m] == j.slots[topic_id
                * (SLOTS_PER_TOPIC as int) + m]);
            lemma_latest_upto_bounds(j, topic_id, SLOTS_PER_TOPIC as int, m);
        }
    }
}

/// Writing to one topic leaves every other topic's latest unchanged.
pub proof fn lemma_other_topic_write_preserves_latest(
    j: JournalModel,
    topic_id: int,
    other_id: int,
    seq: u64,
    payload: Seq<u8>,
)
    requires
        journal_wf(j),
        0 <= topic_id < NUM_TOPICS as int,
        0 <= other_id < NUM_TOPICS as int,
        other_id != topic_id,
    ensures
        spec_latest(spec_write(j, other_id, seq, payload), topic_id) == spec_latest(j, topic_id),
{
    let j2 = spec_write(j, other_id, seq, payload);
    lemma_slot_index_bounds(other_id, seq);
    assert forall|m: int|
        0 <= m < SLOTS_PER_TOPIC as int implies (#[trigger] j2.slots[topic_id
        * (SLOTS_PER_TOPIC as int) + m]) == j.slots[topic_id * (SLOTS_PER_TOPIC as int) + m] by {
        if topic_id * (SLOTS_PER_TOPIC as int) + m == slot_index(other_id, seq) {
            vstd::arithmetic::div_mod::lemma_fundamental_div_mod_converse(
                slot_index(other_id, seq),
                SLOTS_PER_TOPIC as int,
                topic_id,
                m,
            );
            vstd::arithmetic::div_mod::lemma_fundamental_div_mod_converse(
                slot_index(other_id, seq),
                SLOTS_PER_TOPIC as int,
                other_id,
                (seq as int) % (SLOTS_PER_TOPIC as int),
            );
        }
    }
    lemma_latest_upto_frame(j2, j, topic_id, SLOTS_PER_TOPIC as int);
}

/// Every non-zero sequence tag lies in the ring slot its remainder picks.
/// A fresh journal has it, every write keeps it, and under it the newest
/// write of a topic is recovered by reading at the topic's latest tag.
pub open spec fn ring_consistent(j: JournalModel) -> bool {
    forall|t: int, k: int|
        0 <= t < NUM_TOPICS as int && 0 <= k < SLOTS_PER_TOPIC as int ==> ((
        #[trigger] j.slots[t * (SLOTS_PER_TOPIC as int) + k]).seq == 0 || (j.slots[t
            * (SLOTS_PER_TOPIC as int) + k].seq as int) % (SLOTS_PER_TOPIC as int) == k)
}

/// A fresh journal is ring consistent: every tag is 0.
pub proof fn lemma_fresh_ring_consistent(j: JournalModel)
    requires
        journal_wf(j),
        is_fresh(j),
    ensures
        ring_consistent(j),
{
    assert forall|t: int, k: int|
        0 <= t < NUM_TOPICS as int && 0 <= k < SLOTS_PER_TOPIC as int implies (#[trigger] j.slots[t
        * (SLOTS_PER_TOPIC as int) + k]).seq == 0 by {
        lemma_slot_index_bounds(t, 0);
        assert(0 <= t * (SLOTS_PER_TOPIC as int) + k < JOURNAL_SIZE as int);
    }
}

/// A write keeps the journal ring consistent: the stored tag's remainder is
/// exactly the slot it lands in.
pub proof fn lemma_write_preserves_ring_consistent(
    j: JournalModel,
    topic_id: int,
    seq: u64,
    payload: Seq<u8>,
)
    requires
        journal_wf(j),
        ring_consistent(j),
        0 <= topic_id < NUM_TOPICS as int,
    ensures
        ring_consistent(spec_write(j, topic_id, seq, payload)),
{
    let j2 = spec_write(j, topic_id, seq, payload);
    lemma_slot_index_bounds(topic_id, seq);
    assert forall|t: int, k: int|
        0 <= t < NUM_TOPICS as int && 0 <= k < SLOTS_PER_TOPIC as int implies ((#[trigger] j2.slots[t
        * (SLOTS_PER_TOPIC as int) + k]).seq == 0 || (j2.slots[t * (SLOTS_PER_TOPIC as int)
        + k].seq as int) % (SLOTS_PER_TOPIC as int) == k) by {
        if t * (SLOTS_PER_TOPIC as int) + k == slot_index(topic_id, seq) {
            vstd::arithmetic::div_mod::lemma_fundamental_div_mod_converse(
                slot_index(topic_id, seq),
                SLOTS_PER_TOPIC as int,
                t,
                k,
            );
            vstd::arithmetic::div_mod::lemma_fundamental_div_mod_converse(
                slot_index(topic_id, seq),
                SLOTS_PER_TOPIC as int,
                topic_id,
                (seq as int) % (SLOTS_PER_TOPIC as int),
            );
            assert(k == (seq as int) % (SLOTS_PER_TOPIC as int));
        } else {
            assert(j2.slots[t * (SLOTS_PER_TOPIC as int) + k] == j.slots[t * (SLOTS_PER_TOPIC as int)
                + k]);
        }
    }
}

/// Reading a topic at its latest tag recovers the newest write: in a ring
/// consistent journal whose latest tag is non-zero, the read is present and
/// carries that tag.
pub proof fn lemma_read_latest(j: JournalModel, topic_id: int)
    requires
        journal_wf(j),
        ring_consistent(j),
        0 <= topic_id < NUM_TOPICS as int,
        spec_latest(j, topic_id) != 0,
    ensures
        spec_read(j, topic_id, spec_latest(j, topic_id)) == Some(
            j.slots[slot_index(topic_id, spec_latest(j, topic_id))],
        ),
        j.slots[slot_index(topic_id, spec_latest(j, topic_id))].seq == spec_latest(j, topic_id),
{
    let latest = spec_latest(j, topic_id);
    lemma_latest_upto_achieved(j, topic_id, SLOTS_PER_TOPIC as int);
    let m = choose|m: int|
        0 <= m < SLOTS_PER_TOPIC as int && (#[trigger] j.slots[topic_id * (SLOTS_PER_TOPIC as int)
            + m]).seq == latest;
    assert((latest as int) % (SLOTS_PER_TOPIC as int) == m);
    assert(slot_index(topic_id, latest) == topic_id * (SLOTS_PER_TOPIC as int) + m);
}

/// A run of writes to one topic, applied newest last.
pub open spec fn apply_writes(j: JournalModel, topic_id: int, ws: Seq<(u64, Seq<u8>)>) -> JournalModel
    decreases ws.len(),
{
    if ws.len() == 0 {
        j
    } else {
        spec_write(apply_writes(j, topic_id, ws.drop_last()), topic_id, ws.last().0, ws.last().1)
    }
}

/// Applying writes keeps the journal well formed.
pub proof fn lemma_apply_writes_wf(j: JournalModel, topic_id: int, ws: Seq<(u64, Seq<u8>)>)
    requires
        journal_wf(j),
        0 <= topic_id < NUM_TOPICS as int,
    ensures
        journal_wf(apply_writes(j, topic_id, ws)),
    decreases ws.len(),
{
    if ws.len() > 0 {
        lemma_apply_writes_wf(j, topic_id, ws.drop_last());
        lemma_write_preserves_wf(
            apply_writes(j, topic_id, ws.drop_last()),
            topic_id,
            ws.last().0,
            ws.last().1,
        );
    }
}

/// Latest-seq monotonicity: after a run of writes to a topic with strictly
/// increasing sequence numbers, all newer than anything the topic's ring
/// held before, the topic's latest is exactly the last written sequence
/// number.
pub proof fn lemma_latest_seq_monotonic(j: JournalModel, topic_id: int, ws: Seq<(u64, Seq<u8>)>)
    requires
        journal_wf(j),
        0 <= topic_id < NUM_TOPICS as int,
        ws.len() > 0,
        forall|i: int, k: int| 0 <= i < k < ws.len() ==> (#[trigger] ws[i]).0 < (#[trigger] ws[k]).0,
        ws[0].0 > spec_latest(j, topic_id),
    ensures
        spec_latest(apply_writes(j, topic_id, ws), topic_id) == ws.last().0,
    decreases ws.len(),
{
    if ws.len() == 1 {
        assert(ws.last() == ws[0]);
        assert(ws.drop_last().len() == 0);
        assert(apply_writes(j, topic_id, ws.drop_last()) == j);
        assert(apply_writes(j, topic_id, ws) == spec_write(j, topic_id, ws.last().0, ws.last().1));
        lemma_latest_after_write(j, topic_id, ws.last().0, ws.last().1);
    } else {
        let prefix = ws.drop_last();
        assert(prefix[0] == ws[0]);
        assert forall|i: int, k: int|
            0 <= i < k < prefix.len() implies (#[trigger] prefix[i]).0
            < (#[trigger] prefix[k]).0 by {
            assert(prefix[i] == ws[i] && prefix[k] == ws[k]);
        }
        lemma_latest_seq_monotonic(j, topic_id, prefix);
        lemma_apply_writes_wf(j, topic_id, prefix);
        assert(prefix.last() == ws[ws.len() - 2]);
        assert(ws.last().0 > prefix.last().0);
        lemma_latest_after_write(
            apply_writes(j, topic_id, prefix),
            topic_id,
            ws.last().0,
            ws.last().1,
        );
        assert(apply_writes(j, topic_id, ws) == spec_write(
            apply_writes(j, topic_id, prefix),
            topic_id,
            ws.last().0,
            ws.last().1,
        ));
    }
}

/// A run of notifies of one topic, with no drain in between.
pub open spec fn iter_notify(b: BusModel, topic_id: int, n: nat) -> BusModel
    decreases n,
{
    if n == 0 {
        b
    } else {
        spec_notify(iter_notify(b, topic_id, (n - 1) as nat), topic_id)
    }
}

/// Notifying an already-pending topic changes nothing: the pending bitmap
/// keeps its value and no wake signal is posted.
pub proof fn lemma_notify_already_pending(b: BusModel, topic_id: int)
    requires
        journal_wf(b.journal),
        0 <= topic_id < NUM_TOPICS as int,
        pending_bit(b.journal, topic_id),
    ensures
        spec_notify(b, topic_id).signal == b.signal,
        spec_notify(b, topic_id).journal.pending =~= b.journal.pending,
        spec_notify(b, topic_id).journal.slots == b.journal.slots,
{
    lemma_topic_join(topic_id);
    assert(topic_word(topic_id) < BITWORDS as int) by {
        assert(topic_word(topic_id) * (WORD_BITS as int) <= topic_id);
    }
    crate::bits::lemma_or_bit_noop(b.journal.pending[topic_word(topic_id)], topic_bit(topic_id));
}

/// Notify coalescing: any number of consecutive notifies of a topic whose
/// bit starts clear sets the bit (once — it is a bit) and posts the wake
/// signal exactly once, not once per notify.
pub proof fn lemma_notify_coalescing(b: BusModel, topic_id: int, n: nat)
    requires
        journal_wf(b.journal),
        0 <= topic_id < NUM_TOPICS as int,
        !pending_bit(b.journal, topic_id),
        n >= 1,
    ensures
        pending_bit(iter_notify(b, topic_id, n).journal, topic_id),
        iter_notify(b, topic_id, n).signal == b.signal + 1,
        iter_notify(b, topic_id, n).journal.slots == b.journal.slots,
        journal_wf(iter_notify(b, topic_id, n).journal),
    decreases n,
{
    lemma_topic_join(topic_id);
    assert(topic_word(topic_id) < BITWORDS as int) by {
        assert(topic_word(topic_id) * (WORD_BITS as int) <= topic_id);
    }
    if n == 1 {
        assert(iter_notify(b, topic_id, 0) == b);
        assert(iter_notify(b, topic_id, 1) == spec_notify(b, topic_id));
        lemma_notify_sets_bit(b, topic_id);
    } else {
        lemma_notify_coalescing(b, topic_id, (n - 1) as nat);
        let b1 = iter_notify(b, topic_id, (n - 1) as nat);
        lemma_notify_already_pending(b1, topic_id);
        let b2 = spec_notify(b1, topic_id);
        assert(iter_notify(b, topic_id, n) == b2);
        assert(b2.journal.pending == b1.journal.pending);
        assert(b2.journal == b1.journal);
    }
}

/// One notify of a topic whose bit is clear sets the bit and posts once.
pub proof fn lemma_notify_sets_bit(b: BusModel, topic_id: int)
    requires
        journal_wf(b.journal),
        0 <= topic_id < NUM_TOPICS as int,
        !pending_bit(b.journal, topic_id),
    ensures
        pending_bit(spec_notify(b, topic_id).journal, topic_id),
        spec_notify(b, topic_id).signal == b.signal + 1,
        spec_notify(b, topic_id).journal.slots == b.journal.slots,
        journal_wf(spec_notify(b, topic_id).journal),
{
    lemma_topic_join(topic_id);
    assert(topic_word(topic_id) < BITWORDS as int) by {
        assert(topic_word(topic_id) * (WORD_BITS as int) <= topic_id);
    }
    let b2 = spec_notify(b, topic_id);
    crate::bits::lemma_or_bit(b.journal.pending[topic_word(topic_id)], topic_bit(topic_id));
    assert forall|t: int|
        NUM_TOPICS as int <= t < (BITWORDS as int) * (WORD_BITS as int) implies !pending_bit(
        b2.journal,
        t,
    ) by {
        assert(!pending_bit(b.journal, t));
        lemma_topic_join(t);
        if topic_word(t) == topic_word(topic_id) {
            assert(topic_bit(t) != topic_bit(topic_id));
        }
    }
}

/// In a fresh journal every partial ring scan reports 0.
proof fn lemma_latest_upto_fresh(j: JournalModel, topic_id: int, k: int)
    requires
        journal_wf(j),
        is_fresh(j),
        0 <= topic_id < NUM_TOPICS as int,
        0 <= k <= SLOTS_PER_TOPIC as int,
    ensures
        latest_upto(j, topic_id, k) == 0,
    decreases k,
{
    if k > 0 {
        lemma_latest_upto_fresh(j, topic_id, k - 1);
        lemma_slot_index_bounds(topic_id, 0);
        assert(0 <= topic_id * (SLOTS_PER_TOPIC as int) + (k - 1) < JOURNAL_SIZE as int);
        assert(j.slots[topic_id * (SLOTS_PER_TOPIC as int) + (k - 1)].seq == 0);
    }
}

} // verus!
