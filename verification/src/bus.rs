//! The bus handle: the journal plus the wake signal, with the ring-buffer,
//! pending-bitmap and notification operations.

use vstd::prelude::*;

use crate::journal::{
    Journal, JournalModel, is_fresh, journal_wf, latest_upto, mask_bit, pending_bit, slot_index,
    spec_read, spec_write, spec_latest, topic_bit, topic_word,
};
use crate::message::{Message, copy_message, make_message};
use crate::params::{BITWORDS, JOURNAL_SIZE, NUM_TOPICS, SLOTS_PER_TOPIC, WORD_BITS};

verus! {

/// Mathematical value of a [`Bus`]: the journal it is attached to and the
/// number of undelivered wake-signal posts.
pub struct BusModel {
    pub journal: JournalModel,
    pub signal: nat,
}

/// The bus after a notify: topic `topic_id`'s pending bit is set, and the
/// wake signal is posted exactly when the bit was clear before.
pub open spec fn spec_notify(b: BusModel, topic_id: int) -> BusModel {
    let w = topic_word(topic_id);
    let word = b.journal.pending[w];
    let set_word = word | (1u64 << topic_bit(topic_id));
    BusModel {
        journal: JournalModel { slots: b.journal.slots, pending: b.journal.pending.update(w, set_word) },
        signal: if pending_bit(b.journal, topic_id) {
            b.signal
        } else {
            b.signal + 1
        },
    }
}

/// A bus handle. One producer process writes and notifies; consumer
/// processes drain. This handle owns its journal and models the named
/// semaphore as a count of unconsumed posts.
pub struct Bus {
    journal: Journal,
    signal: u64,
}

impl View for Bus {
    type V = BusModel;

    closed spec fn view(&self) -> BusModel {
        BusModel { journal: self.journal@, signal: self.signal as nat }
    }
}

impl Bus {
    /// The handle is well formed: its journal is, and the signal count is a
    /// machine word.
    pub closed spec fn wf(&self) -> bool {
        &&& self.journal.wf()
        &&& self@.journal == self.journal@
    }

    /// A well-formed bus has a well-formed journal model.
    pub proof fn lemma_wf_journal(&self)
        requires
            self.wf(),
        ensures
            journal_wf(self@.journal),
    {
    }

    /// Creates a fresh bus: a zero-filled journal (every slot's sequence
    /// number 0, no pending bit) and no outstanding wake signal.
    pub fn new() -> (r: Bus)
        ensures
            r.wf(),
            is_fresh(r@.journal),
            r@.signal == 0,
    {
        Bus { journal: Journal::new(), signal: 0 }
    }

    /// Stores a message for `topic_id`: the payload, truncated to the
    /// maximum payload length, is placed with its sequence number in the
    /// ring slot `seq` addresses. Only that slot changes; the pending bitmap
    /// and the wake signal are untouched.
    pub fn write(&mut self, topic_id: usize, seq: u64, data: &[u8])
        requires
            old(self).wf(),
            topic_id < NUM_TOPICS,
        ensures
            final(self).wf(),
            final(self)@.journal == spec_write(old(self)@.journal, topic_id as int, seq, data@),
            final(self)@.signal == old(self)@.signal,
    {
        let idx = crate::journal::slot_of(topic_id, seq);
        let msg = make_message(seq, data);
        self.journal.slots.set(idx, msg);
        proof {
            assert forall|k: int| 0 <= k < self.journal.slots@.len() implies (#[trigger] self
                .journal
                .slots@[k]).wf() by {
                if k != idx as int {
                    assert(self.journal.slots@[k] == old(self).journal.slots@[k]);
                }
            }
            assert forall|k: int| 0 <= k < JOURNAL_SIZE as int implies (#[trigger] self@
                .journal
                .slots[k]).data.len() <= crate::params::DATA_SIZE as int by {
                assert(self@.journal.slots[k] == self.journal.slots@[k]@);
            }
            assert forall|t: int|
                NUM_TOPICS as int <= t < (BITWORDS as int) * (WORD_BITS as int) implies !pending_bit(
                self@.journal,
                t,
            ) by {
                assert(!pending_bit(old(self)@.journal, t));
                assert(self@.journal.pending == old(self)@.journal.pending);
            }
            assert(self@.journal.slots =~= spec_write(old(self)@.journal, topic_id as int, seq, data@).slots);
            assert(self@.journal =~= spec_write(old(self)@.journal, topic_id as int, seq, data@));
        }
    }

    /// Reads topic `topic_id`'s message with sequence number `seq`: returns
    /// the addressed ring slot's record exactly when its stored sequence
    /// number equals `seq` — absent means the slot was never written with
    /// `seq` or has been overwritten by a later write that wrapped onto it.
    pub fn read(&self, topic_id: usize, seq: u64) -> (r: Option<Message>)
        requires
            self.wf(),
            topic_id < NUM_TOPICS,
        ensures
            match r {
                Some(m) => m.wf() && spec_read(self@.journal, topic_id as int, seq) == Some(m@),
                None => spec_read(self@.journal, topic_id as int, seq) is None,
            },
    {
        let idx = crate::journal::slot_of(topic_id, seq);
        let slot = &self.journal.slots[idx];
        if slot.seq == seq {
            Some(copy_message(slot))
        } else {
            None
        }
    }

    /// Scans topic `topic_id`'s whole ring and returns the largest sequence
    /// number stored there; 0 for a never-written topic (indistinguishable
    /// from a write that used sequence number 0).
    pub fn get_latest_seq(&self, topic_id: usize) -> (r: u64)
        requires
            self.wf(),
            topic_id < NUM_TOPICS,
        ensures
            r == spec_latest(self@.journal, topic_id as int),
    {
        let topic_offset = topic_id * SLOTS_PER_TOPIC;
        proof {
            assert(topic_offset + SLOTS_PER_TOPIC <= JOURNAL_SIZE) by (nonlinear_arith)
                requires
                    topic_id < NUM_TOPICS,
                    topic_offset as int == topic_id as int * (SLOTS_PER_TOPIC as int),
                    JOURNAL_SIZE as int == NUM_TOPICS as int * (SLOTS_PER_TOPIC as int),
            ;
        }
        let mut latest: u64 = 0;
        let mut i: usize = 0;
        while i < SLOTS_PER_TOPIC
            invariant
                self.wf(),
                topic_offset as int == topic_id as int * (SLOTS_PER_TOPIC as int),
                topic_offset + SLOTS_PER_TOPIC <= JOURNAL_SIZE,
                i <= SLOTS_PER_TOPIC,
                latest == latest_upto(self@.journal, topic_id as int, i as int),
            decreases SLOTS_PER_TOPIC - i,
        {
            let slot_seq = self.journal.slots[topic_offset + i].seq;
            if slot_seq > latest {
                latest = slot_seq;
            }
            i = i + 1;
        }
        latest
    }

    /// Marks topic `topic_id` pending. The wake signal is posted exactly
    /// when the topic's bit makes a clear-to-set transition: a topic already
    /// pending posts nothing, so bursts of notifies coalesce.
    pub fn notify(&mut self, topic_id: usize)
        requires
            old(self).wf(),
            topic_id < NUM_TOPICS,
            old(self)@.signal < u64::MAX,
        ensures
            final(self).wf(),
            final(self)@ == spec_notify(old(self)@, topic_id as int),
    {
        let (w, b) = crate::journal::bit_position(topic_id);
        let bit: u64 = 1u64 << b;
        let prev = self.journal.pending_bits[w];
        self.journal.pending_bits.set(w, prev | bit);
        proof {
            crate::bits::lemma_or_bit(prev, b);
        }
        if prev & bit == 0 {
            self.signal = self.signal + 1;
        }
        proof {
            assert forall|t: int|
                NUM_TOPICS as int <= t < (BITWORDS as int) * (WORD_BITS as int) implies !pending_bit(
                self@.journal,
                t,
            ) by {
                assert(!pending_bit(old(self)@.journal, t));
                crate::journal::lemma_topic_join(t);
                if topic_word(t) == w as int {
                    assert(topic_bit(t) != b);
                }
            }
            assert(self@.journal.pending =~= spec_notify(old(self)@, topic_id as int).journal.pending);
            assert(self@ == spec_notify(old(self)@, topic_id as int));
        }
    }

    /// Consumes one wake-signal post. The cross-process primitive blocks
    /// until a post arrives; this owned handle instead demands that a post
    /// is already outstanding, since no other thread can supply one.
    pub fn wait(&mut self)
        requires
            old(self).wf(),
            old(self)@.signal >= 1,
        ensures
            final(self).wf(),
            final(self)@.journal == old(self)@.journal,
            final(self)@.signal == old(self)@.signal - 1,
    {
        self.signal = self.signal - 1;
    }

    /// Tries to consume one wake-signal post without blocking; reports
    /// whether one was consumed.
    pub fn try_wait(&mut self) -> (r: bool)
        requires
            old(self).wf(),
        ensures
            final(self).wf(),
            final(self)@.journal == old(self)@.journal,
            r <==> old(self)@.signal > 0,
            r ==> final(self)@.signal == old(self)@.signal - 1,
            !r ==> final(self)@.signal == 0 && old(self)@.signal == 0,
    {
        if self.signal > 0 {
            self.signal = self.signal - 1;
            true
        } else {
            false
        }
    }

    /// Atomically captures and clears every pending bit, keeps those in the
    /// subscription mask, and returns the kept topic ids in ascending order.
    /// A topic pending but outside the mask is cleared all the same: its
    /// pending state is dropped, not re-queued.
    pub fn drain_pending_mask(&mut self, mask: &Vec<u64>) -> (r: Vec<usize>)
        requires
            old(self).wf(),
            mask@.len() == BITWORDS as int,
        ensures
            final(self).wf(),
            final(self)@.journal.slots == old(self)@.journal.slots,
            final(self)@.signal == old(self)@.signal,
            forall|k: int| 0 <= k < BITWORDS as int ==> final(self)@.journal.pending[k] == 0u64,
            forall|i: int, k: int| 0 <= i < k < r@.len() ==> r@[i] < r@[k],
            forall|i: int| 0 <= i < r@.len() ==> (#[trigger] r@[i]) < NUM_TOPICS,
            forall|t: usize|
                t < NUM_TOPICS
                    ==> (r@.contains(t) <==> pending_bit(old(self)@.journal, t as int)
                        && mask_bit(mask@, t as int)),
    {
        let ghost pre = old(self)@;
        let mut out: Vec<usize> = Vec::new();
        let mut w: usize = 0;
        while w < BITWORDS
            invariant
                self.wf(),
                journal_wf(pre.journal),
                mask@.len() == BITWORDS as int,
                w <= BITWORDS,
                self@.journal.slots == pre.journal.slots,
                self@.signal == pre.signal,
                forall|k: int| 0 <= k < w as int ==> self@.journal.pending[k] == 0u64,
                forall|k: int|
                    w as int <= k < BITWORDS as int ==> self@.journal.pending[k]
                        == pre.journal.pending[k],
                forall|i: int, k: int| 0 <= i < k < out@.len() ==> out@[i] < out@[k],
                forall|i: int|
                    0 <= i < out@.len() ==> (#[trigger] out@[i]) < NUM_TOPICS && (out@[i] as int)
                        < w as int * (WORD_BITS as int),
                forall|t: usize|
                    (t as int) < w as int * (WORD_BITS as int) ==> (out@.contains(t)
                        <==> pending_bit(pre.journal, t as int) && mask_bit(mask@, t as int)),
            decreases BITWORDS - w,
        {
            let captured = self.journal.pending_bits[w];
            self.journal.pending_bits.set(w, 0u64);
            let kept = captured & mask[w];
            proof {
                crate::bits::lemma_zero_word();
                assert forall|t: int|
                    NUM_TOPICS as int <= t < (BITWORDS as int) * (WORD_BITS as int) implies !pending_bit(
                    self@.journal,
                    t,
                ) by {
                    crate::journal::lemma_topic_join(t);
                    let k = topic_word(t);
                    assert(0 <= k < BITWORDS as int);
                    if self@.journal.pending[k] == 0u64 {
                        assert(!crate::bits::bit_set(0u64, topic_bit(t)));
                    } else {
                        assert(self@.journal.pending[k] == pre.journal.pending[k]);
                        assert(!pending_bit(pre.journal, t));
                    }
                }
                assert(journal_wf(self@.journal));
                assert(forall|i: int|
                    0 <= i < self.journal.slots@.len() ==> (#[trigger] self.journal.slots@[i]).wf());
                assert(self.wf());
            }
            let mut b: usize = 0;
            while b < WORD_BITS
                invariant
                    self.wf(),
                    journal_wf(pre.journal),
                    mask@.len() == BITWORDS as int,
                    w < BITWORDS,
                    b <= WORD_BITS,
                    self@.journal.slots == pre.journal.slots,
                    self@.signal == pre.signal,
                    captured == pre.journal.pending[w as int],
                    kept == captured & mask@[w as int],
                    forall|k: int| 0 <= k <= w as int ==> self@.journal.pending[k] == 0u64,
                    forall|k: int|
                        (w as int) < k < (BITWORDS as int) ==> self@.journal.pending[k]
                            == pre.journal.pending[k],
                    forall|i: int, k: int| 0 <= i < k < out@.len() ==> out@[i] < out@[k],
                    forall|i: int|
                        0 <= i < out@.len() ==> (#[trigger] out@[i]) < NUM_TOPICS && (out@[i] as int)
                            < w as int * (WORD_BITS as int) + b as int,
                    forall|t: usize|
                        (t as int) < w as int * (WORD_BITS as int) ==> (out@.contains(t)
                            <==> pending_bit(pre.journal, t as int) && mask_bit(mask@, t as int)),
                    forall|c: u64|
                        c < b as u64 ==> (out@.contains((w * WORD_BITS + c as usize) as usize)
                            <==> crate::bits::bit_set(kept, c)),
                decreases WORD_BITS - b,
            {
                if (kept >> (b as u64)) & 1u64 == 1u64 {
                    let t = w * WORD_BITS + b;
                    proof {
                        crate::journal::lemma_topic_split(w as int, b as int);
                        crate::bits::lemma_and_bit(captured, mask@[w as int]);
                        assert(crate::bits::bit_set(captured & mask@[w as int], b as u64));
                        assert(crate::bits::bit_set(captured, b as u64));
                        assert(pending_bit(pre.journal, t as int));
                        assert(t < NUM_TOPICS) by {
                            if t >= NUM_TOPICS {
                                assert(!pending_bit(pre.journal, t as int));
                            }
                        }
                    }
                    let ghost prev_out = out@;
                    out.push(t);
                    proof {
                        assert forall|y: usize| #[trigger]
                            out@.contains(y) <==> prev_out.contains(y) || y == t by {
                            if prev_out.contains(y) {
                                let i = choose|i: int|
                                    0 <= i < prev_out.len() && prev_out[i] == y;
                                assert(out@[i] == y);
                            }
                            if y == t {
                                assert(out@[out@.len() - 1] == y);
                            }
                            if out@.contains(y) {
                                let i = choose|i: int| 0 <= i < out@.len() && out@[i] == y;
                                if i < prev_out.len() {
                                    assert(prev_out[i] == y);
                                }
                            }
                        }
                    }
                } else {
                    proof {
                        crate::journal::lemma_topic_split(w as int, b as int);
                    }
                }
                proof {
                    assert forall|t2: usize|
                        (t2 as int) < w as int * (WORD_BITS as int) implies (out@.contains(t2)
                        <==> pending_bit(pre.journal, t2 as int) && mask_bit(mask@, t2 as int)) by {
                        assert((t2 as int) < w as int * (WORD_BITS as int) + b as int);
                    }
                }
                b = b + 1;
            }
            proof {
                assert forall|t2: usize|
                    (t2 as int) < (w as int + 1) * (WORD_BITS as int) implies (out@.contains(t2)
                    <==> pending_bit(pre.journal, t2 as int) && mask_bit(mask@, t2 as int)) by {
                    if w as int * (WORD_BITS as int) <= t2 as int {
                        crate::journal::lemma_topic_join(t2 as int);
                        crate::bits::lemma_and_bit(captured, mask@[w as int]);
                        let c = topic_bit(t2 as int);
                        assert(topic_word(t2 as int) == w as int) by {
                            vstd::arithmetic::div_mod::lemma_fundamental_div_mod_converse(
                                t2 as int,
                                WORD_BITS as int,
                                w as int,
                                t2 as int - w as int * (WORD_BITS as int),
                            );
                        }
                        assert(out@.contains((w * WORD_BITS + c as usize) as usize)
                            <==> crate::bits::bit_set(kept, c));
                        assert((w * WORD_BITS + c as usize) as usize == t2);
                    }
                }
                assert forall|i: int|
                    0 <= i < out@.len() implies (#[trigger] out@[i]) < NUM_TOPICS && (out@[i] as int)
                    < (w as int + 1) * (WORD_BITS as int) by {
                    assert((out@[i] as int) < (w as int) * (WORD_BITS as int) + (WORD_BITS as int));
                }
            }
            w = w + 1;
        }
        out
    }

    /// One full wake cycle: consumes a wake-signal post, drains the bitmap
    /// through the mask, then keeps draining while further posts are
    /// outstanding, so that every coalesced notification is flushed and no
    /// stale signal unit is left behind. Returns the drained topic ids in
    /// ascending order.
    pub fn wait_and_drain_mask(&mut self, mask: &Vec<u64>) -> (r: Vec<usize>)
        requires
            old(self).wf(),
            old(self)@.signal >= 1,
            mask@.len() == BITWORDS as int,
        ensures
            final(self).wf(),
            final(self)@.journal.slots == old(self)@.journal.slots,
            final(self)@.signal == 0,
            forall|k: int| 0 <= k < BITWORDS as int ==> final(self)@.journal.pending[k] == 0u64,
            forall|i: int, k: int| 0 <= i < k < r@.len() ==> r@[i] < r@[k],
            forall|i: int| 0 <= i < r@.len() ==> (#[trigger] r@[i]) < NUM_TOPICS,
            forall|t: usize|
                t < NUM_TOPICS
                    ==> (r@.contains(t) <==> pending_bit(old(self)@.journal, t as int)
                        && mask_bit(mask@, t as int)),
    {
        let ghost pre = old(self)@;
        self.wait();
        let mut out = self.drain_pending_mask(mask);
        loop
            invariant
                self.wf(),
                mask@.len() == BITWORDS as int,
                self@.journal.slots == pre.journal.slots,
                forall|k: int| 0 <= k < BITWORDS as int ==> self@.journal.pending[k] == 0u64,
                forall|i: int, k: int| 0 <= i < k < out@.len() ==> out@[i] < out@[k],
                forall|i: int| 0 <= i < out@.len() ==> (#[trigger] out@[i]) < NUM_TOPICS,
                forall|t: usize|
                    t < NUM_TOPICS
                        ==> (out@.contains(t) <==> pending_bit(pre.journal, t as int)
                            && mask_bit(mask@, t as int)),
            ensures
                self.wf(),
                mask@.len() == BITWORDS as int,
                self@.signal == 0,
                self@.journal.slots == pre.journal.slots,
                forall|k: int| 0 <= k < BITWORDS as int ==> self@.journal.pending[k] == 0u64,
                forall|i: int, k: int| 0 <= i < k < out@.len() ==> out@[i] < out@[k],
                forall|i: int| 0 <= i < out@.len() ==> (#[trigger] out@[i]) < NUM_TOPICS,
                forall|t: usize|
                    t < NUM_TOPICS
                        ==> (out@.contains(t) <==> pending_bit(pre.journal, t as int)
                            && mask_bit(mask@, t as int)),
            decreases self@.signal,
        {
            if !self.try_wait() {
                break;
            }
            let ghost drained = self@.journal;
            let mut more = self.drain_pending_mask(mask);
            proof {
                crate::bits::lemma_zero_word();
                if more@.len() > 0 {
                    let t0 = more@[0];
                    assert(more@.contains(t0));
                    assert(t0 < NUM_TOPICS);
                    assert(pending_bit(drained, t0 as int));
                    crate::journal::lemma_topic_join(t0 as int);
                    assert(drained.pending[topic_word(t0 as int)] == 0u64);
                    assert(false);
                }
                assert(out@ + more@ =~= out@);
            }
            out.append(&mut more);
        }
        out
    }
}

} // verus!
