//! The fixed-size message record stored in a journal slot: a sequence number
//! plus a bounded byte payload.

use vstd::prelude::*;

use crate::params::DATA_SIZE;

verus! {

/// Mathematical value of a [`Message`]: the sequence number and the stored
/// payload bytes (already truncated to [`DATA_SIZE`]).
pub struct MessageModel {
    pub seq: u64,
    pub data: Seq<u8>,
}

/// One message record. `data` holds exactly the `data_len` stored payload
/// bytes; `data_len` never exceeds [`DATA_SIZE`].
pub struct Message {
    pub seq: u64,
    pub data: Vec<u8>,
    pub data_len: u32,
}

impl Message {
    /// The record is internally consistent: the length field matches the
    /// payload and respects the payload bound.
    pub open spec fn wf(&self) -> bool {
        &&& self.data@.len() == self.data_len as int
        &&& self.data_len as int <= DATA_SIZE as int
    }
}

impl View for Message {
    type V = MessageModel;

    open spec fn view(&self) -> MessageModel {
        MessageModel { seq: self.seq, data: self.data@ }
    }
}

impl Default for Message {
    /// The zeroed record a fresh journal slot holds: sequence number 0 and
    /// an empty payload.
    fn default() -> (r: Message)
        ensures
            r.wf(),
            r@.seq == 0,
            r@.data.len() == 0,
    {
        Message { seq: 0, data: Vec::new(), data_len: 0 }
    }
}

/// The payload bytes a write stores for input `payload`: the input truncated
/// to the maximum payload length.
pub open spec fn stored_data(payload: Seq<u8>) -> Seq<u8> {
    if payload.len() <= DATA_SIZE as int {
        payload
    } else {
        payload.take(DATA_SIZE as int)
    }
}

/// The message a write of (`seq`, `payload`) stores.
pub open spec fn stored_message(seq: u64, payload: Seq<u8>) -> MessageModel {
    MessageModel { seq, data: stored_data(payload) }
}

/// Copies the first `len` bytes of `src` into a fresh vector.
pub fn copy_prefix(src: &[u8], len: usize) -> (r: Vec<u8>)
    requires
        len <= src@.len(),
    ensures
        r@ == src@.take(len as int),
{
    let mut out: Vec<u8> = Vec::new();
    let mut i: usize = 0;
    while i < len
        invariant
            i <= len,
            len <= src@.len(),
            out@ == src@.take(i as int),
        decreases len - i,
    {
        out.push(src[i]);
        proof {
            assert(out@ =~= src@.take(i as int + 1));
        }
        i = i + 1;
    }
    out
}

/// Builds the message record a write stores: `payload` truncated to
/// [`DATA_SIZE`] bytes, tagged with `seq`.
pub fn make_message(seq: u64, payload: &[u8]) -> (r: Message)
    ensures
        r.wf(),
        r@ == stored_message(seq, payload@),
{
    let plen = payload.len();
    let len = if plen < DATA_SIZE {
        plen
    } else {
        DATA_SIZE
    };
    let data = copy_prefix(payload, len);
    proof {
        if payload@.len() <= DATA_SIZE as int {
            assert(payload@.take(len as int) =~= payload@);
        }
    }
    Message { seq, data, data_len: len as u32 }
}

/// Copies a message record field for field.
pub fn copy_message(m: &Message) -> (r: Message)
    requires
        m.wf(),
    ensures
        r.wf(),
        r@ == m@,
{
    let data = copy_prefix(m.data.as_slice(), m.data.len());
    proof {
        assert(m.data@.take(m.data@.len() as int) =~= m.data@);
    }
    Message { seq: m.seq, data, data_len: m.data_len }
}

} // verus!
