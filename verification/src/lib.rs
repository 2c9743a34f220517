//! A multi-topic publish/subscribe bus engine.
//!
//! The engine keeps, per topic, a small fixed-depth ring of sequence-tagged
//! messages, a one-bit-per-topic pending bitmap, and a counting wake signal.
//! Producers write a message into a topic's ring slot and then mark the topic
//! pending; the wake signal is posted only on a clear-to-set transition of the
//! topic's bit, so bursts of writes coalesce into a single wake cycle.
//! Consumers drain the bitmap through a subscription mask, harvesting and
//! clearing every pending bit in one step per word.

pub mod addr;
pub mod bits;
pub mod bus;
pub mod clock;
pub mod journal;
pub mod laws;
pub mod message;
pub mod params;
pub mod parse;
