//! Compile-time sizing of the bus: the topic universe, the ring depth, the
//! payload bound and the width of the pending bitmap.

use vstd::prelude::*;

verus! {

/// Number of exchanges in the topic addressing scheme.
pub const NUM_EXCHANGES: usize = 5;

/// Number of markets per exchange.
pub const NUM_MARKETS: usize = 2;

/// Number of symbols per market.
pub const NUM_SYMBOLS: usize = 30;

/// Number of channels per symbol.
pub const NUM_CHANNELS: usize = 2;

/// The flat topic universe: one topic per (exchange, market, symbol, channel).
pub const NUM_TOPICS: usize = NUM_EXCHANGES * NUM_MARKETS * NUM_SYMBOLS * NUM_CHANNELS;

/// Depth of each topic's circular message history.
pub const SLOTS_PER_TOPIC: usize = 10;

/// Total number of message slots in the journal.
pub const JOURNAL_SIZE: usize = NUM_TOPICS * SLOTS_PER_TOPIC;

/// Maximum payload length of one message; longer payloads are truncated.
pub const DATA_SIZE: usize = 1024;

/// Bits per word of the pending bitmap.
pub const WORD_BITS: usize = 64;

/// Number of bitmap words needed to give every topic one pending bit.
pub const BITWORDS: usize = (NUM_TOPICS + 63) / 64;

} // verus!
