//! Single-bit views of the 64-bit bitmap words, and the bit-level facts the
//! pending-bitmap protocol rests on.

use vstd::prelude::*;

verus! {

/// Bit `b` of word `w` is set.
pub open spec fn bit_set(w: u64, b: u64) -> bool {
    (w >> b) & 1u64 == 1u64
}

/// Or-ing a single bit into a word sets exactly that bit: the chosen bit is
/// set afterwards, every other bit keeps its value, and the bit's previous
/// value is what the pre-or word showed.
pub proof fn lemma_or_bit(x: u64, b: u64)
    by (bit_vector)
    requires
        b < 64,
    ensures
        bit_set(x | (1u64 << b), b),
        forall|c: u64|
            c < 64 && c != b ==> (#[trigger] bit_set(x | (1u64 << b), c) <==> bit_set(x, c)),
        ((x & (1u64 << b)) == 0u64) <==> !bit_set(x, b),
{
}

/// Or-ing in a bit that is already set leaves the word unchanged.
pub proof fn lemma_or_bit_noop(x: u64, b: u64)
    by (bit_vector)
    requires
        b < 64,
        bit_set(x, b),
    ensures
        x | (1u64 << b) == x,
{
}

/// A bit of an and-word is set exactly when both operands have it set.
pub proof fn lemma_and_bit(x: u64, m: u64)
    by (bit_vector)
    ensures
        forall|c: u64| c < 64 ==> (#[trigger] bit_set(x & m, c) <==> bit_set(x, c) && bit_set(m, c)),
{
}

/// The zero word has no bit set.
pub proof fn lemma_zero_word()
    by (bit_vector)
    ensures
        forall|c: u64| c < 64 ==> !(#[trigger] bit_set(0u64, c)),
{
}

/// Reading one bit by shift-and-mask agrees with [`bit_set`].
pub proof fn lemma_test_bit(x: u64, b: u64)
    by (bit_vector)
    requires
        b < 64,
    ensures
        ((x >> b) & 1u64 == 1u64) <==> bit_set(x, b),
{
}

} // verus!
