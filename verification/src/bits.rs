//! The bit-level model of a 64-bit word, and the bit-vector lemmas that the
//! rest of the crate builds on. Bit 0 is the least significant bit of a word.

use vstd::prelude::*;

verus! {

/// True when bit `i` of `w` is set; bit 0 is the least significant.
pub open spec fn nth_bit(w: u64, i: u64) -> bool
    recommends
        i < 64,
{
    (w >> i) & 1u64 == 1u64
}

/// The word `w` after writing `value` into bit `bit`: setting ors in a
/// one-bit mask, clearing ands with the mask's complement.
pub open spec fn word_set_bit(w: u64, bit: u64, value: bool) -> u64
    recommends
        bit < 64,
{
    if value {
        w | (1u64 << bit)
    } else {
        w & !(1u64 << bit)
    }
}

/// Writing a bit changes exactly that bit of the word to the given value;
/// every other bit keeps its old value.
pub proof fn lemma_word_set_bit(w: u64, k: u64, value: bool)
    by (bit_vector)
    requires
        k < 64,
    ensures
        forall|j: u64|
            j < 64 ==> #[trigger] nth_bit(word_set_bit(w, k, value), j) == (if j == k {
                value
            } else {
                nth_bit(w, j)
            }),
{
}

/// Every bit of the zero word is clear.
pub proof fn lemma_zero_word_bits()
    by (bit_vector)
    ensures
        forall|j: u64| j < 64 ==> !#[trigger] nth_bit(0u64, j),
{
}

/// Truncating a word to its low 8 bits and zero-extending it back keeps
/// each of those 8 bits.
pub proof fn lemma_low_bits_u8(w: u64)
    by (bit_vector)
    ensures
        forall|j: u64| j < 8 ==> #[trigger] nth_bit((w as u8) as u64, j) == nth_bit(w, j),
{
}

/// Truncating a word to its low 16 bits and zero-extending it back keeps
/// each of those 16 bits.
pub proof fn lemma_low_bits_u16(w: u64)
    by (bit_vector)
    ensures
        forall|j: u64| j < 16 ==> #[trigger] nth_bit((w as u16) as u64, j) == nth_bit(w, j),
{
}

/// Truncating a word to its low 32 bits and zero-extending it back keeps
/// each of those 32 bits.
pub proof fn lemma_low_bits_u32(w: u64)
    by (bit_vector)
    ensures
        forall|j: u64| j < 32 ==> #[trigger] nth_bit((w as u32) as u64, j) == nth_bit(w, j),
{
}

} // verus!
