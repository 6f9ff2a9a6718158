//! Bit-addressable storage over an ordered sequence of 64-bit words.
//! Word 0 holds bits 0 through 63, word 1 bits 64 through 127, and so on;
//! within a word, bit 0 is the least significant. The capacity is fixed at
//! construction: an access beyond the allocated words is an error, never a
//! resize.

use vstd::prelude::*;

use crate::bits::lemma_word_set_bit;
use crate::bits::lemma_zero_word_bits;
use crate::bits::nth_bit;
use crate::bits::word_set_bit;
use crate::errors::BitpackError;

verus! {

/// The number of 64-bit words that hold `bits` bits: `ceil(bits / 64)`.
pub open spec fn words_for(bits: int) -> int {
    (bits + 63) / 64
}

/// Bit `i` of the flattened bit space of `words`. An index outside the
/// allocated words reads as false.
pub open spec fn bit_at(words: Seq<u64>, i: int) -> bool {
    &&& 0 <= i
    &&& i / 64 < words.len()
    &&& nth_bit(words[i / 64], (i % 64) as u64)
}

/// A growable bit store composed of 64-bit words, with its capacity fixed
/// when it is constructed.
#[derive(Clone, Debug, PartialEq, Eq)]
pub struct Bitfield {
    /// The backing words, in significance order.
    pub parts: Vec<u64>,
}

impl Bitfield {
    /// The bit capacity backed by the allocated words.
    pub open spec fn spec_capacity(self) -> int {
        self.parts@.len() as int * 64
    }

    /// Creates a `Bitfield` with room for `size` bits: `ceil(size / 64)`
    /// words, all zero. `size == 0` yields zero words.
    pub fn new(size: usize) -> (bf: Bitfield)
        ensures
            bf.parts@.len() == words_for(size as int),
            forall|w: int| 0 <= w < bf.parts@.len() ==> bf.parts@[w] == 0,
            forall|i: int| !bit_at(bf.parts@, i),
    {
        // ceil(size / 64), in a form whose sum cannot overflow
        let num_parts: usize = size / 64 + (if size % 64 == 0 {
            0
        } else {
            1
        });
        assert(num_parts == words_for(size as int));
        let mut parts: Vec<u64> = Vec::new();
        while parts.len() < num_parts
            invariant
                parts@.len() <= num_parts,
                forall|w: int| 0 <= w < parts@.len() ==> parts@[w] == 0,
            decreases num_parts - parts@.len(),
        {
            parts.push(0);
        }
        proof {
            lemma_zero_word_bits();
        }
        Bitfield { parts }
    }

    /// Writes bit `index` of the flattened bit space: the bit `index % 64`
    /// of word `index / 64` is set or cleared in place, and no other word is
    /// touched. Fails with `IndexOutOfRange`, leaving the storage unchanged,
    /// when that word lies beyond the allocated length.
    pub fn set(&mut self, index: usize, value: bool) -> (r: Result<(), BitpackError>)
        ensures
            index / 64 < old(self).parts@.len() ==> {
                &&& r is Ok
                &&& final(self).parts@ == old(self).parts@.update(
                    index as int / 64,
                    word_set_bit(old(self).parts@[index as int / 64], (index % 64) as u64, value),
                )
                &&& bit_at(final(self).parts@, index as int) == value
                &&& forall|j: int|
                    j != index ==> bit_at(final(self).parts@, j) == bit_at(old(self).parts@, j)
            },
            index / 64 >= old(self).parts@.len() ==> {
                &&& r == Err::<(), BitpackError>(
                    BitpackError::IndexOutOfRange {
                        index,
                        word_count: old(self).parts.len(),
                    },
                )
                &&& *final(self) == *old(self)
            },
            final(self).parts@.len() == old(self).parts@.len(),
    {
        let part = index / 64;
        let bit = (index % 64) as u64;
        if part >= self.parts.len() {
            return Err(BitpackError::IndexOutOfRange { index, word_count: self.parts.len() });
        }
        let w = self.parts[part];
        let nw = if value {
            w | (1u64 << bit)
        } else {
            w & !(1u64 << bit)
        };
        self.parts[part] = nw;
        proof {
            lemma_word_set_bit(w, bit, value);
            assert(self.parts@ =~= old(self).parts@.update(
                index as int / 64,
                word_set_bit(old(self).parts@[index as int / 64], (index % 64) as u64, value),
            ));
            assert forall|j: int| j != index implies bit_at(self.parts@, j) == bit_at(
                old(self).parts@,
                j,
            ) by {
                if 0 <= j && j / 64 < old(self).parts@.len() {
                    if j / 64 == part {
                        assert(j == 64 * (j / 64) + j % 64);
                        assert(index as int == 64 * (index as int / 64) + index as int % 64);
                        assert((j % 64) as u64 != bit);
                        assert(self.parts@[j / 64] == word_set_bit(w, bit, value));
                        assert(nth_bit(word_set_bit(w, bit, value), (j % 64) as u64) == nth_bit(
                            w,
                            (j % 64) as u64,
                        ));
                    } else {
                        assert(self.parts@[j / 64] == old(self).parts@[j / 64]);
                    }
                }
            }
        }
        Ok(())
    }

    /// Reads bit `index` using the same word-and-bit decomposition as `set`.
    /// A pure read: fails with `IndexOutOfRange` when the word lies beyond
    /// the allocated length, and has no side effect.
    pub fn get(&self, index: usize) -> (r: Result<bool, BitpackError>)
        ensures
            index / 64 < self.parts@.len() ==> r == Ok::<bool, BitpackError>(
                bit_at(self.parts@, index as int),
            ),
            index / 64 >= self.parts@.len() ==> r == Err::<bool, BitpackError>(
                BitpackError::IndexOutOfRange { index, word_count: self.parts.len() },
            ),
    {
        let part = index / 64;
        let bit = (index % 64) as u64;
        if part >= self.parts.len() {
            return Err(BitpackError::IndexOutOfRange { index, word_count: self.parts.len() });
        }
        Ok((self.parts[part] >> bit) & 1u64 == 1u64)
    }
}

/// Law: setting a bit to the same value twice yields identical storage. The
/// update formula is `set`'s own postcondition, so writing the same bit and
/// value a second time leaves the words exactly as the first write left
/// them.
pub proof fn lemma_set_idempotent(before: Seq<u64>, index: int, value: bool)
    requires
        0 <= index,
        index / 64 < before.len(),
    ensures
        ({
            let once = before.update(index / 64, word_set_bit(before[index / 64], (index % 64) as u64, value));
            let twice = once.update(index / 64, word_set_bit(once[index / 64], (index % 64) as u64, value));
            twice == once
        }),
{
    let bit = (index % 64) as u64;
    let w = before[index / 64];
    assert(word_set_bit(word_set_bit(w, bit, value), bit, value) == word_set_bit(w, bit, value))
        by (bit_vector);
    let once = before.update(index / 64, word_set_bit(w, bit, value));
    let twice = once.update(index / 64, word_set_bit(once[index / 64], bit, value));
    assert(twice =~= once);
}

} // verus!
