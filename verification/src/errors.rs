//! The two failures of the codec: a flag count beyond the capacity of the
//! chosen representation while overflow is disallowed, and a bit index that
//! addresses a word beyond a bitfield's allocated length.

use vstd::prelude::*;

verus! {

/// An error of packing, unpacking or bitfield addressing.
#[derive(Clone, Copy, Debug, PartialEq, Eq)]
pub enum BitpackError {
    /// The flag count exceeds the capacity (in bits) of the chosen packed
    /// representation and the policy disallows overflow. Raised identically
    /// on pack and on unpack.
    Overflow { flag_count: usize, capacity: usize },
    /// A bitfield access addressed the word `index / 64`, which lies beyond
    /// the `word_count` words the bitfield was allocated with.
    IndexOutOfRange { index: usize, word_count: usize },
}

} // verus!
