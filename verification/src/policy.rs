//! The packing policy: which representation a flag sequence packs into, and
//! whether a flag count beyond that representation's capacity is tolerated
//! (truncating the excess) or rejected as an overflow.

use vstd::prelude::*;

verus! {

broadcast use vstd::string::group_string_axioms;

/// The representation a flag sequence packs into: a fixed-width unsigned
/// integer of 8, 16, 32 or 64 bits, or a dynamically sized word sequence
/// (`Dynamic`) that grows with the flag count.
#[derive(Clone, Copy, Debug, PartialEq, Eq)]
pub enum WordWidth {
    Width8,
    Width16,
    Width32,
    Width64,
    Dynamic,
}

impl WordWidth {
    /// The bit capacity of a fixed-width representation. `Dynamic` has no
    /// fixed capacity; it is given 0 here and is never consulted for it.
    pub open spec fn fixed_bits(self) -> int {
        match self {
            WordWidth::Width8 => 8,
            WordWidth::Width16 => 16,
            WordWidth::Width32 => 32,
            WordWidth::Width64 => 64,
            WordWidth::Dynamic => 0,
        }
    }

    /// The width a configuration label selects: `"i8"`, `"i16"`, `"i32"`
    /// and `"i64"` name the four fixed widths; any other label, `"auto"`
    /// included, selects the dynamic representation.
    pub open spec fn spec_from_label(s: Seq<char>) -> WordWidth {
        if s == seq!['i', '8'] {
            WordWidth::Width8
        } else if s == seq!['i', '1', '6'] {
            WordWidth::Width16
        } else if s == seq!['i', '3', '2'] {
            WordWidth::Width32
        } else if s == seq!['i', '6', '4'] {
            WordWidth::Width64
        } else {
            WordWidth::Dynamic
        }
    }

    /// Maps a configuration label to the width it selects.
    pub fn from_label(label: &str) -> (w: WordWidth)
        ensures
            w == WordWidth::spec_from_label(label@),
    {
        let mut it = label.chars();
        let first = it.next();
        let second = it.next();
        let third = it.next();
        let fourth = it.next();
        let w = match (first, second, third, fourth) {
            (Some('i'), Some('8'), None, None) => WordWidth::Width8,
            (Some('i'), Some('1'), Some('6'), None) => WordWidth::Width16,
            (Some('i'), Some('3'), Some('2'), None) => WordWidth::Width32,
            (Some('i'), Some('6'), Some('4'), None) => WordWidth::Width64,
            _ => WordWidth::Dynamic,
        };
        proof {
            if label@.len() == 2 {
                assert(label@ == seq![label@[0], label@[1]]) by {
                    assert(label@ =~= seq![label@[0], label@[1]]);
                }
            }
            if label@.len() == 3 {
                assert(label@ == seq![label@[0], label@[1], label@[2]]) by {
                    assert(label@ =~= seq![label@[0], label@[1], label@[2]]);
                }
            }
        }
        w
    }
}

/// How one logical record's flags are packed. Supplied once per call and
/// immutable: the same policy must govern pack and unpack of a value.
#[derive(Clone, Copy, Debug, PartialEq, Eq)]
pub struct PackingPolicy {
    /// The representation to pack into.
    pub word_width: WordWidth,
    /// Whether flags beyond the representation's capacity are silently
    /// truncated (`true`) or rejected with an overflow error (`false`).
    pub overflow_allowed: bool,
}

impl Default for PackingPolicy {
    /// With no explicit choice, the dynamic representation is selected and
    /// overflow is disallowed.
    fn default() -> (p: PackingPolicy)
        ensures
            p == (PackingPolicy { word_width: WordWidth::Dynamic, overflow_allowed: false }),
    {
        PackingPolicy { word_width: WordWidth::Dynamic, overflow_allowed: false }
    }
}

} // verus!
