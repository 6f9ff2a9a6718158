//! The flag codec: converts between an ordered boolean sequence and its
//! packed representation, under a [`PackingPolicy`]. A fixed-width policy
//! packs into an unsigned integer of 8, 16, 32 or 64 bits; the dynamic
//! policy packs into a word sequence sized exactly to the flag count.
//! Overflow is checked once, symmetrically, on both pack and unpack; when
//! overflow is allowed, excess flags pack as omitted and decode as false.

use vstd::arithmetic::div_mod::lemma_div_by_multiple;
use vstd::arithmetic::div_mod::lemma_div_is_ordered;
use vstd::prelude::*;

use crate::bitfield::Bitfield;
use crate::bitfield::bit_at;
use crate::bitfield::words_for;
use crate::bits::lemma_low_bits_u16;
use crate::bits::lemma_low_bits_u32;
use crate::bits::lemma_low_bits_u8;
use crate::bits::lemma_word_set_bit;
use crate::bits::lemma_zero_word_bits;
use crate::bits::nth_bit;
use crate::bits::word_set_bit;
use crate::errors::BitpackError;
use crate::policy::PackingPolicy;
use crate::policy::WordWidth;

verus! {

/// A packed flag sequence: a native unsigned integer of 8, 16, 32 or 64
/// bits, or an ordered sequence of 64-bit words. Bit `i` holds flag `i`,
/// low-to-high; word `k` of a word sequence holds flags `64k..64k + 63`.
#[derive(Clone, Debug, PartialEq, Eq)]
pub enum PackedValue {
    Word8(u8),
    Word16(u16),
    Word32(u32),
    Word64(u64),
    Words(Vec<u64>),
}

impl PackedValue {
    /// The number of flags this value can faithfully represent.
    pub open spec fn capacity(self) -> int {
        match self {
            PackedValue::Word8(_) => 8,
            PackedValue::Word16(_) => 16,
            PackedValue::Word32(_) => 32,
            PackedValue::Word64(_) => 64,
            PackedValue::Words(words) => words@.len() as int * 64,
        }
    }

    /// Bit `i` of the packed value; an index at or beyond the capacity
    /// reads as false.
    pub open spec fn spec_bit(self, i: int) -> bool {
        match self {
            PackedValue::Word8(v) => 0 <= i < 8 && nth_bit(v as u64, i as u64),
            PackedValue::Word16(v) => 0 <= i < 16 && nth_bit(v as u64, i as u64),
            PackedValue::Word32(v) => 0 <= i < 32 && nth_bit(v as u64, i as u64),
            PackedValue::Word64(v) => 0 <= i < 64 && nth_bit(v, i as u64),
            PackedValue::Words(words) => bit_at(words@, i),
        }
    }

    /// Whether this value has the representation shape that `w` selects.
    pub open spec fn matches_width(self, w: WordWidth) -> bool {
        match self {
            PackedValue::Word8(_) => w is Width8,
            PackedValue::Word16(_) => w is Width16,
            PackedValue::Word32(_) => w is Width32,
            PackedValue::Word64(_) => w is Width64,
            PackedValue::Words(_) => w is Dynamic,
        }
    }
}

/// Builds the fixed-width packed integer: bit `i`, for `i` below `width`,
/// is flag `i`; flags at `width` and beyond are omitted, and bits at the
/// flag count and beyond stay zero.
fn pack_fixed_bits(flags: &Vec<bool>, width: usize) -> (r: u64)
    requires
        8 <= width <= 64,
    ensures
        forall|i: int|
            0 <= i < 64 ==> (#[trigger] nth_bit(r, i as u64) == (i < width && i < flags@.len()
                && flags@[i])),
{
    let end = if flags.len() < width {
        flags.len()
    } else {
        width
    };
    let mut r: u64 = 0;
    let mut i: usize = 0;
    proof {
        lemma_zero_word_bits();
    }
    while i < end
        invariant
            i <= end,
            end <= width,
            end <= flags@.len(),
            end == width || end == flags@.len(),
            width <= 64,
            forall|j: int|
                0 <= j < 64 ==> (#[trigger] nth_bit(r, j as u64) == (j < i && flags@[j])),
        decreases end - i,
    {
        let prev = r;
        if flags[i] {
            r = r | (1u64 << (i as u64));
            proof {
                lemma_word_set_bit(prev, i as u64, true);
                assert(word_set_bit(prev, i as u64, true) == r);
            }
        }
        proof {
            assert forall|j: int| 0 <= j < 64 implies #[trigger] nth_bit(r, j as u64) == (j < i + 1
                && flags@[j]) by {
                if j != i {
                    assert(nth_bit(r, j as u64) == nth_bit(prev, j as u64));
                }
            }
        }
        i += 1;
    }
    r
}

/// Packs into a bitfield sized exactly to the flag count: `ceil(n / 64)`
/// words for `n` flags, bit `i` holding flag `i` and every bit at the flag
/// count or beyond left zero.
fn pack_dynamic(flags: &Vec<bool>) -> (bf: Bitfield)
    ensures
        bf.parts@.len() == words_for(flags@.len() as int),
        forall|i: int| #[trigger] bit_at(bf.parts@, i) == (0 <= i < flags@.len() && flags@[i]),
{
    let n = flags.len();
    let mut bf = Bitfield::new(n);
    let mut i: usize = 0;
    while i < n
        invariant
            n == flags@.len(),
            bf.parts@.len() == words_for(n as int),
            i <= n,
            forall|j: int| #[trigger] bit_at(bf.parts@, j) == (0 <= j < i && flags@[j]),
        decreases n - i,
    {
        proof {
            lemma_in_allocated_words(i as int, n as int);
        }
        let res = bf.set(i, flags[i]);
        match res {
            Ok(()) => {},
            Err(_) => {},  // unreachable: the word index is within the allocation
        }
        i += 1;
    }
    bf
}

/// An index below the bit count addresses a word within the allocation that
/// `Bitfield::new` makes for that count.
proof fn lemma_in_allocated_words(i: int, n: int)
    requires
        0 <= i < n,
    ensures
        i / 64 < words_for(n),
{
    let q = i / 64;
    assert(i == 64 * q + i % 64);
    assert((q + 1) * 64 <= n + 63);
    lemma_div_by_multiple(q + 1, 64);
    lemma_div_is_ordered((q + 1) * 64, n + 63, 64);
}

/// Packs the ordered flag sequence `flags` under `policy`.
///
/// With a fixed width `W`, the result is a `W`-bit integer whose bit `i` is
/// flag `i`; a flag count above `W` is an overflow error unless the policy
/// allows overflow, in which case the excess flags are silently omitted.
/// With the dynamic width, the result is a word sequence of `ceil(n / 64)`
/// words, which always has room for all `n` flags. Bits beyond the flag
/// count are zero in either representation, and no partial result is ever
/// returned.
pub fn pack(flags: &Vec<bool>, policy: &PackingPolicy) -> (r: Result<PackedValue, BitpackError>)
    ensures
        r is Err <==> (!(policy.word_width is Dynamic) && flags@.len()
            > policy.word_width.fixed_bits() && !policy.overflow_allowed),
        r is Err ==> r->Err_0 == (BitpackError::Overflow {
            flag_count: flags.len(),
            capacity: policy.word_width.fixed_bits() as usize,
        }),
        r is Ok ==> ({
            let p = r->Ok_0;
            &&& p.matches_width(policy.word_width)
            &&& policy.word_width is Dynamic ==> p.capacity() == 64 * words_for(
                flags@.len() as int,
            )
            &&& forall|i: int|
                0 <= i < p.capacity() ==> #[trigger] p.spec_bit(i) == (i < flags@.len()
                    && flags@[i])
        }),
{
    let n = flags.len();
    match policy.word_width {
        WordWidth::Width8 => {
            if n > 8 && !policy.overflow_allowed {
                return Err(BitpackError::Overflow { flag_count: n, capacity: 8 });
            }
            let bits = pack_fixed_bits(flags, 8);
            proof {
                lemma_low_bits_u8(bits);
            }
            Ok(PackedValue::Word8(bits as u8))
        },
        WordWidth::Width16 => {
            if n > 16 && !policy.overflow_allowed {
                return Err(BitpackError::Overflow { flag_count: n, capacity: 16 });
            }
            let bits = pack_fixed_bits(flags, 16);
            proof {
                lemma_low_bits_u16(bits);
            }
            Ok(PackedValue::Word16(bits as u16))
        },
        WordWidth::Width32 => {
            if n > 32 && !policy.overflow_allowed {
                return Err(BitpackError::Overflow { flag_count: n, capacity: 32 });
            }
            let bits = pack_fixed_bits(flags, 32);
            proof {
                lemma_low_bits_u32(bits);
            }
            Ok(PackedValue::Word32(bits as u32))
        },
        WordWidth::Width64 => {
            if n > 64 && !policy.overflow_allowed {
                return Err(BitpackError::Overflow { flag_count: n, capacity: 64 });
            }
            let bits = pack_fixed_bits(flags, 64);
            Ok(PackedValue::Word64(bits))
        },
        WordWidth::Dynamic => {
            let bf = pack_dynamic(flags);
            let Bitfield { parts } = bf;
            Ok(PackedValue::Words(parts))
        },
    }
}

/// Reads `flag_count` flags back from a fixed-width integer of `width`
/// bits, after the overflow check that mirrors `pack`'s: flag `i` is bit
/// `i` for `i` below `width`, and false at `width` and beyond.
fn unpack_fixed(v: u64, width: usize, flag_count: usize, overflow_allowed: bool) -> (r: Result<
    Vec<bool>,
    BitpackError,
>)
    requires
        8 <= width <= 64,
    ensures
        r is Err <==> (flag_count > width && !overflow_allowed),
        r is Err ==> r->Err_0 == (BitpackError::Overflow { flag_count, capacity: width }),
        r is Ok ==> ({
            let flags = r->Ok_0;
            &&& flags@.len() == flag_count
            &&& forall|i: int|
                0 <= i < flag_count ==> #[trigger] flags@[i] == (i < width && nth_bit(v, i as u64))
        }),
{
    if flag_count > width && !overflow_allowed {
        return Err(BitpackError::Overflow { flag_count, capacity: width });
    }
    let mut flags: Vec<bool> = Vec::new();
    let mut i: usize = 0;
    while i < flag_count
        invariant
            i <= flag_count,
            flags@.len() == i,
            width <= 64,
            forall|j: int|
                0 <= j < i ==> #[trigger] flags@[j] == (j < width && nth_bit(v, j as u64)),
        decreases flag_count - i,
    {
        let b = if i < width {
            (v >> (i as u64)) & 1u64 == 1u64
        } else {
            false
        };
        flags.push(b);
        i += 1;
    }
    Ok(flags)
}

/// Reads `flag_count` flags back from a word sequence, after the overflow
/// check against its allocated capacity: the words become a bitfield's
/// storage and bits `0..flag_count` are read through `Bitfield::get`, a
/// flag index beyond the allocation decoding as false.
fn unpack_dynamic(words: Vec<u64>, flag_count: usize, overflow_allowed: bool) -> (r: Result<
    Vec<bool>,
    BitpackError,
>)
    ensures
        r is Err <==> (flag_count as int > words@.len() as int * 64 && !overflow_allowed),
        r is Err ==> r->Err_0 == (BitpackError::Overflow {
            flag_count,
            capacity: (words@.len() as int * 64) as usize,
        }),
        r is Ok ==> ({
            let flags = r->Ok_0;
            &&& flags@.len() == flag_count
            &&& forall|i: int| 0 <= i < flag_count ==> #[trigger] flags@[i] == bit_at(words@, i)
        }),
{
    let needed = flag_count / 64 + (if flag_count % 64 == 0 {
        0
    } else {
        1
    });
    assert(needed == words_for(flag_count as int));
    proof {
        lemma_words_needed_iff(flag_count as int, words@.len() as int);
    }
    if needed > words.len() && !overflow_allowed {
        // here the capacity is below the flag count, so the product fits
        assert(words@.len() as int * 64 < flag_count as int);
        return Err(BitpackError::Overflow { flag_count, capacity: words.len() * 64 });
    }
    let bf = Bitfield { parts: words };
    let mut flags: Vec<bool> = Vec::new();
    let mut i: usize = 0;
    while i < flag_count
        invariant
            i <= flag_count,
            flags@.len() == i,
            bf.parts@ == words@,
            forall|j: int| 0 <= j < i ==> #[trigger] flags@[j] == bit_at(words@, j),
        decreases flag_count - i,
    {
        let b = match bf.get(i) {
            Ok(v) => v,
            Err(_) => false,
        };
        flags.push(b);
        i += 1;
    }
    Ok(flags)
}

/// A bit count needs more words than `len` exactly when it exceeds the
/// `64 * len` bits those words hold.
proof fn lemma_words_needed_iff(n: int, len: int)
    requires
        0 <= n,
        0 <= len,
    ensures
        words_for(n) > len <==> n > 64 * len,
{
    assert(n + 63 == 64 * ((n + 63) / 64) + (n + 63) % 64);
    if n > 64 * len {
        assert((len + 1) * 64 <= n + 63);
        lemma_div_by_multiple(len + 1, 64);
        lemma_div_is_ordered((len + 1) * 64, n + 63, 64);
    }
    if n <= 64 * len && words_for(n) > len {
        assert(64 * ((n + 63) / 64) >= 64 * (len + 1));
        assert(false);
    }
}

/// Unpacks `flag_count` flags from `packed` under `policy`, reversing
/// `pack` for the same policy and flag count.
///
/// The overflow check mirrors `pack`'s: a flag count beyond the packed
/// value's capacity is an overflow error unless the policy allows
/// overflow, in which case every flag beyond the capacity is reconstructed
/// as false — the explicit truncation policy, not a lossy guess. On
/// success, flag `i` of the result is bit `i` of the packed value, in the
/// original order. No partial result is ever returned.
pub fn unpack(packed: PackedValue, flag_count: usize, policy: &PackingPolicy) -> (r: Result<
    Vec<bool>,
    BitpackError,
>)
    requires
        packed.matches_width(policy.word_width),
    ensures
        r is Err <==> (flag_count > packed.capacity() && !policy.overflow_allowed),
        r is Err ==> r->Err_0 == (BitpackError::Overflow {
            flag_count,
            capacity: packed.capacity() as usize,
        }),
        r is Ok ==> ({
            let flags = r->Ok_0;
            &&& flags@.len() == flag_count
            &&& forall|i: int| 0 <= i < flag_count ==> #[trigger] flags@[i] == packed.spec_bit(i)
        }),
{
    match packed {
        PackedValue::Word8(v) => unpack_fixed(v as u64, 8, flag_count, policy.overflow_allowed),
        PackedValue::Word16(v) => unpack_fixed(v as u64, 16, flag_count, policy.overflow_allowed),
        PackedValue::Word32(v) => unpack_fixed(v as u64, 32, flag_count, policy.overflow_allowed),
        PackedValue::Word64(v) => unpack_fixed(v, 64, flag_count, policy.overflow_allowed),
        PackedValue::Words(words) => unpack_dynamic(words, flag_count, policy.overflow_allowed),
    }
}

/// Law (symmetric overflow): under a fixed-width policy, `unpack` rejects a
/// flag count for a packed value of the matching shape exactly when `pack`
/// rejects a flag sequence of that count — a policy that rejects overflow
/// on encode also rejects it on decode, so the format is never ambiguous
/// about how many flags a given width can faithfully represent.
///
/// The two sides are, word for word, the error conditions in `unpack`'s and
/// `pack`'s postconditions.
pub proof fn lemma_overflow_symmetric(
    packed: PackedValue,
    policy: PackingPolicy,
    flag_count: int,
)
    requires
        packed.matches_width(policy.word_width),
        !(policy.word_width is Dynamic),
    ensures
        (flag_count > packed.capacity() && !policy.overflow_allowed) <==> (flag_count
            > policy.word_width.fixed_bits() && !policy.overflow_allowed),
{
    assert(packed.capacity() == policy.word_width.fixed_bits());
}

/// Law (round trip): unpacking what `pack` produced, under the same policy
/// and with the original flag count, restores the flag sequence exactly —
/// for every flag sequence whose length is at most the fixed width, and
/// for every length at all under the dynamic width.
///
/// The hypotheses are exactly what `pack` ensures of its result on success
/// and what `unpack` ensures of its result on success, so the law composes
/// with one call of each.
pub proof fn lemma_round_trip(
    flags: Seq<bool>,
    packed: PackedValue,
    out: Seq<bool>,
    policy: PackingPolicy,
)
    requires
        packed.matches_width(policy.word_width),
        !(policy.word_width is Dynamic) ==> flags.len() <= policy.word_width.fixed_bits(),
        policy.word_width is Dynamic ==> packed.capacity() == 64 * words_for(flags.len() as int),
        forall|i: int|
            0 <= i < packed.capacity() ==> #[trigger] packed.spec_bit(i) == (i < flags.len()
                && flags[i]),
        out.len() == flags.len(),
        forall|i: int| 0 <= i < out.len() ==> #[trigger] out[i] == packed.spec_bit(i),
    ensures
        out == flags,
{
    if policy.word_width is Dynamic {
        let n = flags.len() as int;
        assert(n + 63 == 64 * ((n + 63) / 64) + (n + 63) % 64);
        assert(n <= 64 * words_for(n));
    }
    assert(flags.len() <= packed.capacity());
    assert(out =~= flags);
}

} // verus!
