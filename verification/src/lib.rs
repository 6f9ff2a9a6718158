//! A bit-packing codec: an ordered sequence of boolean flags is encoded into
//! either a fixed-width unsigned integer (8, 16, 32 or 64 bits) or a growable
//! sequence of 64-bit words (a [`Bitfield`]), and decoded back losslessly.
//! A [`PackingPolicy`] chooses the representation and says whether a flag
//! count beyond its capacity is an error or a deliberate truncation.

pub mod bitfield;
pub mod bits;
pub mod codec;
pub mod errors;
pub mod policy;

pub use bitfield::Bitfield;
pub use codec::PackedValue;
pub use codec::pack;
pub use codec::unpack;
pub use errors::BitpackError;
pub use policy::PackingPolicy;
pub use policy::WordWidth;
