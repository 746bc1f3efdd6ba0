//! Compact storage for sequences of byte strings.
//!
//! All payload bytes live in one contiguous buffer; a parallel sequence of
//! [`Metadata`] records locates each byte string inside it. A
//! [`CompactBytestrings`] grows by appending; a [`FixedBytestrings`] is the
//! exact-size, read-only form it can be frozen into.

pub mod compact_bytestrings;
pub mod fixed_array;
pub mod fixed_bytestrings;
pub mod metadata;
pub mod shared;
pub mod traversal;

pub use compact_bytestrings::CompactBytestrings;
pub use fixed_bytestrings::{Buffer, FixedBytestrings, TryFromCompactBytesError, MAX_COUNT};
pub use metadata::Metadata;
pub use shared::ByteStringIter;
