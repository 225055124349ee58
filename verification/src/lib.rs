//! An approximate-membership set: a Bloom filter over a packed array of bits.
//!
//! [`bitset::BitSet`] stores a fixed number of flags, eight to a byte.
//! [`filter::BloomFilter`] marks, for every element inserted, one bit per hash
//! function, and reports an element as present when all of its bits are marked.
//! It never forgets an element; it may report one that was never inserted.

pub mod bitset;
pub mod filter;
pub mod hashing;

pub use bitset::BitSet;
pub use filter::{BloomFilter, DefaultBloomFilter, DEFAULT_BITS, DEFAULT_HASHES};
