//! A Bloom filter: a probabilistic set-membership structure with no false
//! negatives and a tunable false-positive rate.
//!
//! Construction sizes a bit array and picks a probe count from the requested
//! capacity and error rate; each item is mapped to a sequence of bit
//! positions derived from one 128-bit murmur3 hash; insertion sets those
//! bits and enforces the capacity bound, and a query reports whether every
//! position is set.

pub mod params;
pub mod store;
pub mod hash;
pub mod probe;
pub mod filter;

pub use filter::BloomFilter;
pub use filter::FilterError;
