//! A cache-line blocked Bloom filter.
//!
//! Every hash is mapped to one 256-bit block and to eight bits inside that
//! block, one per 32-bit lane, so an insertion or a query touches a single
//! cache line.  The filter answers "definitely absent" or "possibly
//! present"; it never forgets a hash it was given.
//!
//! The behaviour of every function is stated over a mathematical model of the
//! filter, [`FilterView`]: the set of bit positions that are switched on.
//!
//! - [`sizing`]: how many blocks a filter gets.
//! - [`addressing`]: which block a hash selects.
//! - [`probe`]: which bits a hash selects inside its block.
//! - [`block`]: one block and its bit operations.
//! - [`model`]: the mathematical model.
//! - [`filter`]: the filter.
//! - [`hashing`]: the digest that turns a key into a hash.
//! - [`parts`]: a filter as plain values, to be stored and restored.
//! - [`laws`]: what holds of every filter.

pub mod addressing;
pub mod block;
pub mod filter;
pub mod hashing;
pub mod laws;
pub mod model;
pub mod parts;
pub mod probe;
pub mod sizing;

pub use filter::BlockedBloomFilter;
pub use model::{BitPos, FilterView};
pub use parts::FilterParts;
pub use sizing::DEFAULT_BITS_PER_KEY;
