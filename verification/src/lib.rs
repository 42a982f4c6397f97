//! A counting Bloom filter behind a small line-oriented command protocol:
//! a fixed-size bit array paired with per-position counters, addressed by a
//! deterministic multi-hash scheme, plus the dispatcher that decodes one
//! message buffer at a time, runs it against the filter, and produces one
//! reply buffer.

pub mod bits;
pub mod bloom_filter;
pub mod hashing;
pub mod laws;
pub mod protocol;
pub mod tokenize;

use vstd::prelude::*;

verus! {

/// Number of hash-derived indices per element.
pub const K: usize = 3;

/// Number of bit/counter positions in the filter.
pub const M: usize = 256;

} // verus!
