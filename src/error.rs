//! Errors of construction.

use vstd::prelude::*;

verus! {

/// Why a structure could not be built: one of its dimensions is zero.
#[derive(Debug, Clone, Copy, PartialEq, Eq, Structural)]
pub enum DimensionError {
    /// A Bloom filter was asked for with no bits.
    ZeroSize,
    /// A Bloom filter was asked for with no hash functions.
    ZeroHashFnCount,
    /// A Count-Min sketch was asked for with rows of no counters.
    ZeroWidth,
    /// A Count-Min sketch was asked for with no rows.
    ZeroDepth,
}

} // verus!
