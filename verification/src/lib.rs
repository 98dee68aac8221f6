//! Sparse vectors over a 16-bit index space and their merge-join dot product.
//!
//! A vector keeps its nonzero entries as two parallel arrays: the positions,
//! in ascending order, and the value stored at each. Values are carried as
//! the 32-bit IEEE 754 pattern of a single-precision number; the library
//! decides which entries meet and in what order, and leaves the rounding
//! arithmetic on the patterns to its callers.

pub mod vector;
pub mod shared;
pub mod merge;
pub mod simd;
pub mod kernel;
pub mod generate;
