//! Classic array algorithms on sequences of signed 32-bit integers,
//! each with a contract that pins down its result.

use vstd::prelude::*;

pub mod digits;
pub mod duplicates;
pub mod pairs;
pub mod products;
pub mod rotation;
pub mod stocks;
pub mod subarray;
pub mod triples;

verus! {

/// Namespace type that owns the algorithm entry points.
pub struct Solution;

} // verus!
