//! The timing rule of the benchmark suite.

use vstd::prelude::*;

verus! {

/// The benchmark suite comparing single-precision and BF16 kernels.
pub struct BenchSuite;

impl BenchSuite {
    /// The time of one iteration in whole microseconds: the microseconds
    /// spent on `iterations` runs, divided by `iterations`, rounded down.
    pub fn mean_micros(total_micros: u128, iterations: u128) -> (r: u128)
        requires
            iterations > 0,
        ensures
            r == total_micros / iterations,
    {
        total_micros / iterations
    }
}

} // verus!
