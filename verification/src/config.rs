//! The immutable run configuration a caller hands to the simulation driver:
//! the seed and grid size the forest is built from, and how many months to
//! simulate.

use vstd::prelude::*;

verus! {

/// Construction parameters of a simulation run.
pub struct ForestConfig {
    pub seed: u64,
    pub width: usize,
    pub height: usize,
    pub months: u32,
}

impl ForestConfig {
    pub fn new(seed: u64, width: usize, height: usize, months: u32) -> (r: Self)
        ensures
            r.seed == seed,
            r.width == width,
            r.height == height,
            r.months == months,
    {
        Self { seed, width, height, months }
    }
}

} // verus!
