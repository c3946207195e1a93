use crate::rand_analyzer::RandAnalyzer;
use crate::rng_lc::{draw, lc_next, lc_prev, RngLC};
use crate::types::{Rand, Seed};
use vstd::prelude::*;

verus! {

/// The linear-congruential generator with its 16-bit output.
pub struct LCRng {
    rng_lc: RngLC,
    rng_analyzer: RandAnalyzer,
}

impl LCRng {
    pub fn new() -> Self {
        LCRng { rng_lc: RngLC::new(), rng_analyzer: RandAnalyzer::new() }
    }

    pub fn next(&self, seed: Seed) -> (r: Seed)
        ensures
            r == lc_next(seed),
    {
        self.rng_lc.next(seed)
    }

    pub fn prev(&self, seed: Seed) -> (r: Seed)
        ensures
            r == lc_prev(seed),
    {
        self.rng_lc.prev(seed)
    }

    pub fn extract_rand(&self, seed: Seed) -> (r: Rand)
        ensures
            r == draw(seed),
    {
        self.rng_analyzer.extract_rand(seed)
    }
}

} // verus!
