//! Recovery of initial seeds and boot times for the fourth-generation
//! handheld games' random number generators.

pub mod types;
pub mod rng_lc;
pub mod rand_analyzer;
pub mod rng_mt;
pub mod seed_analyzer;
pub mod seed_searcher;
pub mod search_spec;
pub mod roaming_routes;
pub mod seed_checker;
pub mod time_sum_map;
pub mod lcrng;
pub mod seed_finder;
pub mod potanist;
