use crate::rand_analyzer::RandAnalyzer;
use crate::rng_lc::{draw, lc_next, lc_prev, lc_retreat, lemma_next_prev_inverse, RngLC};
use crate::search_spec::search_key;
use crate::seed_analyzer::ivs_of;
use crate::seed_searcher::{seed_frame_sum, seed_hour, SeedSearcher};
use crate::types::{IVRanges, Pid, Rand, Seed};
use vstd::prelude::*;

verus! {

/// Whether `s` can be the state of the first PID draw of `pid`: its output is
/// the low half of `pid` and the next state's output the high half.
pub open spec fn pid_seed_match(pid: u32, s: u32) -> bool {
    &&& draw(s) == pid % 0x1_0000
    &&& draw(lc_next(s)) == pid / 0x1_0000
}

/// Whether a state can start the generator when the frame sum may not exceed `limit`.
pub open spec fn reachable_start(s: u32, limit: u16) -> bool {
    seed_hour(s) < 24 && seed_frame_sum(s) <= limit
}

/// Finds the states behind given outcomes: by IV ranges, by PID, and by stepping
/// back to a reachable start.
pub struct SeedFinder {
    rng_lc: RngLC,
    rng_analyzer: RandAnalyzer,
    seed_searcher: SeedSearcher,
}

impl SeedFinder {
    pub fn new() -> Self {
        SeedFinder {
            rng_lc: RngLC::new(),
            rng_analyzer: RandAnalyzer::new(),
            seed_searcher: SeedSearcher::new(),
        }
    }

    /// Every state of the first IV draw whose six values lie in `iv_ranges`, in
    /// the order the enumeration meets them.
    pub fn find_seed_from_iv_ranges(&self, iv_ranges: IVRanges) -> (result: Vec<Seed>)
        requires
            iv_ranges.wf(),
        ensures
            forall|i: int|
                #![trigger result@[i]]
                0 <= i < result@.len() ==> iv_ranges.spec_contains(ivs_of(result@[i])),
            forall|i: int, j: int|
                #![trigger result@[i], result@[j]]
                0 <= i < j < result@.len() ==> search_key(iv_ranges, result@[i]) < search_key(
                    iv_ranges,
                    result@[j],
                ),
            forall|s: u32|
                #![trigger ivs_of(s)]
                iv_ranges.spec_contains(ivs_of(s)) ==> exists|i: int|
                    0 <= i < result@.len() && result@[i] == s,
    {
        self.seed_searcher.search_seeds_from_ivs(iv_ranges)
    }

    /// Every state that can be the first PID draw of `pid`, in increasing order.
    pub fn find_seed_from_pid(&self, pid: Pid) -> (result: Vec<Seed>)
        ensures
            forall|i: int|
                #![trigger result@[i]]
                0 <= i < result@.len() ==> pid_seed_match(pid, result@[i]),
            forall|i: int, j: int|
                #![trigger result@[i], result@[j]]
                0 <= i < j < result@.len() ==> result@[i] < result@[j],
            forall|s: u32|
                #![trigger pid_seed_match(pid, s)]
                pid_seed_match(pid, s) ==> exists|i: int|
                    0 <= i < result@.len() && result@[i] == s,
    {
        let mut result: Vec<Seed> = Vec::new();
        let high: Rand = (pid & 0xffff) as Rand;
        let expected: Rand = (pid >> 16) as Rand;
        assert(pid & 0xffff == pid % 0x1_0000) by (bit_vector);
        assert(pid >> 16 == pid / 0x1_0000) by (bit_vector);
        let mut low: u32 = 0;
        while low <= 0xffff
            invariant
                low <= 0x1_0000,
                high == pid % 0x1_0000,
                expected == pid / 0x1_0000,
                forall|i: int|
                    #![trigger result@[i]]
                    0 <= i < result@.len() ==> pid_seed_match(pid, result@[i]) && result@[i]
                        < high * 0x1_0000 + low,
                forall|i: int, j: int|
                    #![trigger result@[i], result@[j]]
                    0 <= i < j < result@.len() ==> result@[i] < result@[j],
                forall|s: u32|
                    #![trigger pid_seed_match(pid, s)]
                    pid_seed_match(pid, s) && s < high * 0x1_0000 + low ==> exists|i: int|
                        0 <= i < result@.len() && result@[i] == s,
            decreases 0x1_0000 - low,
        {
            let s = self.rng_analyzer.rands_to_seed(high, low as Rand);
            let next = self.rng_lc.next(s);
            let ghost before = result@;
            if self.rng_analyzer.extract_rand(next) == expected {
                result.push(s);
                assert forall|s2: u32|
                    #![trigger pid_seed_match(pid, s2)]
                    pid_seed_match(pid, s2) && s2 < high * 0x1_0000 + low + 1 implies exists|i: int|
                        0 <= i < result@.len() && result@[i] == s2 by {
                    if s2 < high * 0x1_0000 + low {
                        let i = choose|i: int| 0 <= i < before.len() && before[i] == s2;
                        assert(result@[i] == s2);
                    } else {
                        assert(result@[before.len() as int] == s2);
                    }
                }
                assert forall|i: int, j: int|
                    #![trigger result@[i], result@[j]]
                    0 <= i < j < result@.len() implies result@[i] < result@[j] by {
                    assert(result@[i] == before[i]);
                    if j < before.len() {
                        assert(result@[j] == before[j]);
                    }
                }
                assert forall|i: int|
                    #![trigger result@[i]]
                    0 <= i < result@.len() implies pid_seed_match(pid, result@[i]) && result@[i]
                        < high * 0x1_0000 + low + 1 by {
                    if i < before.len() {
                        assert(result@[i] == before[i]);
                    }
                }
            }
            low = low + 1;
        }
        result
    }

    /// Steps back from `seed` (the given state first) fewer than `max_advances`
    /// times to the first reachable start; nothing when there is none.
    pub fn find_seed_from_boot_time(
        &self,
        seed: Seed,
        max_advances: u16,
        min_waiting_frame: u16,
    ) -> (r: Option<Seed>)
        ensures
            r matches Some(s) ==> exists|k: nat|
                {
                    &&& k < max_advances
                    &&& s == lc_retreat(seed, k)
                    &&& reachable_start(s, min_waiting_frame)
                    &&& forall|j: nat|
                        j < k ==> !#[trigger] reachable_start(
                            lc_retreat(seed, j),
                            min_waiting_frame,
                        )
                },
            r is None ==> forall|k: nat|
                k < max_advances ==> !#[trigger] reachable_start(
                    lc_retreat(seed, k),
                    min_waiting_frame,
                ),
    {
        let mut current = self.rng_lc.next(seed);
        let mut advances: u16 = 0;
        proof {
            lemma_next_prev_inverse(seed);
        }
        while advances < max_advances
            invariant
                advances <= max_advances,
                advances == 0 ==> current == lc_next(seed),
                advances > 0 ==> current == lc_retreat(seed, (advances - 1) as nat),
                lc_prev(lc_next(seed)) == seed,
                forall|j: nat|
                    j < advances ==> !#[trigger] reachable_start(
                        lc_retreat(seed, j),
                        min_waiting_frame,
                    ),
            decreases max_advances - advances,
        {
            current = self.rng_lc.prev(current);
            assert((current >> 16) & 0xff == (current / 0x1_0000) % 0x100) by (bit_vector);
            assert(current & 0xffff == current % 0x1_0000) by (bit_vector);
            let hour = ((current >> 16) & 0xff) as u8;
            let frame_sum = (current & 0xffff) as u16;
            advances = advances + 1;
            if hour < 24 && frame_sum <= min_waiting_frame {
                assert(current == lc_retreat(seed, (advances - 1) as nat));
                return Some(current);
            }
        }
        None
    }
}

} // verus!
