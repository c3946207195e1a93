use crate::lcrng::LCRng;
use crate::rand_analyzer::{join_rands, pack_ivs, unpack_ivs, RandAnalyzer};
use crate::rng_lc::{lc_next, lc_prev, lc_retreat, lemma_next_prev_inverse};
use crate::search_spec::search_key;
use crate::seed_analyzer::ivs_of;
use crate::seed_finder::{pid_seed_match, SeedFinder};
use crate::seed_searcher::{seed_frame_sum, seed_hour, seed_time_sum};
use crate::types::{IVRanges, Seed};
use vstd::prelude::*;

verus! {

/// Whether a state can start the generator when the frame sum must stay below `limit`.
pub open spec fn bootable(s: u32, limit: u16) -> bool {
    seed_hour(s) < 24 && seed_frame_sum(s) < limit
}

/// The seed tools of the command-line front end.
pub struct Potanist {
    lcrng: LCRng,
    rng_analyzer: RandAnalyzer,
    seed_finder: SeedFinder,
}

impl Potanist {
    pub fn new() -> Self {
        Potanist {
            lcrng: LCRng::new(),
            rng_analyzer: RandAnalyzer::new(),
            seed_finder: SeedFinder::new(),
        }
    }

    pub fn ivs_to_rand(&self, ivs: [u8; 3]) -> (r: u16)
        ensures
            r == pack_ivs(ivs[0], ivs[1], ivs[2]),
    {
        self.rng_analyzer.iv_group_to_rand(ivs)
    }

    pub fn rand_to_ivs(&self, rand: u16) -> (r: [u8; 3])
        ensures
            r@ == unpack_ivs(rand),
    {
        self.rng_analyzer.rand_to_iv_group(rand)
    }

    pub fn rands_to_seed(&self, rand_1: u16, rand_2: u16) -> (r: u32)
        ensures
            r == join_rands(rand_1, rand_2),
    {
        self.rng_analyzer.rands_to_seed(rand_1, rand_2)
    }

    /// Every state of the first IV draw whose six values lie in `ivs`.
    pub fn find_seed_from_ivs(&self, ivs: IVRanges) -> (result: Vec<Seed>)
        requires
            ivs.wf(),
        ensures
            forall|i: int|
                #![trigger result@[i]]
                0 <= i < result@.len() ==> ivs.spec_contains(ivs_of(result@[i])),
            forall|i: int, j: int|
                #![trigger result@[i], result@[j]]
                0 <= i < j < result@.len() ==> search_key(ivs, result@[i]) < search_key(
                    ivs,
                    result@[j],
                ),
            forall|s: u32|
                #![trigger ivs_of(s)]
                ivs.spec_contains(ivs_of(s)) ==> exists|i: int|
                    0 <= i < result@.len() && result@[i] == s,
    {
        self.seed_finder.find_seed_from_iv_ranges(ivs)
    }

    /// Every state that can be the first PID draw of `pid`, in increasing order.
    pub fn find_seed_from_pid(&self, pid: u32) -> (result: Vec<Seed>)
        ensures
            forall|i: int|
                #![trigger result@[i]]
                0 <= i < result@.len() ==> pid_seed_match(pid, result@[i]),
            forall|i: int, j: int|
                #![trigger result@[i], result@[j]]
                0 <= i < j < result@.len() ==> result@[i] < result@[j],
            forall|s: u32|
                #![trigger pid_seed_match(pid, s)]
                pid_seed_match(pid, s) ==> exists|i: int|
                    0 <= i < result@.len() && result@[i] == s,
    {
        self.seed_finder.find_seed_from_pid(pid)
    }

    /// Steps back from `seed` (the given state first), fewer than `max_moves`
    /// times, to the first state that can start the generator with a frame sum
    /// below `max_frame_sum`. Gives that seed, the steps taken, its time sum, the
    /// time sum with the ninth bit set when that is a realizable sum (at most 490),
    /// its hour and its frame sum.
    pub fn find_seed_from_boot_time(&self, seed: u32, max_moves: u16, max_frame_sum: u16) -> (r:
        Option<(Seed, u16, u16, Option<u16>, u8, u16)>)
        ensures
            r matches Some((s, k, time_sum_0, time_sum_1, hour, frame_sum)) ==> {
                &&& k < max_moves
                &&& s == lc_retreat(seed, k as nat)
                &&& bootable(s, max_frame_sum)
                &&& forall|j: nat|
                    j < k ==> !#[trigger] bootable(lc_retreat(seed, j), max_frame_sum)
                &&& time_sum_0 == seed_time_sum(s)
                &&& time_sum_1 == if seed_time_sum(s) + 0x100 <= 490 {
                    Some((seed_time_sum(s) + 0x100) as u16)
                } else {
                    None
                }
                &&& hour == seed_hour(s)
                &&& frame_sum == seed_frame_sum(s)
            },
            r is None ==> forall|j: nat|
                j < max_moves ==> !#[trigger] bootable(lc_retreat(seed, j), max_frame_sum),
    {
        let mut current = self.lcrng.next(seed);
        let mut moves: u16 = 0;
        proof {
            lemma_next_prev_inverse(seed);
        }
        while moves < max_moves
            invariant
                moves <= max_moves,
                moves == 0 ==> current == lc_next(seed),
                moves > 0 ==> current == lc_retreat(seed, (moves - 1) as nat),
                lc_prev(lc_next(seed)) == seed,
                forall|j: nat|
                    j < moves ==> !#[trigger] bootable(lc_retreat(seed, j), max_frame_sum),
            decreases max_moves - moves,
        {
            current = self.lcrng.prev(current);
            assert((current >> 24) & 0xff == current / 0x100_0000) by (bit_vector);
            assert((current >> 16) & 0xff == (current / 0x1_0000) % 0x100) by (bit_vector);
            assert(current & 0xffff == current % 0x1_0000) by (bit_vector);
            let time_sum_0 = ((current >> 24) & 0xff) as u16;
            let time_sum_1 = if time_sum_0 + 0x100 <= 490 {
                Some(time_sum_0 + 0x100)
            } else {
                None
            };
            let hour = ((current >> 16) & 0xff) as u8;
            let frame_sum = (current & 0xffff) as u16;
            moves = moves + 1;
            if hour < 24 && frame_sum < max_frame_sum {
                return Some((current, moves - 1, time_sum_0, time_sum_1, hour, frame_sum));
            }
        }
        None
    }
}

} // verus!
