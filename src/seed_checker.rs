use crate::rand_analyzer::RandAnalyzer;
use crate::rng_lc::{draw, lc_advance, lc_next, RngLC};
use crate::rng_mt::{mt_pid, mt_state_after, RngMT};
use crate::roaming_routes::{johto_route, johto_routes, kanto_route, kanto_routes};
use crate::types::Seed;
use std::collections::HashMap;
use vstd::prelude::*;

verus! {

/// The lowest seed of the window of width `w` around `s`, clamped at 0.
pub open spec fn window_low(s: u32, w: u8) -> int {
    if s >= w {
        s - w
    } else {
        0
    }
}

/// The highest seed of the window of width `w` around `s`, clamped at the largest seed.
pub open spec fn window_high(s: u32, w: u8) -> int {
    if s + w <= u32::MAX {
        s + w
    } else {
        u32::MAX as int
    }
}

/// The ten answers to calls after `n` roamers have moved: the draws `n + 1` to
/// `n + 10` steps after `seed`, each modulo 3.
pub open spec fn call_responses(seed: u32, n: nat) -> Seq<u8> {
    Seq::new(10, |i: int| (draw(lc_advance(seed, n + i as nat + 1)) % 3) as u8)
}

/// The routes of the enabled roamers from index `i` on, starting from `state`:
/// each enabled roamer takes one step, the beasts (indices 0 and 1) a Johto
/// route by the draw modulo 16, the eon creature (index 2) a Kanto route by the
/// draw modulo 25.
pub open spec fn roamer_routes_from(state: u32, mask: Seq<bool>, i: nat) -> Seq<u8>
    decreases 3 - i,
{
    if i >= 3 {
        seq![]
    } else if !mask[i as int] {
        roamer_routes_from(state, mask, i + 1)
    } else {
        let next = lc_next(state);
        let route = if i < 2 {
            johto_routes()[(draw(next) % 16) as int]
        } else {
            kanto_routes()[(draw(next) % 25) as int]
        };
        seq![route] + roamer_routes_from(next, mask, i + 1)
    }
}

/// The ten coin flips of the egg generator seeded with `seed`: the parities of
/// its first ten tempered draws.
pub open spec fn coin_flips(seed: u32) -> Seq<bool> {
    Seq::new(10, |i: int| mt_pid(seed, i as nat) % 2 == 1)
}

/// Predicts telephone answers, roamer routes and coin flips around an initial seed.
pub struct SeedChecker {
    rng_analyzer: RandAnalyzer,
    rng_lc: RngLC,
}

impl SeedChecker {
    pub fn new() -> Self {
        SeedChecker { rng_analyzer: RandAnalyzer::new(), rng_lc: RngLC::new() }
    }

    /// For each seed of the window around `initial_seed`, the ten answer types
    /// after `roaming_num` roamer steps.
    pub fn create_call_response_sequence_map(
        &self,
        initial_seed: Seed,
        roaming_num: u8,
        search_range: u8,
    ) -> (r: HashMap<Seed, Vec<u8>>)
        ensures
            forall|x: u32|
                #![trigger r@.contains_key(x)]
                r@.contains_key(x) <==> window_low(initial_seed, search_range) <= x
                    <= window_high(initial_seed, search_range),
            forall|x: u32|
                #![trigger r@[x]]
                r@.contains_key(x) ==> r@[x]@ == call_responses(x, roaming_num as nat),
    {
        let mut map: HashMap<Seed, Vec<u8>> = HashMap::new();
        let range_start = initial_seed.saturating_sub(search_range as u32);
        let range_end = initial_seed.saturating_add(search_range as u32);
        let mut seed: u64 = range_start as u64;
        while seed <= range_end as u64
            invariant
                range_start == window_low(initial_seed, search_range),
                range_end == window_high(initial_seed, search_range),
                range_start <= seed <= range_end as u64 + 1,
                forall|x: u32|
                    #![trigger map@.contains_key(x)]
                    map@.contains_key(x) <==> range_start <= x < seed,
                forall|x: u32|
                    #![trigger map@[x]]
                    map@.contains_key(x) ==> map@[x]@ == call_responses(x, roaming_num as nat),
            decreases range_end as u64 + 1 - seed,
        {
            let x = seed as u32;
            let mut state = x;
            let mut i: u8 = 0;
            while i < roaming_num
                invariant
                    i <= roaming_num,
                    state == lc_advance(x, i as nat),
                decreases roaming_num - i,
            {
                state = self.rng_lc.next(state);
                i = i + 1;
            }
            let mut responses: Vec<u8> = Vec::new();
            let mut j: u8 = 0;
            while j < 10
                invariant
                    j <= 10,
                    state == lc_advance(x, roaming_num as nat + j as nat),
                    responses@.len() == j,
                    forall|k: int|
                        0 <= k < j ==> responses@[k] == call_responses(x, roaming_num as nat)[k],
                decreases 10 - j,
            {
                state = self.rng_lc.next(state);
                let rand = self.rng_analyzer.extract_rand(state);
                responses.push((rand % 3) as u8);
                j = j + 1;
            }
            assert(responses@ =~= call_responses(x, roaming_num as nat));
            map.insert(x, responses);
            seed = seed + 1;
        }
        map
    }

    /// For each seed of the window around `initial_seed`, the routes of the
    /// enabled roamers, with the mask.
    pub fn create_roamers_location_map(
        &self,
        initial_seed: Seed,
        roaming: [bool; 3],
        search_range: u8,
    ) -> (r: HashMap<Seed, (Vec<u8>, [bool; 3])>)
        ensures
            forall|x: u32|
                #![trigger r@.contains_key(x)]
                r@.contains_key(x) <==> (window_low(initial_seed, search_range) <= x
                    <= window_high(initial_seed, search_range) && (roaming[0] || roaming[1]
                    || roaming[2])),
            forall|x: u32|
                #![trigger r@[x]]
                r@.contains_key(x) ==> r@[x].0@ == roamer_routes_from(x, roaming@, 0) && r@[x].1
                    == roaming,
    {
        let mut map: HashMap<Seed, (Vec<u8>, [bool; 3])> = HashMap::new();
        let any = roaming[0] || roaming[1] || roaming[2];
        let range_start = initial_seed.saturating_sub(search_range as u32);
        let range_end = initial_seed.saturating_add(search_range as u32);
        let mut seed: u64 = range_start as u64;
        while seed <= range_end as u64
            invariant
                any == (roaming[0] || roaming[1] || roaming[2]),
                range_start == window_low(initial_seed, search_range),
                range_end == window_high(initial_seed, search_range),
                range_start <= seed <= range_end as u64 + 1,
                forall|x: u32|
                    #![trigger map@.contains_key(x)]
                    map@.contains_key(x) <==> (range_start <= x < seed && any),
                forall|x: u32|
                    #![trigger map@[x]]
                    map@.contains_key(x) ==> map@[x].0@ == roamer_routes_from(x, roaming@, 0)
                        && map@[x].1 == roaming,
            decreases range_end as u64 + 1 - seed,
        {
            let x = seed as u32;
            let mut state = x;
            let mut routes: Vec<u8> = Vec::new();
            let mut i: usize = 0;
            while i < 3
                invariant
                    i <= 3,
                    routes@ + roamer_routes_from(state, roaming@, i as nat) == roamer_routes_from(
                        x,
                        roaming@,
                        0,
                    ),
                decreases 3 - i,
            {
                if roaming[i] {
                    state = self.rng_lc.next(state);
                    let rand = self.rng_analyzer.extract_rand(state);
                    let route = if i < 2 {
                        johto_route((rand % 16) as usize)
                    } else {
                        kanto_route((rand % 25) as usize)
                    };
                    let ghost before = routes@;
                    routes.push(route);
                    assert(routes@ + roamer_routes_from(state, roaming@, i as nat + 1) =~= before
                        + (seq![route] + roamer_routes_from(state, roaming@, i as nat + 1)));
                }
                i = i + 1;
            }
            assert(roamer_routes_from(state, roaming@, 3) =~= seq![]);
            assert(routes@ =~= roamer_routes_from(x, roaming@, 0));
            if any {
                map.insert(x, (routes, roaming));
            }
            seed = seed + 1;
        }
        map
    }

    /// For each seed of the window around `initial_seed`, the ten coin flips of
    /// the egg generator seeded with it.
    pub fn create_coin_flip_result_map(&self, initial_seed: Seed, search_range: u8) -> (r: HashMap<
        Seed,
        Vec<bool>,
    >)
        ensures
            forall|x: u32|
                #![trigger r@.contains_key(x)]
                r@.contains_key(x) <==> window_low(initial_seed, search_range) <= x
                    <= window_high(initial_seed, search_range),
            forall|x: u32|
                #![trigger r@[x]]
                r@.contains_key(x) ==> r@[x]@ == coin_flips(x),
    {
        let mut map: HashMap<Seed, Vec<bool>> = HashMap::new();
        let range_start = initial_seed.saturating_sub(search_range as u32);
        let range_end = initial_seed.saturating_add(search_range as u32);
        let mut seed: u64 = range_start as u64;
        while seed <= range_end as u64
            invariant
                range_start == window_low(initial_seed, search_range),
                range_end == window_high(initial_seed, search_range),
                range_start <= seed <= range_end as u64 + 1,
                forall|x: u32|
                    #![trigger map@.contains_key(x)]
                    map@.contains_key(x) <==> range_start <= x < seed,
                forall|x: u32|
                    #![trigger map@[x]]
                    map@.contains_key(x) ==> map@[x]@ == coin_flips(x),
            decreases range_end as u64 + 1 - seed,
        {
            let x = seed as u32;
            let mut mt = RngMT::new(x);
            let mut flips: Vec<bool> = Vec::new();
            let mut j: u32 = 0;
            while j < 10
                invariant
                    j <= 10,
                    mt.wf(),
                    mt.state() == mt_state_after(x, j as nat),
                    flips@.len() == j,
                    forall|k: int| 0 <= k < j ==> flips@[k] == coin_flips(x)[k],
                decreases 10 - j,
            {
                let next_seed = mt.next();
                let pid = mt.get_pid(next_seed);
                flips.push(pid % 2 == 1);
                j = j + 1;
            }
            assert(flips@ =~= coin_flips(x));
            map.insert(x, flips);
            seed = seed + 1;
        }
        map
    }
}

} // verus!
