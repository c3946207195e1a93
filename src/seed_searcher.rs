use crate::rand_analyzer::{lemma_pack_ivs_value, pack_ivs, RandAnalyzer};
use crate::rng_lc::{draw, lc_advance, lc_prev, lc_retreat, RngLC};
use crate::rng_mt::{mt_pid, mt_state_after, RngMT};
use crate::search_spec::{
    base_pos, block_state, compose_seed, egg_iv_hit, egg_iv_record, egg_loci, egg_pid_first,
    egg_pid_match, egg_pid_place, egg_pid_record, enumerated_group, enumerated_in_range,
    inherited_ivs, iv_seq, lemma_block_state, lemma_egg_iv_record_iv1, lemma_search_all_before,
    lemma_search_complete, lemma_search_skip_after_second, lemma_search_skip_after_third,
    lemma_search_skip_to_first, lemma_search_skip_to_second, lemma_search_skip_to_third,
    lemma_search_step, record_iv1, search_forward, search_hit, search_key, search_prefix,
    lemma_status_record_iv1, status_filters, status_hit, status_record, SearchKind,
};
use crate::seed_analyzer::{is_shiny, ivs_of, SeedAnalyzer};
use crate::types::{IVRange, IVRanges, IVs, InitialSeed, Pid, Rand, Seed, Status};
use vstd::prelude::*;

verus! {

/// The ranges and filters of a search.
#[derive(Clone, Copy, Debug, PartialEq, Eq, Structural)]
pub struct SearchParams {
    pub iv_ranges: IVRanges,
    /// A nature from 0 to 24, or -1 for any.
    pub nature: i16,
    /// An ability bit, or -1 for any.
    pub ability: i16,
    /// A hidden-power type from 0 to 15, or -1 for any.
    pub hidden_power_type: i16,
    pub hidden_power_power_min: u8,
    pub hidden_power_power_max: u8,
    pub shiny: bool,
    pub tid: Rand,
    pub sid: Rand,
    pub max_advances: u16,
    /// The largest frame sum to consider; the smallest is 600.
    pub max_frame_sum: u16,
}

/// One result of a search, with the initial seed that leads to it.
#[derive(Clone, Copy, Debug, PartialEq, Eq, Structural)]
pub enum ReturnParams {
    StatusMatch {
        initial_seed: InitialSeed,
        ivs: IVs,
        pid: Pid,
        nature: u8,
        gender: u8,
        ability: u8,
        hidden_power_type: u8,
        hidden_power_power: u8,
        advances: u16,
        time_sum: u16,
        hour: u16,
        frame_sum: u16,
    },
    EggPidMatch {
        initial_seed: InitialSeed,
        pid: Pid,
        nature: u8,
        gender: u8,
        ability: u8,
        advances: u16,
        time_sum: u16,
        hour: u16,
        frame_sum: u16,
    },
    EggIvMatch {
        initial_seed: InitialSeed,
        ivs: IVs,
        advances: u16,
        time_sum: u16,
        hour: u16,
        frame_sum: u16,
    },
}

/// The time sum stored in the top byte of an initial seed.
pub open spec fn seed_time_sum(s: u32) -> u16 {
    (s / 0x100_0000) as u16
}

/// The hour stored in the second byte of an initial seed.
pub open spec fn seed_hour(s: u32) -> u16 {
    ((s / 0x1_0000) % 0x100) as u16
}

/// The frame sum stored in the low half of an initial seed.
pub open spec fn seed_frame_sum(s: u32) -> u16 {
    (s % 0x1_0000) as u16
}

/// Whether a console could have started its generator with `s`.
pub open spec fn feasible_initial_seed(s: u32, max_frame_sum: u16) -> bool {
    &&& seed_time_sum(s) <= 490
    &&& seed_hour(s) < 24
    &&& 600 <= seed_frame_sum(s) <= max_frame_sum as int + 99
}

/// The first count `k`, from `k` on and up to `max_advances`, such that `k + 1`
/// backward steps from `seed` reach a feasible initial seed: the first step back
/// is always taken, and the count leaves it out.
pub open spec fn first_feasible_from(seed: u32, k: nat, max_advances: nat, max_frame_sum: u16)
    -> Option<nat>
    decreases max_advances + 1 - k,
{
    if k > max_advances {
        None
    } else if feasible_initial_seed(lc_retreat(seed, k + 1), max_frame_sum) {
        Some(k)
    } else {
        first_feasible_from(seed, k + 1, max_advances, max_frame_sum)
    }
}

/// The initial seed found by stepping back once from `seed` and then walking back,
/// the steps walked after the first, and the seed's time sum, hour and frame sum.
pub open spec fn resolve_initial_seed(seed: u32, max_advances: u16, max_frame_sum: u16) -> Option<
    (u32, u16, u16, u16, u16),
> {
    match first_feasible_from(seed, 0, max_advances as nat, max_frame_sum) {
        Some(k) => {
            let s = lc_retreat(seed, k + 1);
            Some((s, k as u16, seed_time_sum(s), seed_hour(s), seed_frame_sum(s)))
        },
        None => None,
    }
}

proof fn lemma_first_feasible_bounds(seed: u32, k: nat, max_advances: nat, max_frame_sum: u16)
    ensures
        first_feasible_from(seed, k, max_advances, max_frame_sum) matches Some(j) ==> {
            &&& k <= j <= max_advances
            &&& feasible_initial_seed(lc_retreat(seed, j + 1), max_frame_sum)
            &&& forall|i: nat|
                k <= i < j ==> !feasible_initial_seed(
                    #[trigger] lc_retreat(seed, i + 1),
                    max_frame_sum,
                )
        },
        first_feasible_from(seed, k, max_advances, max_frame_sum) is None ==> forall|i: nat|
            k <= i <= max_advances ==> !feasible_initial_seed(
                #[trigger] lc_retreat(seed, i + 1),
                max_frame_sum,
            ),
    decreases max_advances + 1 - k,
{
    if k <= max_advances && !feasible_initial_seed(lc_retreat(seed, k + 1), max_frame_sum) {
        lemma_first_feasible_bounds(seed, k + 1, max_advances, max_frame_sum);
    }
}

/// The initial seed found from `seed` is the nearest feasible one from one step
/// behind it on, within the step budget, and there is none when no state one to
/// `max_advances + 1` steps behind it is feasible.
pub proof fn lemma_resolve_initial_seed(seed: u32, max_advances: u16, max_frame_sum: u16)
    ensures
        resolve_initial_seed(seed, max_advances, max_frame_sum) matches Some(
            (s, k, time_sum, hour, frame_sum),
        ) ==> {
            &&& k <= max_advances
            &&& s == lc_retreat(seed, k as nat + 1)
            &&& feasible_initial_seed(s, max_frame_sum)
            &&& time_sum == seed_time_sum(s)
            &&& hour == seed_hour(s)
            &&& frame_sum == seed_frame_sum(s)
            &&& forall|i: nat|
                i < k ==> !feasible_initial_seed(#[trigger] lc_retreat(seed, i + 1), max_frame_sum)
        },
        resolve_initial_seed(seed, max_advances, max_frame_sum) is None ==> forall|i: nat|
            i <= max_advances ==> !feasible_initial_seed(
                #[trigger] lc_retreat(seed, i + 1),
                max_frame_sum,
            ),
{
    lemma_first_feasible_bounds(seed, 0, max_advances as nat, max_frame_sum);
}

/// The six values in the order hp, attack, defense, speed, sp. attack, sp. defense.
fn iv_values(v: &IVs) -> (r: Vec<u8>)
    ensures
        r@ == iv_seq(*v),
{
    let r = vec![v.hp, v.attack, v.defense, v.speed, v.sp_attack, v.sp_defense];
    assert(r@ =~= iv_seq(*v));
    r
}

/// The number of values in a range.
fn range_width(r: &IVRange) -> (w: u32)
    requires
        r.end < 32,
    ensures
        w == r.width(),
        w <= 32,
{
    if r.start <= r.end {
        (r.end - r.start + 1) as u32
    } else {
        0
    }
}

/// The number of value combinations of three ranges.
fn group_volume_of(r0: &IVRange, r1: &IVRange, r2: &IVRange) -> (v: u32)
    requires
        r0.end < 32,
        r1.end < 32,
        r2.end < 32,
    ensures
        v == r0.width() * r1.width() * r2.width(),
{
    let w0 = range_width(r0);
    let w1 = range_width(r1);
    let w2 = range_width(r2);
    assert(w0 * w1 <= 1024 && w0 * w1 * w2 <= 32768) by (nonlinear_arith)
        requires
            w0 <= 32,
            w1 <= 32,
            w2 <= 32,
    ;
    w0 * w1 * w2
}

fn status_filters_hold(p: &SearchParams, st: &Status) -> (r: bool)
    ensures
        r == status_filters(*p, *st),
{
    (p.nature == -1 || p.nature == st.nature as i16) && (p.ability == -1 || p.ability
        == st.ability as i16) && (!p.shiny || st.shiny) && (p.hidden_power_type == -1
        || p.hidden_power_type == st.hidden_power_type as i16) && p.hidden_power_power_min
        <= st.hidden_power_power && st.hidden_power_power <= p.hidden_power_power_max
}

/// Searches for the states that produce given outcomes, and for the initial
/// seeds behind them.
pub struct SeedSearcher {
    rng_analyzer: RandAnalyzer,
    rng_lc: RngLC,
    seed_analyzer: SeedAnalyzer,
}

impl SeedSearcher {
    pub fn new() -> Self {
        SeedSearcher {
            rng_analyzer: RandAnalyzer::new(),
            rng_lc: RngLC::new(),
            seed_analyzer: SeedAnalyzer::new(),
        }
    }

    /// Finds every state of the first IV draw whose creature matches `params` and
    /// has a feasible initial seed behind it, in the order the enumeration meets them.
    pub fn search_seeds_from_status(&self, params: SearchParams) -> (result: Vec<ReturnParams>)
        requires
            params.iv_ranges.wf(),
        ensures
            forall|i: int|
                #![trigger result@[i]]
                0 <= i < result@.len() ==> {
                    &&& status_hit(params, record_iv1(result@[i]))
                    &&& result@[i] == status_record(params, record_iv1(result@[i]))
                },
            forall|i: int, j: int|
                #![trigger result@[i], result@[j]]
                0 <= i < j < result@.len() ==> search_key(
                    params.iv_ranges,
                    record_iv1(result@[i]),
                ) < search_key(params.iv_ranges, record_iv1(result@[j])),
            forall|s: u32|
                #![trigger status_hit(params, s)]
                status_hit(params, s) ==> exists|i: int|
                    0 <= i < result@.len() && record_iv1(result@[i]) == s,
    {
        let seeds = self.search_enumerated(params, SearchKind::Status);
        let mut result: Vec<ReturnParams> = Vec::new();
        let mut i: usize = 0;
        while i < seeds.len()
            invariant
                i <= seeds@.len(),
                result@.len() == i,
                forall|k: int|
                    #![trigger seeds@[k]]
                    0 <= k < seeds@.len() ==> search_hit(params, SearchKind::Status, seeds@[k]),
                forall|k: int|
                    0 <= k < i ==> result@[k] == status_record(params, #[trigger] seeds@[k]),
            decreases seeds@.len() - i,
        {
            assert(search_hit(params, SearchKind::Status, seeds@[i as int]));
            if let Some(record) = self.status_at(&params, seeds[i]) {
                result.push(record);
            }
            i = i + 1;
        }
        assert forall|k: int|
            0 <= k < result@.len() implies record_iv1(#[trigger] result@[k]) == seeds@[k] by {
            assert(search_hit(params, SearchKind::Status, seeds@[k]));
            lemma_status_record_iv1(params, seeds@[k]);
        }
        assert forall|s: u32|
            #![trigger status_hit(params, s)]
            status_hit(params, s) implies exists|i: int|
                0 <= i < result@.len() && record_iv1(result@[i]) == s by {
            assert(search_hit(params, SearchKind::Status, s));
            let k = choose|k: int| 0 <= k < seeds@.len() && seeds@[k] == s;
            assert(record_iv1(result@[k]) == seeds@[k]);
        }
        assert forall|a: int, b: int|
            #![trigger result@[a], result@[b]]
            0 <= a < b < result@.len() implies search_key(params.iv_ranges, record_iv1(result@[a]))
                < search_key(params.iv_ranges, record_iv1(result@[b])) by {
            assert(record_iv1(result@[a]) == seeds@[a]);
            assert(record_iv1(result@[b]) == seeds@[b]);
        }
        assert forall|a: int|
            #![trigger result@[a]]
            0 <= a < result@.len() implies {
                &&& status_hit(params, record_iv1(result@[a]))
                &&& result@[a] == status_record(params, record_iv1(result@[a]))
            } by {
            assert(record_iv1(result@[a]) == seeds@[a]);
            assert(search_hit(params, SearchKind::Status, seeds@[a]));
        }
        result
    }

    /// Finds every state of the first IV draw whose drawn values, or the values
    /// after inheritance from the two parents, lie in the ranges and that has a
    /// feasible initial seed behind it, in the order the enumeration meets them.
    pub fn search_seeds_from_egg_iv(
        &self,
        params: SearchParams,
        parent_ivs_0: IVs,
        parent_ivs_1: IVs,
    ) -> (result: Vec<ReturnParams>)
        requires
            params.iv_ranges.wf(),
        ensures
            forall|i: int|
                #![trigger result@[i]]
                0 <= i < result@.len() ==> {
                    &&& egg_iv_hit(params, parent_ivs_0, parent_ivs_1, record_iv1(result@[i]))
                    &&& result@[i] == egg_iv_record(
                        params,
                        parent_ivs_0,
                        parent_ivs_1,
                        record_iv1(result@[i]),
                    )
                },
            forall|i: int, j: int|
                #![trigger result@[i], result@[j]]
                0 <= i < j < result@.len() ==> search_key(
                    params.iv_ranges,
                    record_iv1(result@[i]),
                ) < search_key(params.iv_ranges, record_iv1(result@[j])),
            forall|s: u32|
                #![trigger egg_iv_hit(params, parent_ivs_0, parent_ivs_1, s)]
                egg_iv_hit(params, parent_ivs_0, parent_ivs_1, s) ==> exists|i: int|
                    0 <= i < result@.len() && record_iv1(result@[i]) == s,
    {
        let kind = SearchKind::EggIv { parent_0: parent_ivs_0, parent_1: parent_ivs_1 };
        let seeds = self.search_enumerated(params, kind);
        let mut result: Vec<ReturnParams> = Vec::new();
        let mut i: usize = 0;
        while i < seeds.len()
            invariant
                i <= seeds@.len(),
                result@.len() == i,
                kind == (SearchKind::EggIv { parent_0: parent_ivs_0, parent_1: parent_ivs_1 }),
                forall|k: int|
                    #![trigger seeds@[k]]
                    0 <= k < seeds@.len() ==> search_hit(params, kind, seeds@[k]),
                forall|k: int|
                    0 <= k < i ==> result@[k] == egg_iv_record(
                        params,
                        parent_ivs_0,
                        parent_ivs_1,
                        #[trigger] seeds@[k],
                    ),
            decreases seeds@.len() - i,
        {
            assert(search_hit(params, kind, seeds@[i as int]));
            assert(enumerated_in_range(params.iv_ranges, seeds@[i as int]));
            if let Some(record) = self.egg_iv_at(&params, &parent_ivs_0, &parent_ivs_1, seeds[i]) {
                result.push(record);
            }
            i = i + 1;
        }
        assert forall|k: int|
            0 <= k < result@.len() implies record_iv1(#[trigger] result@[k]) == seeds@[k] by {
            assert(search_hit(params, kind, seeds@[k]));
            lemma_egg_iv_record_iv1(params, parent_ivs_0, parent_ivs_1, seeds@[k]);
        }
        assert forall|s: u32|
            #![trigger egg_iv_hit(params, parent_ivs_0, parent_ivs_1, s)]
            egg_iv_hit(params, parent_ivs_0, parent_ivs_1, s) implies exists|i: int|
                0 <= i < result@.len() && record_iv1(result@[i]) == s by {
            assert(search_hit(params, kind, s));
            let k = choose|k: int| 0 <= k < seeds@.len() && seeds@[k] == s;
            assert(record_iv1(result@[k]) == seeds@[k]);
        }
        assert forall|a: int, b: int|
            #![trigger result@[a], result@[b]]
            0 <= a < b < result@.len() implies search_key(params.iv_ranges, record_iv1(result@[a]))
                < search_key(params.iv_ranges, record_iv1(result@[b])) by {
            assert(record_iv1(result@[a]) == seeds@[a]);
            assert(record_iv1(result@[b]) == seeds@[b]);
        }
        assert forall|a: int|
            #![trigger result@[a]]
            0 <= a < result@.len() implies {
                &&& egg_iv_hit(params, parent_ivs_0, parent_ivs_1, record_iv1(result@[a]))
                &&& result@[a] == egg_iv_record(
                    params,
                    parent_ivs_0,
                    parent_ivs_1,
                    record_iv1(result@[a]),
                )
            } by {
            assert(record_iv1(result@[a]) == seeds@[a]);
            assert(search_hit(params, kind, seeds@[a]));
        }
        result
    }

    /// Enumerates the smaller-volume triple of ranges, both values of the top bit
    /// and every low half, and keeps the hits of the given kind.
    fn search_enumerated(&self, params: SearchParams, kind: SearchKind) -> (result: Vec<Seed>)
        requires
            params.iv_ranges.wf(),
        ensures
            forall|i: int|
                #![trigger result@[i]]
                0 <= i < result@.len() ==> search_hit(params, kind, result@[i]),
            forall|i: int, j: int|
                #![trigger result@[i], result@[j]]
                0 <= i < j < result@.len() ==> search_key(params.iv_ranges, result@[i])
                    < search_key(params.iv_ranges, result@[j]),
            forall|s: u32|
                #![trigger search_hit(params, kind, s)]
                search_hit(params, kind, s) ==> exists|i: int|
                    0 <= i < result@.len() && result@[i] == s,
    {
        let p = params;
        let ranges = p.iv_ranges;
        let volume_1 = group_volume_of(&ranges.hp, &ranges.attack, &ranges.defense);
        let volume_2 = group_volume_of(&ranges.speed, &ranges.sp_attack, &ranges.sp_defense);
        let forward = !(volume_2 < volume_1);
        let (g0, g1, g2) = if forward {
            (ranges.hp, ranges.attack, ranges.defense)
        } else {
            (ranges.speed, ranges.sp_attack, ranges.sp_defense)
        };
        let ghost g = enumerated_group(ranges);
        assert(forward == search_forward(ranges));
        assert(g0 == g[0] && g1 == g[1] && g2 == g[2]);
        let mut result: Vec<Seed> = Vec::new();
        proof {
            assert(result@ =~= seq![]);
            lemma_search_skip_to_first(p, kind);
        }
        let mut a: u32 = g0.start as u32;
        while a <= g0.end as u32
            invariant
                g0.start <= a <= 32,
                g0 == g[0] && g1 == g[1] && g2 == g[2],
                g == enumerated_group(ranges),
                forward == search_forward(ranges),
                ranges == p.iv_ranges,
                ranges.wf(),
                g0.end < 32 && g1.end < 32 && g2.end < 32,
                search_prefix(p, kind, result@, base_pos(a as int, 0, 0)),
            decreases 32 - a,
        {
            proof {
                lemma_search_skip_to_second(p, kind, result@, a as int);
            }
            let mut b: u32 = g1.start as u32;
            while b <= g1.end as u32
                invariant
                    g0.start <= a <= g0.end,
                    g1.start <= b <= 32,
                    g0 == g[0] && g1 == g[1] && g2 == g[2],
                    g == enumerated_group(ranges),
                    forward == search_forward(ranges),
                    ranges == p.iv_ranges,
                    ranges.wf(),
                    g0.end < 32 && g1.end < 32 && g2.end < 32,
                    search_prefix(p, kind, result@, base_pos(a as int, b as int, 0)),
                decreases 32 - b,
            {
                proof {
                    lemma_search_skip_to_third(p, kind, result@, a as int, b as int);
                }
                let mut c: u32 = g2.start as u32;
                while c <= g2.end as u32
                    invariant
                        g0.start <= a <= g0.end,
                        g1.start <= b <= g1.end,
                        g2.start <= c <= 32,
                        g0 == g[0] && g1 == g[1] && g2 == g[2],
                        g == enumerated_group(ranges),
                        forward == search_forward(ranges),
                        ranges == p.iv_ranges,
                        ranges.wf(),
                        g0.end < 32 && g1.end < 32 && g2.end < 32,
                        search_prefix(p, kind, result@, base_pos(a as int, b as int, c as int)),
                    decreases 32 - c,
                {
                    self.search_block(&p, kind, forward, a as u8, b as u8, c as u8, &mut result);
                    assert(base_pos(a as int, b as int, c as int) + 0x20000 == base_pos(
                        a as int,
                        b as int,
                        c + 1,
                    ));
                    c = c + 1;
                }
                proof {
                    lemma_search_skip_after_third(p, kind, result@, a as int, b as int, c as int);
                }
                b = b + 1;
            }
            proof {
                lemma_search_skip_after_second(p, kind, result@, a as int, b as int);
            }
            a = a + 1;
        }
        proof {
            lemma_search_all_before(p, kind, a as int);
        }
        proof {
            lemma_search_complete(p, kind, result@, base_pos(a as int, 0, 0));
        }
        result
    }

    #[verifier::rlimit(50)]
    /// Meets, in order, the states of the block of the enumerated triple `(a, b, c)`.
    fn search_block(
        &self,
        p: &SearchParams,
        kind: SearchKind,
        forward: bool,
        a: u8,
        b: u8,
        c: u8,
        result: &mut Vec<Seed>,
    )
        requires
            forward == search_forward(p.iv_ranges),
            a < 32,
            b < 32,
            c < 32,
            enumerated_group(p.iv_ranges)[0].spec_contains(a),
            enumerated_group(p.iv_ranges)[1].spec_contains(b),
            enumerated_group(p.iv_ranges)[2].spec_contains(c),
            search_prefix(*p, kind, old(result)@, base_pos(a as int, b as int, c as int)),
        ensures
            search_prefix(
                *p,
                kind,
                final(result)@,
                base_pos(a as int, b as int, c as int) + 0x20000,
            ),
    {
        let hi0 = self.rng_analyzer.iv_group_to_rand([a, b, c]);
        proof {
            lemma_pack_ivs_value(a, b, c);
        }
        let mut j: u32 = 0;
        while j < 0x20000
            invariant
                j <= 0x20000,
                hi0 == pack_ivs(a, b, c),
                hi0 < 0x8000,
                forward == search_forward(p.iv_ranges),
                a < 32 && b < 32 && c < 32,
                enumerated_group(p.iv_ranges)[0].spec_contains(a),
                enumerated_group(p.iv_ranges)[1].spec_contains(b),
                enumerated_group(p.iv_ranges)[2].spec_contains(c),
                search_prefix(*p, kind, result@, base_pos(a as int, b as int, c as int) + j),
            decreases 0x20000 - j,
        {
            let hi: u16 = hi0 + ((j / 0x10000) as u16) * 0x8000;
            let lo: u16 = (j % 0x10000) as u16;
            let x = self.rng_analyzer.rands_to_seed(hi, lo);
            let iv1 = if forward {
                x
            } else {
                self.rng_lc.prev(x)
            };
            assert(iv1 == block_state(forward, a, b, c, j as int));
            proof {
                lemma_block_state(p.iv_ranges, a, b, c, j as int);
                let cur = base_pos(a as int, b as int, c as int) + j;
                lemma_search_step(*p, kind, result@, cur, iv1);
            }
            assert(enumerated_in_range(p.iv_ranges, iv1));
            let hit = match kind {
                SearchKind::Status => match self.status_at(p, iv1) {
                    Some(_) => true,
                    None => false,
                },
                SearchKind::EggIv { parent_0, parent_1 } => match self.egg_iv_at(
                    p,
                    &parent_0,
                    &parent_1,
                    iv1,
                ) {
                    Some(_) => true,
                    None => false,
                },
                SearchKind::Ivs => self.ivs_in_ranges(&p.iv_ranges, iv1),
            };
            if hit {
                result.push(iv1);
            }
            j = j + 1;
        }
    }

    /// The six values that the state `iv1` of the first IV draw and the next state give.
    fn ivs_at(&self, iv1: Seed) -> (r: IVs)
        ensures
            r == ivs_of(iv1),
    {
        let iv2 = self.rng_lc.next(iv1);
        let first = self.rng_analyzer.rand_to_iv_group(self.rng_analyzer.extract_rand(iv1));
        let second = self.rng_analyzer.rand_to_iv_group(self.rng_analyzer.extract_rand(iv2));
        IVs {
            hp: first[0],
            attack: first[1],
            defense: first[2],
            speed: second[0],
            sp_attack: second[1],
            sp_defense: second[2],
        }
    }

    /// Whether the values of the state `iv1` of the first IV draw lie in the ranges.
    fn ivs_in_ranges(&self, ranges: &IVRanges, iv1: Seed) -> (r: bool)
        ensures
            r == ranges.spec_contains(ivs_of(iv1)),
    {
        let ivs = self.ivs_at(iv1);
        ranges.contains(&ivs)
    }

    /// Every state of the first IV draw whose six values lie in `iv_ranges`, in
    /// the order the enumeration meets them.
    #[verifier::rlimit(30)]
    pub fn search_seeds_from_ivs(&self, iv_ranges: IVRanges) -> (result: Vec<Seed>)
        requires
            iv_ranges.wf(),
        ensures
            forall|i: int|
                #![trigger result@[i]]
                0 <= i < result@.len() ==> iv_ranges.spec_contains(ivs_of(result@[i])),
            forall|i: int, j: int|
                #![trigger result@[i], result@[j]]
                0 <= i < j < result@.len() ==> search_key(iv_ranges, result@[i]) < search_key(
                    iv_ranges,
                    result@[j],
                ),
            forall|s: u32|
                #![trigger ivs_of(s)]
                iv_ranges.spec_contains(ivs_of(s)) ==> exists|i: int|
                    0 <= i < result@.len() && result@[i] == s,
    {
        let params = SearchParams {
            iv_ranges,
            nature: -1,
            ability: -1,
            hidden_power_type: -1,
            hidden_power_power_min: 0,
            hidden_power_power_max: 255,
            shiny: false,
            tid: 0,
            sid: 0,
            max_advances: 0,
            max_frame_sum: 0,
        };
        let result = self.search_enumerated(params, SearchKind::Ivs);
        assert forall|s: u32|
            #![trigger ivs_of(s)]
            iv_ranges.spec_contains(ivs_of(s)) implies exists|i: int|
                0 <= i < result@.len() && result@[i] == s by {
            assert(search_hit(params, SearchKind::Ivs, s));
        }
        result
    }

    /// The record of the state `iv1` of the first IV draw when it answers the search.
    fn status_at(&self, p: &SearchParams, iv1: Seed) -> (r: Option<ReturnParams>)
        ensures
            r is Some <==> status_hit(*p, iv1),
            r matches Some(record) ==> record == status_record(*p, iv1),
    {
        let iv2 = self.rng_lc.next(iv1);
        let first = self.rng_analyzer.rand_to_iv_group(self.rng_analyzer.extract_rand(iv1));
        let second = self.rng_analyzer.rand_to_iv_group(self.rng_analyzer.extract_rand(iv2));
        let ivs = IVs {
            hp: first[0],
            attack: first[1],
            defense: first[2],
            speed: second[0],
            sp_attack: second[1],
            sp_defense: second[2],
        };
        assert(ivs == ivs_of(iv1));
        if !p.iv_ranges.contains(&ivs) {
            return None;
        }
        let status = self.seed_analyzer.extract_status(iv1, p.tid, p.sid);
        if !status_filters_hold(p, &status) {
            return None;
        }
        let pid_2nd_seed = self.rng_lc.prev(iv1);
        let pid_1st_seed = self.rng_lc.prev(pid_2nd_seed);
        proof {
            reveal_with_fuel(lc_retreat, 3);
        }
        assert(pid_1st_seed == lc_retreat(iv1, 2));
        match self.search_initial_seed(pid_1st_seed, p.max_advances, p.max_frame_sum) {
            Some((initial_seed, advances, time_sum, hour, frame_sum)) => {
                Some(
                    ReturnParams::StatusMatch {
                        initial_seed,
                        ivs: status.ivs,
                        pid: status.pid,
                        nature: status.nature,
                        gender: status.gender,
                        ability: status.ability,
                        hidden_power_type: status.hidden_power_type,
                        hidden_power_power: status.hidden_power_power,
                        advances,
                        time_sum,
                        hour,
                        frame_sum,
                    },
                )
            },
            None => None,
        }
    }

    /// The record of the state `iv1` of the first IV draw when an egg search keeps it.
    fn egg_iv_at(&self, p: &SearchParams, parent_0: &IVs, parent_1: &IVs, iv1: Seed) -> (r: Option<
        ReturnParams,
    >)
        requires
            enumerated_in_range(p.iv_ranges, iv1),
        ensures
            r is Some <==> egg_iv_hit(*p, *parent_0, *parent_1, iv1),
            r matches Some(record) ==> record == egg_iv_record(*p, *parent_0, *parent_1, iv1),
    {
        let iv2 = self.rng_lc.next(iv1);
        let first = self.rng_analyzer.rand_to_iv_group(self.rng_analyzer.extract_rand(iv1));
        let second = self.rng_analyzer.rand_to_iv_group(self.rng_analyzer.extract_rand(iv2));
        let ivs = IVs {
            hp: first[0],
            attack: first[1],
            defense: first[2],
            speed: second[0],
            sp_attack: second[1],
            sp_defense: second[2],
        };
        assert(ivs == ivs_of(iv1));
        let locus_seed_1 = self.rng_lc.next(iv2);
        let locus_seed_2 = self.rng_lc.next(locus_seed_1);
        let locus_seed_3 = self.rng_lc.next(locus_seed_2);
        let parent_seed_1 = self.rng_lc.next(locus_seed_3);
        let parent_seed_2 = self.rng_lc.next(parent_seed_1);
        let parent_seed_3 = self.rng_lc.next(parent_seed_2);
        proof {
            reveal_with_fuel(lc_advance, 8);
        }
        assert(locus_seed_1 == lc_advance(iv1, 2));
        assert(locus_seed_2 == lc_advance(iv1, 3));
        assert(locus_seed_3 == lc_advance(iv1, 4));
        assert(parent_seed_1 == lc_advance(iv1, 5));
        assert(parent_seed_2 == lc_advance(iv1, 6));
        assert(parent_seed_3 == lc_advance(iv1, 7));
        let locus_index_1 = (self.rng_analyzer.extract_rand(locus_seed_1) % 6) as usize;
        let locus_index_2 = (self.rng_analyzer.extract_rand(locus_seed_2) % 5) as usize;
        let locus_index_3 = (self.rng_analyzer.extract_rand(locus_seed_3) % 4) as usize;
        let parent_num_1 = self.rng_analyzer.extract_rand(parent_seed_1) % 2;
        let parent_num_2 = self.rng_analyzer.extract_rand(parent_seed_2) % 2;
        let parent_num_3 = self.rng_analyzer.extract_rand(parent_seed_3) % 2;

        let mut gene_loci: Vec<usize> = vec![0, 1, 2, 3, 4, 5];
        let gene_locus_1 = gene_loci[locus_index_1];
        gene_loci.remove(locus_index_1);
        let gene_locus_2 = gene_loci[locus_index_2];
        gene_loci.remove(locus_index_2);
        let gene_locus_3 = gene_loci[locus_index_3];
        let ghost loci = egg_loci(iv1);
        assert(gene_locus_1 == loci[0] && gene_locus_2 == loci[1] && gene_locus_3 == loci[2]);

        let values_0 = iv_values(parent_0);
        let values_1 = iv_values(parent_1);
        let mut values = iv_values(&ivs);
        let inherited_1 = if parent_num_1 == 0 {
            values_0[gene_locus_1]
        } else {
            values_1[gene_locus_1]
        };
        values.set(gene_locus_1, inherited_1);
        let inherited_2 = if parent_num_2 == 0 {
            values_0[gene_locus_2]
        } else {
            values_1[gene_locus_2]
        };
        values.set(gene_locus_2, inherited_2);
        let inherited_3 = if parent_num_3 == 0 {
            values_0[gene_locus_3]
        } else {
            values_1[gene_locus_3]
        };
        values.set(gene_locus_3, inherited_3);
        let inherited = IVs {
            hp: values[0],
            attack: values[1],
            defense: values[2],
            speed: values[3],
            sp_attack: values[4],
            sp_defense: values[5],
        };
        assert(inherited == inherited_ivs(iv1, *parent_0, *parent_1));
        if !(p.iv_ranges.contains(&ivs) || p.iv_ranges.contains(&inherited)) {
            return None;
        }
        match self.search_initial_seed(iv1, p.max_advances, p.max_frame_sum) {
            Some((initial_seed, advances, time_sum, hour, frame_sum)) => {
                Some(
                    ReturnParams::EggIvMatch {
                        initial_seed,
                        ivs: inherited,
                        advances,
                        time_sum,
                        hour,
                        frame_sum,
                    },
                )
            },
            None => None,
        }
    }

    /// For each time sum from 0 to 255, finds the first hour, frame sum (from 600)
    /// and draw of the egg generator whose personality identifier passes the filters.
    pub fn search_seeds_from_egg_pid(&self, params: SearchParams) -> (result: Vec<ReturnParams>)
        ensures
            forall|i: int|
                #![trigger result@[i]]
                0 <= i < result@.len() ==> {
                    let (t, h, f, k) = egg_pid_place(result@[i]);
                    &&& 0 <= t < 256
                    &&& egg_pid_first(params, t, h, f, k)
                    &&& result@[i] == egg_pid_record(t, h, f, k)
                },
            forall|i: int, j: int|
                #![trigger result@[i], result@[j]]
                0 <= i < j < result@.len() ==> egg_pid_place(result@[i]).0 < egg_pid_place(
                    result@[j],
                ).0,
            forall|t: int, h: int, f: int, k: int|
                #![trigger egg_pid_match(params, t, h, f, k)]
                0 <= t < 256 && egg_pid_match(params, t, h, f, k) ==> exists|i: int|
                    0 <= i < result@.len() && egg_pid_place(result@[i]).0 == t,
    {
        let mut result: Vec<ReturnParams> = Vec::new();
        let mut t: u32 = 0;
        while t < 256
            invariant
                t <= 256,
                forall|i: int|
                    #![trigger result@[i]]
                    0 <= i < result@.len() ==> {
                        let (t1, h, f, k) = egg_pid_place(result@[i]);
                        &&& 0 <= t1 < t
                        &&& egg_pid_first(params, t1, h, f, k)
                        &&& result@[i] == egg_pid_record(t1, h, f, k)
                    },
                forall|i: int, j: int|
                    #![trigger result@[i], result@[j]]
                    0 <= i < j < result@.len() ==> egg_pid_place(result@[i]).0 < egg_pid_place(
                        result@[j],
                    ).0,
                forall|t1: int, h: int, f: int, k: int|
                    #![trigger egg_pid_match(params, t1, h, f, k)]
                    0 <= t1 < t && egg_pid_match(params, t1, h, f, k) ==> exists|i: int|
                        0 <= i < result@.len() && egg_pid_place(result@[i]).0 == t1,
            decreases 256 - t,
        {
            let ghost old_result = result@;
            match self.first_egg_pid(&params, t) {
                Some(record) => {
                    result.push(record);
                    assert forall|t1: int, h: int, f: int, k: int|
                        #![trigger egg_pid_match(params, t1, h, f, k)]
                        0 <= t1 < t + 1 && egg_pid_match(params, t1, h, f, k) implies exists|i: int|
                            0 <= i < result@.len() && egg_pid_place(result@[i]).0 == t1 by {
                        if t1 < t {
                            let i = choose|i: int|
                                0 <= i < old_result.len() && egg_pid_place(old_result[i]).0 == t1;
                            assert(result@[i] == old_result[i]);
                        } else {
                            assert(result@[old_result.len() as int] == record);
                        }
                    }
                    assert forall|i: int, j: int|
                        #![trigger result@[i], result@[j]]
                        0 <= i < j < result@.len() implies egg_pid_place(result@[i]).0
                            < egg_pid_place(result@[j]).0 by {
                        assert(result@[i] == old_result[i]);
                        if j < old_result.len() {
                            assert(result@[j] == old_result[j]);
                        }
                    }
                    assert forall|i: int|
                        #![trigger result@[i]]
                        0 <= i < result@.len() implies {
                            let (t1, h, f, k) = egg_pid_place(result@[i]);
                            &&& 0 <= t1 < t + 1
                            &&& egg_pid_first(params, t1, h, f, k)
                            &&& result@[i] == egg_pid_record(t1, h, f, k)
                        } by {
                        if i < old_result.len() {
                            assert(result@[i] == old_result[i]);
                        }
                    }
                },
                None => {},
            }
            t = t + 1;
        }
        result
    }

    /// The first match of the egg search for time sum `t`, if there is one.
    fn first_egg_pid(&self, p: &SearchParams, t: u32) -> (r: Option<ReturnParams>)
        requires
            t < 256,
        ensures
            r matches Some(record) ==> {
                let (t1, h, f, k) = egg_pid_place(record);
                &&& t1 == t
                &&& egg_pid_first(*p, t1, h, f, k)
                &&& record == egg_pid_record(t1, h, f, k)
            },
            r is None ==> forall|h: int, f: int, k: int|
                #![trigger egg_pid_match(*p, t as int, h, f, k)]
                !egg_pid_match(*p, t as int, h, f, k),
    {
        let mut h: u32 = 0;
        while h < 24
            invariant
                h <= 24,
                t < 256,
                forall|h2: int, f2: int, k2: int|
                    #![trigger egg_pid_match(*p, t as int, h2, f2, k2)]
                    h2 < h ==> !egg_pid_match(*p, t as int, h2, f2, k2),
            decreases 24 - h,
        {
            let mut f: u32 = 600;
            while f <= p.max_frame_sum as u32
                invariant
                    h < 24,
                    t < 256,
                    600 <= f <= 0x1_0000,
                    forall|h2: int, f2: int, k2: int|
                        #![trigger egg_pid_match(*p, t as int, h2, f2, k2)]
                        h2 < h ==> !egg_pid_match(*p, t as int, h2, f2, k2),
                    forall|f2: int, k2: int|
                        #![trigger egg_pid_match(*p, t as int, h as int, f2, k2)]
                        f2 < f ==> !egg_pid_match(*p, t as int, h as int, f2, k2),
                decreases 0x1_0000 - f,
            {
                let seed: u32 = t * 0x100_0000 + h * 0x1_0000 + f;
                assert(seed == compose_seed(t as int, h as int, f as int));
                let mut rng = RngMT::new(seed);
                let mut k: u32 = 0;
                while k <= p.max_advances as u32
                    invariant
                        h < 24,
                        t < 256,
                        600 <= f <= p.max_frame_sum,
                        seed == compose_seed(t as int, h as int, f as int),
                        rng.wf(),
                        rng.state() == mt_state_after(seed, k as nat),
                        forall|h2: int, f2: int, k2: int|
                            #![trigger egg_pid_match(*p, t as int, h2, f2, k2)]
                            h2 < h ==> !egg_pid_match(*p, t as int, h2, f2, k2),
                        forall|f2: int, k2: int|
                            #![trigger egg_pid_match(*p, t as int, h as int, f2, k2)]
                            f2 < f ==> !egg_pid_match(*p, t as int, h as int, f2, k2),
                        forall|k2: int|
                            #![trigger egg_pid_match(*p, t as int, h as int, f as int, k2)]
                            k2 < k ==> !egg_pid_match(*p, t as int, h as int, f as int, k2),
                    decreases p.max_advances as u32 + 1 - k,
                {
                    let word = rng.next();
                    let pid = rng.get_pid(word);
                    assert(pid == mt_pid(seed, k as nat));
                    let nature = (pid % 25) as i16;
                    let ability = (pid % 2) as i16;
                    let shiny = is_shiny(pid, p.tid, p.sid);
                    if (p.nature == -1 || p.nature == nature) && (p.ability == -1 || p.ability
                        == ability) && (!p.shiny || shiny) {
                        let record = ReturnParams::EggPidMatch {
                            initial_seed: seed,
                            pid,
                            nature: nature as u8,
                            gender: (pid % 0x100) as u8,
                            ability: ability as u8,
                            advances: k as u16,
                            time_sum: t as u16,
                            hour: h as u16,
                            frame_sum: f as u16,
                        };
                        assert(egg_pid_match(*p, t as int, h as int, f as int, k as int));
                        assert(record == egg_pid_record(t as int, h as int, f as int, k as int));
                        return Some(record);
                    }
                    k = k + 1;
                }
                f = f + 1;
            }
            h = h + 1;
        }
        None
    }

    /// Steps back once from `seed`, then walks back to the nearest feasible
    /// initial seed; the count given leaves out the first step.
    pub fn search_initial_seed(&self, seed: Seed, max_advances: u16, max_frame_sum: u16) -> (r:
        Option<(InitialSeed, u16, u16, u16, u16)>)
        ensures
            r == resolve_initial_seed(seed, max_advances, max_frame_sum),
    {
        let mut current: u32 = self.rng_lc.prev(seed);
        let mut advances: u32 = 0;
        assert(lc_retreat(seed, 1) == lc_prev(lc_retreat(seed, 0)));
        while advances <= max_advances as u32
            invariant
                advances <= max_advances as u32 + 1,
                current == lc_retreat(seed, advances as nat + 1),
                first_feasible_from(seed, 0, max_advances as nat, max_frame_sum)
                    == first_feasible_from(
                    seed,
                    advances as nat,
                    max_advances as nat,
                    max_frame_sum,
                ),
            decreases max_advances as u32 + 1 - advances,
        {
            let time_sum: u16 = ((current >> 24) & 0xff) as u16;
            let hour: u16 = ((current >> 16) & 0xff) as u16;
            let frame_sum: u16 = (current & 0xffff) as u16;
            assert((current >> 24) & 0xff == current / 0x100_0000) by (bit_vector);
            assert((current >> 16) & 0xff == (current / 0x1_0000) % 0x100) by (bit_vector);
            assert(current & 0xffff == current % 0x1_0000) by (bit_vector);
            if time_sum <= 490 && hour < 24 && 600 <= frame_sum && frame_sum as u32
                <= max_frame_sum as u32 + 99 {
                return Some((current, advances as u16, time_sum, hour, frame_sum));
            }
            current = self.rng_lc.prev(current);
            advances = advances + 1;
        }
        None
    }
}

} // verus!
