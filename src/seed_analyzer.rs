use crate::rand_analyzer::{unpack_ivs, RandAnalyzer};
use crate::rng_lc::{draw, lc_next, lc_prev, RngLC};
use crate::search_spec::compose_seed;
use crate::seed_searcher::{seed_frame_sum, seed_hour, seed_time_sum};
use crate::time_sum_map::{
    boot_entry_ok, boot_list_for_year, boot_list_ok, boot_qualifies, entry_moment, time_sum_map_wf,
    time_sum_of, waiting_time, BootEntry, BootTime, TimeSumMap,
};
use crate::types::{InitialSeed, IVs, Pid, Rand, Seed, Status};
use std::collections::HashMap;
use vstd::arithmetic::div_mod::lemma_fundamental_div_mod_converse;
use vstd::prelude::*;

verus! {

/// The personality identifier made by the two draws before the first IV draw,
/// the later one in the high half.
pub open spec fn pid_of(iv1: u32) -> u32 {
    (draw(lc_prev(iv1)) as int * 0x10000 + draw(lc_prev(lc_prev(iv1))) as int) as u32
}

/// The six individual values made by the draw of `iv1` and the one after it.
pub open spec fn ivs_of(iv1: u32) -> IVs {
    let first = unpack_ivs(draw(iv1));
    let second = unpack_ivs(draw(lc_next(iv1)));
    IVs {
        hp: first[0],
        attack: first[1],
        defense: first[2],
        speed: second[0],
        sp_attack: second[1],
        sp_defense: second[2],
    }
}

/// Whether a personality identifier is shiny for a trainer.
pub open spec fn shiny_spec(pid: u32, tid: u16, sid: u16) -> bool {
    ((tid ^ sid) as u32 ^ ((pid >> 16u32) ^ (pid & 0xffffu32))) <= 7
}

/// The parity bits of the six values, weighted 1, 2, 4, 8, 16, 32.
pub open spec fn hidden_power_sum(ivs: IVs) -> int {
    (ivs.hp % 2) as int + 2 * (ivs.attack % 2) as int + 4 * (ivs.defense % 2) as int + 8 * (
    ivs.speed % 2) as int + 16 * (ivs.sp_attack % 2) as int + 32 * (ivs.sp_defense % 2) as int
}

pub open spec fn hidden_power_type_spec(ivs: IVs) -> u8 {
    (hidden_power_sum(ivs) * 15 / 63) as u8
}

pub open spec fn hidden_power_power_spec(ivs: IVs) -> u8 {
    (hidden_power_sum(ivs) * 40 / 63 + 30) as u8
}

/// The status of the creature whose first IV draw comes from state `iv1`.
pub open spec fn status_of(iv1: u32, tid: u16, sid: u16) -> Status {
    let pid = pid_of(iv1);
    let ivs = ivs_of(iv1);
    Status {
        ivs,
        gender: (pid % 0x100) as u8,
        nature: (pid % 25) as u8,
        ability: (pid % 2) as u8,
        shiny: shiny_spec(pid, tid, sid),
        hidden_power_type: hidden_power_type_spec(ivs),
        hidden_power_power: hidden_power_power_spec(ivs),
        pid,
    }
}

/// Derives a creature's status from generator states.
pub struct SeedAnalyzer {
    rng_analyzer: RandAnalyzer,
    rng_lc: RngLC,
}

impl SeedAnalyzer {
    pub fn new() -> Self {
        SeedAnalyzer { rng_analyzer: RandAnalyzer::new(), rng_lc: RngLC::new() }
    }

    /// For each year from 2000 to 2099, the days on which booting at hour
    /// `hour` gives `initial_seed`, each with its earliest qualifying moment;
    /// nothing when the seed's hour is not below 24.
    pub fn create_boot_time_map(
        &self,
        initial_seed: InitialSeed,
        blank_frame: u16,
        time_sum_map: &TimeSumMap,
    ) -> (r: Option<HashMap<u16, Vec<BootEntry>>>)
        requires
            time_sum_map_wf(time_sum_map@),
        ensures
            r is None <==> seed_hour(initial_seed) >= 24,
            r matches Some(m) ==> forall|year: u16|
                #![trigger m@.contains_key(year)]
                m@.contains_key(year) <==> boot_year_listed(initial_seed, blank_frame, year),
            r matches Some(m) ==> forall|year: u16|
                #![trigger m@[year]]
                m@.contains_key(year) ==> boot_list_ok(
                    seed_time_sum(initial_seed) as int,
                    seed_hour(initial_seed) as int,
                    waiting_time(
                        seed_frame_sum(initial_seed) as int,
                        year - 2000,
                        blank_frame as int,
                    ),
                    m@[year]@,
                ),
    {
        assert((initial_seed >> 24) & 0xff == initial_seed / 0x100_0000) by (bit_vector);
        assert((initial_seed >> 16) & 0xff == (initial_seed / 0x1_0000) % 0x100) by (bit_vector);
        assert(initial_seed & 0xffff == initial_seed % 0x1_0000) by (bit_vector);
        let hour = ((initial_seed >> 16) & 0xff) as u8;
        if hour >= 24 {
            return None;
        }
        let time_sum = ((initial_seed >> 24) & 0xff) as u16;
        let frame_sum = (initial_seed & 0xffff) as u32;
        let mut boot_time_map: HashMap<u16, Vec<BootEntry>> = HashMap::new();
        let mut year: u32 = 0;
        while year <= 99
            invariant
                year <= 100,
                hour as int == seed_hour(initial_seed),
                time_sum as int == seed_time_sum(initial_seed),
                frame_sum as int == seed_frame_sum(initial_seed),
                time_sum < 256,
                time_sum_map_wf(time_sum_map@),
                forall|y: u16|
                    #![trigger boot_time_map@.contains_key(y)]
                    boot_time_map@.contains_key(y) <==> (y < 2000 + year && boot_year_listed(
                        initial_seed,
                        blank_frame,
                        y,
                    )),
                forall|y: u16|
                    #![trigger boot_time_map@[y]]
                    boot_time_map@.contains_key(y) ==> boot_list_ok(
                        seed_time_sum(initial_seed) as int,
                        seed_hour(initial_seed) as int,
                        waiting_time(
                            seed_frame_sum(initial_seed) as int,
                            y - 2000,
                            blank_frame as int,
                        ),
                        boot_time_map@[y]@,
                    ),
            decreases 100 - year,
        {
            let key = (2000 + year) as u16;
            let ghost old_map = boot_time_map@;
            if year <= frame_sum {
                let waiting = (frame_sum - year + blank_frame as u32) / 60;
                assert(waiting as int == waiting_time(
                    seed_frame_sum(initial_seed) as int,
                    key - 2000,
                    blank_frame as int,
                ));
                let list = boot_list_for_year(time_sum_map, time_sum, hour, waiting);
                if list.len() > 0 {
                    assert(boot_qualifies(
                        entry_moment(list@[0]),
                        time_sum as int,
                        waiting as int,
                    ));
                    boot_time_map.insert(key, list);
                } else {
                    assert forall|q: BootTime|
                        #![trigger boot_qualifies(q, time_sum as int, waiting as int)]
                        !boot_qualifies(q, time_sum as int, waiting as int) by {
                        if boot_qualifies(q, time_sum as int, waiting as int) {
                            assert(exists|i: int|
                                0 <= i < list@.len() && list@[i].0.0 == q.0 && list@[i].0.1
                                    == q.1);
                        }
                    }
                    assert(!boot_year_listed(initial_seed, blank_frame, key));
                }
            } else {
                assert(!boot_year_listed(initial_seed, blank_frame, key));
            }
            assert forall|y: u16|
                #![trigger boot_time_map@.contains_key(y)]
                boot_time_map@.contains_key(y) <==> (y < 2000 + year + 1 && boot_year_listed(
                    initial_seed,
                    blank_frame,
                    y,
                )) by {
                if y != key {
                    assert(boot_time_map@.contains_key(y) == old_map.contains_key(y));
                }
            }
            year = year + 1;
        }
        Some(boot_time_map)
    }

    pub fn extract_status(&self, iv_1st_seed: Seed, tid: Rand, sid: Rand) -> (r: Status)
        ensures
            r == status_of(iv_1st_seed, tid, sid),
    {
        let pid_2nd_seed = self.rng_lc.prev(iv_1st_seed);
        let pid_1st_seed = self.rng_lc.prev(pid_2nd_seed);
        let iv_2nd_seed = self.rng_lc.next(iv_1st_seed);

        let pid_1st_rand = self.rng_analyzer.extract_rand(pid_1st_seed);
        let pid_2nd_rand = self.rng_analyzer.extract_rand(pid_2nd_seed);
        let iv_1st_rand = self.rng_analyzer.extract_rand(iv_1st_seed);
        let iv_2nd_rand = self.rng_analyzer.extract_rand(iv_2nd_seed);
        let pid: Pid = self.rng_analyzer.rands_to_seed(pid_2nd_rand, pid_1st_rand);

        let ivs_1st = self.rng_analyzer.rand_to_iv_group(iv_1st_rand);
        let ivs_2nd = self.rng_analyzer.rand_to_iv_group(iv_2nd_rand);
        assert(pid & 0xff == pid % 0x100) by (bit_vector);
        assert(pid & 1 == pid % 2) by (bit_vector);
        let nature_num = (pid % 25) as u8;
        let gender_num = (pid & 0xff) as u8;
        let ability_num = (pid & 1) as u8;
        let shiny = is_shiny(pid, tid, sid);

        let ivs = IVs {
            hp: ivs_1st[0],
            attack: ivs_1st[1],
            defense: ivs_1st[2],
            speed: ivs_2nd[0],
            sp_attack: ivs_2nd[1],
            sp_defense: ivs_2nd[2],
        };

        let hidden_power_type = extract_hidden_power_type(&ivs);
        let hidden_power_power = extract_hidden_power_power(&ivs);

        Status {
            ivs,
            gender: gender_num,
            nature: nature_num,
            ability: ability_num,
            shiny,
            hidden_power_type,
            hidden_power_power,
            pid,
        }
    }
}

/// Shininess, nature, ability and gender depend on the personality identifier
/// and the trainer's ids alone.
pub proof fn lemma_traits_follow_pid(iv1_a: u32, iv1_b: u32, tid: u16, sid: u16)
    requires
        pid_of(iv1_a) == pid_of(iv1_b),
    ensures
        status_of(iv1_a, tid, sid).shiny == status_of(iv1_b, tid, sid).shiny,
        status_of(iv1_a, tid, sid).nature == status_of(iv1_b, tid, sid).nature,
        status_of(iv1_a, tid, sid).ability == status_of(iv1_b, tid, sid).ability,
        status_of(iv1_a, tid, sid).gender == status_of(iv1_b, tid, sid).gender,
{
}

/// Whether year `year` (2000 to 2099) has a boot list for `initial_seed`: its
/// offset fits in the frame sum and some moment qualifies.
pub open spec fn boot_year_listed(initial_seed: u32, blank_frame: u16, year: u16) -> bool {
    let fs = seed_frame_sum(initial_seed) as int;
    &&& 2000 <= year <= 2099
    &&& year - 2000 <= fs
    &&& exists|q: BootTime|
        #[trigger] boot_qualifies(
            q,
            seed_time_sum(initial_seed) as int,
            waiting_time(fs, year - 2000, blank_frame as int),
        )
}

/// Every boot moment that a boot list gives leads back to the initial seed: its
/// time sum modulo 256, the hour and the frames plus the year offset make the seed.
pub proof fn lemma_boot_time_reproduces_seed(
    initial_seed: u32,
    blank_frame: u16,
    y: int,
    e: BootEntry,
)
    requires
        seed_hour(initial_seed) < 24,
        0 <= y <= seed_frame_sum(initial_seed),
        boot_entry_ok(
            seed_time_sum(initial_seed) as int,
            seed_hour(initial_seed) as int,
            waiting_time(seed_frame_sum(initial_seed) as int, y, blank_frame as int),
            e,
        ),
    ensures
        compose_seed(
            time_sum_of(entry_moment(e)) % 256,
            e.1.0 as int,
            (seed_frame_sum(initial_seed) - y) + y,
        ) == initial_seed,
{
    let s = initial_seed as int;
    lemma_fundamental_div_mod_converse(s, 0x1_0000, s / 0x1_0000, s % 0x1_0000);
    lemma_fundamental_div_mod_converse(s / 0x1_0000, 0x100, s / 0x100_0000, (s / 0x1_0000) % 0x100);
    vstd::arithmetic::div_mod::lemma_div_denominator(s, 0x1_0000, 0x100);
}

pub fn is_shiny(pid: Pid, tid: Rand, sid: Rand) -> (r: bool)
    ensures
        r == shiny_spec(pid, tid, sid),
{
    let tsid_xor: u32 = (tid ^ sid) as u32;
    let pid_xor: u32 = (pid >> 16) ^ (pid & 0xffff);
    (tsid_xor ^ pid_xor) <= 7
}

fn parity_sum(ivs: &IVs) -> (r: u16)
    ensures
        r == hidden_power_sum(*ivs),
        r <= 63,
{
    let hp: u16 = if ivs.hp % 2 == 0 { 0 } else { 1 };
    let attack: u16 = if ivs.attack % 2 == 0 { 0 } else { 2 };
    let defense: u16 = if ivs.defense % 2 == 0 { 0 } else { 4 };
    let speed: u16 = if ivs.speed % 2 == 0 { 0 } else { 8 };
    let sp_attack: u16 = if ivs.sp_attack % 2 == 0 { 0 } else { 16 };
    let sp_defense: u16 = if ivs.sp_defense % 2 == 0 { 0 } else { 32 };
    hp + attack + defense + speed + sp_attack + sp_defense
}

pub fn extract_hidden_power_type(ivs: &IVs) -> (r: u8)
    ensures
        r == hidden_power_type_spec(*ivs),
        r <= 15,
{
    let sum: u16 = parity_sum(ivs);
    (sum * 15 / 63) as u8
}

pub fn extract_hidden_power_power(ivs: &IVs) -> (r: u8)
    ensures
        r == hidden_power_power_spec(*ivs),
        30 <= r <= 70,
{
    let sum: u16 = parity_sum(ivs);
    (sum * 40 / 63 + 30) as u8
}

} // verus!
