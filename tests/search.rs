use potanist::potanist::Potanist;
use potanist::rng_lc::RngLC;
use potanist::seed_analyzer::{
    extract_hidden_power_power, extract_hidden_power_type, is_shiny, SeedAnalyzer,
};
use potanist::seed_finder::SeedFinder;
use potanist::seed_searcher::{ReturnParams, SearchParams, SeedSearcher};
use potanist::types::{IVRange, IVRanges, IVs, PokemonData};

fn fixed_ranges(v: u8) -> IVRanges {
    IVRanges::new(
        IVRange::new(v, v),
        IVRange::new(v, v),
        IVRange::new(v, v),
        IVRange::new(v, v),
        IVRange::new(v, v),
        IVRange::new(v, v),
    )
}

fn any_params(iv_ranges: IVRanges) -> SearchParams {
    SearchParams {
        iv_ranges,
        nature: -1,
        ability: -1,
        hidden_power_type: -1,
        hidden_power_power_min: 30,
        hidden_power_power_max: 70,
        shiny: false,
        tid: 0,
        sid: 0,
        max_advances: 60000,
        max_frame_sum: 1000,
    }
}

fn advance(s: u32, n: u32) -> u32 {
    let rng = RngLC::new();
    let mut x = s;
    for _ in 0..n {
        x = rng.next(x);
    }
    x
}

#[test]
fn status_search_all_best_values() {
    let searcher = SeedSearcher::new();
    let params = any_params(fixed_ranges(31));
    let results = searcher.search_seeds_from_status(params);
    assert!(!results.is_empty());
    let analyzer = SeedAnalyzer::new();
    for r in results {
        match r {
            ReturnParams::StatusMatch { initial_seed, ivs, pid, advances, time_sum, hour, frame_sum, nature, .. } => {
                let iv1 = advance(initial_seed, advances as u32 + 3);
                let status = analyzer.extract_status(iv1, 0, 0);
                assert_eq!(status.ivs, IVs::new(31, 31, 31, 31, 31, 31));
                assert_eq!(ivs, status.ivs);
                assert_eq!(pid, status.pid);
                assert_eq!(nature, status.nature);
                assert_eq!(time_sum as u32, initial_seed >> 24);
                assert_eq!(hour as u32, (initial_seed >> 16) & 0xff);
                assert_eq!(frame_sum as u32, initial_seed & 0xffff);
                assert!(hour < 24);
                assert!(600 <= frame_sum && frame_sum <= 1099);
            }
            _ => panic!("a status search gives status matches"),
        }
    }
}

#[test]
fn status_search_with_nature_filter() {
    let searcher = SeedSearcher::new();
    let mut params = any_params(fixed_ranges(31));
    params.iv_ranges.sp_defense = IVRange::new(30, 31);
    params.nature = 3;
    let results = searcher.search_seeds_from_status(params);
    for r in results {
        match r {
            ReturnParams::StatusMatch { nature, pid, .. } => {
                assert_eq!(nature, 3);
                assert_eq!(pid % 25, 3);
            }
            _ => panic!("a status search gives status matches"),
        }
    }
}

#[test]
fn empty_range_finds_nothing() {
    let searcher = SeedSearcher::new();
    let mut ranges = fixed_ranges(31);
    ranges.attack = IVRange::new(5, 4);
    assert!(searcher.search_seeds_from_status(any_params(ranges)).is_empty());
}

#[test]
fn initial_seed_resolver_known_decomposition() {
    let searcher = SeedSearcher::new();
    // 0x36bd3781 is three steps after 0x640c02bc; the first step back is not counted.
    assert_eq!(
        searcher.search_initial_seed(0x36bd3781, 3, 700),
        Some((0x640c02bc, 2, 100, 12, 700))
    );
    assert_eq!(searcher.search_initial_seed(0x36bd3781, 1, 700), None);
    assert_eq!(searcher.search_initial_seed(0x1b5ad27f, 0, 700), Some((0x640c02bc, 0, 100, 12, 700)));
    assert_eq!(searcher.search_initial_seed(0x1b5ad27f, 0, 500), None);
    assert_eq!(searcher.search_initial_seed(0x640c02bc, 0, 700), None);
}

#[test]
fn status_derivation_by_hand() {
    let analyzer = SeedAnalyzer::new();
    let rng = RngLC::new();
    let iv1: u32 = 0x36bd3781;
    let pid2 = rng.prev(iv1);
    let pid1 = rng.prev(pid2);
    let iv2 = rng.next(iv1);
    let pid = ((pid2 >> 16) << 16) | (pid1 >> 16);
    let st = analyzer.extract_status(iv1, 12345, 54321);
    assert_eq!(st.pid, pid);
    assert_eq!(st.nature as u32, pid % 25);
    assert_eq!(st.gender as u32, pid & 0xff);
    assert_eq!(st.ability as u32, pid & 1);
    let a = iv1 >> 16;
    let b = iv2 >> 16;
    assert_eq!(st.ivs.hp as u32, a & 31);
    assert_eq!(st.ivs.attack as u32, (a >> 5) & 31);
    assert_eq!(st.ivs.defense as u32, (a >> 10) & 31);
    assert_eq!(st.ivs.speed as u32, b & 31);
    assert_eq!(st.ivs.sp_attack as u32, (b >> 5) & 31);
    assert_eq!(st.ivs.sp_defense as u32, (b >> 10) & 31);
}

#[test]
fn traits_follow_the_pid() {
    let mut pid: u32 = 0x9e3779b9;
    for _ in 0..10000 {
        let shiny = is_shiny(pid, 1234, 5678);
        let expected = ((1234u32 ^ 5678u32) ^ ((pid >> 16) ^ (pid & 0xffff))) <= 7;
        assert_eq!(shiny, expected);
        assert_eq!(is_shiny(pid, 1234, 5678), shiny);
        pid = pid.wrapping_mul(1664525).wrapping_add(1013904223);
    }
    assert!(is_shiny(0x00000000, 0, 0));
    assert!(is_shiny(0x00070000, 0, 0));
    assert!(!is_shiny(0x00080000, 0, 0));
}

#[test]
fn hidden_power_formulas() {
    let all_odd = IVs::new(31, 31, 31, 31, 31, 31);
    assert_eq!(extract_hidden_power_type(&all_odd), 15);
    assert_eq!(extract_hidden_power_power(&all_odd), 70);
    let all_even = IVs::new(30, 30, 30, 30, 30, 30);
    assert_eq!(extract_hidden_power_type(&all_even), 0);
    assert_eq!(extract_hidden_power_power(&all_even), 30);
    let mixed = IVs::new(1, 0, 1, 0, 0, 0);
    assert_eq!(extract_hidden_power_type(&mixed), (5 * 15 / 63) as u8);
    assert_eq!(extract_hidden_power_power(&mixed), (5 * 40 / 63 + 30) as u8);
}

#[test]
fn egg_iv_search_keeps_drawn_or_inherited() {
    let searcher = SeedSearcher::new();
    let mut ranges = fixed_ranges(31);
    ranges.hp = IVRange::new(0, 31);
    let params = any_params(ranges);
    let parent = IVs::new(31, 31, 31, 31, 31, 31);
    let results = searcher.search_seeds_from_egg_iv(params, parent, parent);
    assert!(!results.is_empty());
    for r in results {
        match r {
            ReturnParams::EggIvMatch { initial_seed, advances, ivs, .. } => {
                let iv1 = advance(initial_seed, advances as u32 + 1);
                let analyzer = SeedAnalyzer::new();
                let drawn = analyzer.extract_status(iv1, 0, 0).ivs;
                let drawn_ok = drawn.attack == 31 && drawn.defense == 31 && drawn.speed == 31
                    && drawn.sp_attack == 31 && drawn.sp_defense == 31;
                let inherited_ok = ivs.attack == 31 && ivs.defense == 31 && ivs.speed == 31
                    && ivs.sp_attack == 31 && ivs.sp_defense == 31;
                assert!(drawn_ok || inherited_ok);
            }
            _ => panic!("an egg search gives egg matches"),
        }
    }
}

#[test]
fn egg_pid_search_small_window() {
    let searcher = SeedSearcher::new();
    let mut params = any_params(fixed_ranges(0));
    params.nature = 3;
    params.ability = 0;
    params.shiny = true;
    params.max_advances = 50;
    params.max_frame_sum = 620;
    let results = searcher.search_seeds_from_egg_pid(params);
    assert!(!results.is_empty());
    let mut last_time_sum: i32 = -1;
    for r in results {
        match r {
            ReturnParams::EggPidMatch { initial_seed, pid, nature, ability, time_sum, hour, frame_sum, advances, .. } => {
                assert_eq!(nature, 3);
                assert_eq!(ability, 0);
                assert!(is_shiny(pid, 0, 0));
                assert!((time_sum as i32) > last_time_sum);
                last_time_sum = time_sum as i32;
                assert!(hour < 24 && 600 <= frame_sum && frame_sum <= 620 && advances <= 50);
                assert_eq!(initial_seed, ((time_sum as u32) << 24) | ((hour as u32) << 16) | frame_sum as u32);
                let mut mt = potanist::rng_mt::RngMT::new(initial_seed);
                let mut w = 0;
                for _ in 0..=advances {
                    w = mt.next();
                }
                assert_eq!(mt.get_pid(w), pid);
            }
            _ => panic!("an egg search gives egg matches"),
        }
    }
}

#[test]
fn seed_finder_by_ivs_and_pid() {
    let finder = SeedFinder::new();
    let seeds = finder.find_seed_from_iv_ranges(fixed_ranges(31));
    assert!(!seeds.is_empty());
    let analyzer = SeedAnalyzer::new();
    for s in &seeds {
        assert_eq!(analyzer.extract_status(*s, 0, 0).ivs, IVs::new(31, 31, 31, 31, 31, 31));
    }
    let potanist = Potanist::new();
    assert_eq!(potanist.find_seed_from_ivs(fixed_ranges(31)), seeds);

    let rng = RngLC::new();
    let first = 0x1234abcd_u32;
    let pid = ((rng.next(first) >> 16) << 16) | (first >> 16);
    let found = finder.find_seed_from_pid(pid);
    assert!(found.contains(&first));
    for s in &found {
        assert_eq!(*s >> 16, pid & 0xffff);
        assert_eq!(rng.next(*s) >> 16, pid >> 16);
    }
    assert_eq!(potanist.find_seed_from_pid(pid), found);
}

#[test]
fn boot_time_walkers() {
    let finder = SeedFinder::new();
    assert_eq!(finder.find_seed_from_boot_time(0x36bd3781, 10, 1000), Some(0x640c02bc));
    assert_eq!(finder.find_seed_from_boot_time(0x36bd3781, 0, 1000), None);
    assert_eq!(finder.find_seed_from_boot_time(0x36bd3781, 3, 1000), None);
    let potanist = Potanist::new();
    assert_eq!(
        potanist.find_seed_from_boot_time(0x36bd3781, 10, 1000),
        Some((0x640c02bc, 3, 100, Some(356), 12, 700))
    );
    assert_eq!(potanist.find_seed_from_boot_time(0x36bd3781, 3, 1000), None);
}

#[test]
fn pokemon_data_holds_its_fields() {
    let ivs = IVs::new(1, 2, 3, 4, 5, 6);
    let d = PokemonData::new(1, 200, 7, 55, ivs, 12, 0xdeadbeef);
    assert_eq!(d.ivs.sp_defense, 6);
    assert_eq!(d.gender, 200);
    assert_eq!(d.pid, 0xdeadbeef);
}
