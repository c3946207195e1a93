use potanist::rng_lc::RngLC;
use potanist::rng_mt::RngMT;
use potanist::seed_checker::SeedChecker;

const JOHTO: [u8; 16] = [29, 30, 31, 32, 33, 34, 35, 36, 37, 38, 39, 42, 43, 44, 45, 46];
const KANTO: [u8; 25] = [
    1, 2, 3, 4, 5, 6, 7, 8, 9, 10, 11, 12, 13, 14, 15, 16, 17, 18, 21, 22, 24, 25, 26, 27, 28,
];

#[test]
fn call_responses_follow_the_draws() {
    let checker = SeedChecker::new();
    let map = checker.create_call_response_sequence_map(0x12345678, 2, 0);
    assert_eq!(map.len(), 1);
    assert_eq!(map[&0x12345678], vec![1, 0, 2, 0, 2, 0, 2, 2, 2, 2]);

    let rng = RngLC::new();
    let mut s: u32 = 0x12345678;
    for _ in 0..2 {
        s = rng.next(s);
    }
    let mut expected = Vec::new();
    for _ in 0..10 {
        s = rng.next(s);
        expected.push(((s >> 16) % 3) as u8);
    }
    assert_eq!(map[&0x12345678], expected);
}

#[test]
fn call_response_window_is_clamped() {
    let checker = SeedChecker::new();
    let low = checker.create_call_response_sequence_map(1, 0, 3);
    assert_eq!(low.len(), 5);
    for s in 0..=4u32 {
        assert!(low.contains_key(&s));
    }
    let high = checker.create_call_response_sequence_map(u32::MAX, 1, 2);
    assert_eq!(high.len(), 3);
    assert!(high.contains_key(&u32::MAX));
    assert!(high[&(u32::MAX - 2)].iter().all(|r| *r < 3));
}

#[test]
fn roamers_with_two_enabled() {
    let checker = SeedChecker::new();
    let map = checker.create_roamers_location_map(0x12345678, [true, false, true], 3);
    assert_eq!(map.len(), 7);
    for (_, (routes, mask)) in map.iter() {
        assert_eq!(routes.len(), 2);
        assert!(JOHTO.contains(&routes[0]));
        assert!(KANTO.contains(&routes[1]));
        assert_eq!(*mask, [true, false, true]);
    }
    assert_eq!(map[&0x12345678].0, vec![30, 2]);
}

#[test]
fn roamers_with_none_enabled() {
    let checker = SeedChecker::new();
    let map = checker.create_roamers_location_map(0x12345678, [false, false, false], 3);
    assert!(map.is_empty());
}

#[test]
fn coin_flips_follow_the_egg_generator() {
    let checker = SeedChecker::new();
    let map = checker.create_coin_flip_result_map(0x78000489, 1);
    assert_eq!(map.len(), 3);
    let flips = &map[&0x78000489];
    let expected = [true, false, true, false, false, true, false, false, false, false];
    assert_eq!(flips.as_slice(), &expected);
    let mut mt = RngMT::new(0x78000488);
    let mut others = Vec::new();
    for _ in 0..10 {
        let w = mt.next();
        others.push(mt.get_pid(w) % 2 == 1);
    }
    assert_eq!(map[&0x78000488], others);
}
