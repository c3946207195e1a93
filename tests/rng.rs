use potanist::lcrng::LCRng;
use potanist::potanist::Potanist;
use potanist::rand_analyzer::RandAnalyzer;
use potanist::rng_lc::RngLC;
use potanist::rng_mt::RngMT;

#[test]
fn get_pid_test() {
    let initial_seed = 0x78000489;
    let mut mt = RngMT::new(initial_seed);
    let mut arr: [u8; 20] = [0u8; 20];
    let answer: [u8; 20] = [1, 0, 1, 0, 0, 1, 0, 0, 0, 0, 1, 1, 1, 1, 0, 0, 0, 1, 0, 1];

    for i in 0..20 {
        let next_seed = mt.next();
        let pid = mt.get_pid(next_seed);
        arr[i] = (pid % 2 == 1) as u8;
    }

    assert!(arr == answer);
}

#[test]
fn lcg_advance_from_zero() {
    let rng = RngLC::new();
    assert_eq!(rng.next(0x00000000), 0x00006073);
    assert_eq!(rng.prev(0x00006073), 0x00000000);
}

#[test]
fn lcg_round_trip_on_many_seeds() {
    let rng = RngLC::new();
    let mut s: u32 = 0x12345678;
    for _ in 0..10000 {
        assert_eq!(rng.prev(rng.next(s)), s);
        assert_eq!(rng.next(rng.prev(s)), s);
        s = s.wrapping_mul(2654435761).wrapping_add(12345);
    }
    assert_eq!(rng.prev(rng.next(u32::MAX)), u32::MAX);
    assert_eq!(rng.next(rng.prev(0)), 0);
}

#[test]
fn lcg_known_steps() {
    let rng = RngLC::new();
    assert_eq!(rng.next(1), 0x41c6_4e6d_u32.wrapping_add(0x6073));
    assert_eq!(rng.next(0x640c02bc), 0x1b5ad27f);
    let lc = LCRng::new();
    assert_eq!(lc.next(0x1b5ad27f), 0x5f08b286);
    assert_eq!(lc.prev(0x5f08b286), 0x1b5ad27f);
    assert_eq!(lc.extract_rand(0x5f08b286), 0x5f08);
}

#[test]
fn draw_codec_all_ones() {
    let ra = RandAnalyzer::new();
    assert_eq!(ra.iv_group_to_rand([31, 31, 31]), 0x7fff);
    assert_eq!(ra.rand_to_iv_group(0x7fff), [31, 31, 31]);
    assert_eq!(ra.rand_to_iv_group(0xffff), [31, 31, 31]);
}

#[test]
fn draw_codec_round_trip() {
    let ra = RandAnalyzer::new();
    for a in 0..32u8 {
        for b in 0..32u8 {
            for c in 0..32u8 {
                let r = ra.iv_group_to_rand([a, b, c]);
                assert_eq!(ra.rand_to_iv_group(r), [a, b, c]);
            }
        }
    }
    assert_eq!(ra.iv_group_to_rand([1, 2, 3]), 1 | (2 << 5) | (3 << 10));
}

#[test]
fn seeds_from_rands() {
    let ra = RandAnalyzer::new();
    assert_eq!(ra.rands_to_seed(0x1234, 0xabcd), 0x1234abcd);
    assert_eq!(ra.extract_rand(0x1234abcd), 0x1234);
    let p = Potanist::new();
    assert_eq!(p.rands_to_seed(0xffff, 0x0001), 0xffff0001);
    assert_eq!(p.ivs_to_rand([0, 0, 31]), 31 << 10);
    assert_eq!(p.rand_to_ivs(31 << 10), [0, 0, 31]);
}

#[test]
fn mt_tempering_known_words() {
    let mut mt = RngMT::new(0);
    assert_eq!(mt.get_pid(0), 0);
    assert_eq!(mt.get_pid(1), 0x0040_0091);
}
