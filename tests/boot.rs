use potanist::seed_analyzer::SeedAnalyzer;
use potanist::time_sum_map::{build_time_sum_map, load_time_sum_map, time_sum_entries};

#[test]
fn time_sum_map_totality() {
    let map = build_time_sum_map();
    assert!(!map.contains_key(&0));
    for k in 1..=490u16 {
        let list = &map[&k];
        assert!(!list.is_empty());
        for (m, d, mi, s) in list {
            assert_eq!((*m as u16) * (*d as u16) + *mi as u16 + *s as u16, k);
        }
    }
    assert_eq!(map.len(), 490);
    assert_eq!(map[&1], vec![(1, 1, 0, 0)]);
    assert_eq!(map[&490], vec![(12, 31, 59, 59)]);
    let total: usize = map.values().map(|l| l.len()).sum();
    assert_eq!(total, 365 * 60 * 60);
    assert!(!map[&(2 * 29)].contains(&(2, 29, 0, 0)));
}

fn check_boot_entries(seed: u32) -> usize {
    let map = build_time_sum_map();
    let analyzer = SeedAnalyzer::new();
    let result = analyzer.create_boot_time_map(seed, 0, &map).unwrap();
    let frame_sum = seed & 0xffff;
    for (year, entries) in result.iter() {
        assert!(*year >= 2000 && *year <= 2099);
        let frame = frame_sum - (*year as u32 - 2000);
        let waiting = (frame + 0) / 60;
        let mut last = (0u8, 0u8);
        for ((month, day), (hour, minute, boot_sec, second)) in entries {
            assert!((*month, *day) > last);
            last = (*month, *day);
            assert_eq!(*hour, 20);
            assert!(*second as u32 >= waiting);
            assert!(*boot_sec >= 10);
            assert_eq!(*boot_sec as u32, *second as u32 - waiting);
            let sum = (*month as u32) * (*day as u32) + *minute as u32 + *second as u32;
            let rebuilt = ((sum % 256) << 24) | ((*hour as u32) << 16) | (frame + (*year as u32 - 2000));
            assert_eq!(rebuilt, seed);
        }
    }
    result.len()
}

#[test]
fn boot_time_map_scenario() {
    check_boot_entries(0x0A140258);
}

#[test]
fn boot_time_map_with_long_wait() {
    assert!(check_boot_entries(0x0A140400) > 0);
}

#[test]
fn boot_time_map_rejects_late_hours() {
    let map = build_time_sum_map();
    let analyzer = SeedAnalyzer::new();
    assert!(analyzer.create_boot_time_map(0x0A180258, 0, &map).is_none());
}

#[test]
fn boot_time_map_short_wait_gives_nothing() {
    let map = build_time_sum_map();
    let analyzer = SeedAnalyzer::new();
    let result = analyzer.create_boot_time_map(0x0A140100, 0, &map).unwrap();
    assert!(result.is_empty());
}

#[test]
fn time_sum_map_bytes_round_trip() {
    let map = build_time_sum_map();
    let entries = time_sum_entries(&map);
    assert_eq!(entries.len(), 365 * 60 * 60);
    assert_eq!(entries[0], (1, 1, 1, 0, 0));
    assert_eq!(*entries.last().unwrap(), (490, 12, 31, 59, 59));
    let bytes = bincode::encode_to_vec(&entries, bincode::config::standard()).unwrap();
    let loaded = load_time_sum_map(&bytes).unwrap();
    assert_eq!(loaded, map);
    assert!(load_time_sum_map(&[0xff, 0xff, 0xff]).is_none());
    let huge_length: [u8; 9] = [0xfd, 0x00, 0x00, 0x00, 0x00, 0x00, 0x00, 0x00, 0x40];
    assert!(load_time_sum_map(&huge_length).is_none());
    let mut broken = entries.clone();
    broken.pop();
    let broken_bytes = bincode::encode_to_vec(&broken, bincode::config::standard()).unwrap();
    assert!(load_time_sum_map(&broken_bytes).is_none());
}
