use relayer_game::sample::{
    get_sample_from_random_number, raw_draw, sample_range, sample_with_offset,
    snap_to_confirmed_affinity, ChainType, Event, Module,
};

#[test]
fn test_handle_confirm_blocks_affinity() {
    let mut sample_module = Module::new(ChainType::Normal, 10);
    assert_eq!(sample_module.confirm(1, 42), Event::BlockConfirmed(42, 1));
    assert_eq!(sample_module.handle_confirm_blocks_affinity(0, 100, 50), 43);
    assert_eq!(sample_module.handle_confirm_blocks_affinity(0, 100, 35), 41);
}

#[test]
fn affinity_leaves_distant_candidates_alone() {
    let mut sample_module = Module::new(ChainType::Normal, 10);
    sample_module.confirm(1, 42);
    assert_eq!(sample_module.handle_confirm_blocks_affinity(0, 100, 53), 53);
    assert_eq!(sample_module.handle_confirm_blocks_affinity(0, 100, 52), 43);
    assert_eq!(sample_module.handle_confirm_blocks_affinity(0, 100, 32), 32);
    assert_eq!(sample_module.handle_confirm_blocks_affinity(0, 100, 33), 41);
    assert_eq!(sample_module.handle_confirm_blocks_affinity(0, 100, 42), 41);
}

#[test]
fn affinity_takes_the_nearest_confirmed_height() {
    let confirmed = vec![40, 44, 42, 60, 58];
    assert_eq!(snap_to_confirmed_affinity(50, 0, 100, &confirmed, 10), 45);
    assert_eq!(snap_to_confirmed_affinity(55, 0, 100, &confirmed, 5), 57);
    assert_eq!(snap_to_confirmed_affinity(50, 43, 100, &confirmed, 10), 45);
    assert_eq!(snap_to_confirmed_affinity(50, 45, 59, &confirmed, 10), 57);
    assert_eq!(snap_to_confirmed_affinity(50, 45, 58, &confirmed, 10), 50);
    assert_eq!(snap_to_confirmed_affinity(50, 0, 100, &confirmed, 0), 50);
    assert_eq!(snap_to_confirmed_affinity(44, 0, 100, &confirmed, 0), 44);
    assert_eq!(snap_to_confirmed_affinity(45, 0, 100, &confirmed, 1), 45);
    assert_eq!(snap_to_confirmed_affinity(43, 0, 100, &confirmed, 1), 43);
    assert_eq!(snap_to_confirmed_affinity(43, 0, 100, &confirmed, 2), 43);
    assert_eq!(snap_to_confirmed_affinity(41, 0, 100, &confirmed, 2), 41);
    assert_eq!(snap_to_confirmed_affinity(46, 0, 100, &confirmed, 2), 45);
    assert_eq!(snap_to_confirmed_affinity(47, 0, 100, &confirmed, 2), 47);
    assert_eq!(snap_to_confirmed_affinity(56, 0, 100, &confirmed, 3), 57);
    assert_eq!(snap_to_confirmed_affinity(60, 0, 100, &confirmed, 1), 59);
}

#[test]
fn affinity_stays_within_the_bounds() {
    let confirmed = vec![0, 7];
    assert_eq!(snap_to_confirmed_affinity(0, 0, 10, &confirmed, 3), 0);
    assert_eq!(snap_to_confirmed_affinity(9, 2, 5, &confirmed, 3), 5);
    assert_eq!(snap_to_confirmed_affinity(u32::MAX, 0, u32::MAX, &vec![u32::MAX], 5), u32::MAX - 1);
}

#[test]
fn confirm_is_idempotent() {
    let mut sample_module = Module::new(ChainType::POW, 3);
    assert_eq!(sample_module.chain_type(), ChainType::POW);
    assert_eq!(sample_module.attract_range(), 3);
    sample_module.confirm(1, 42);
    sample_module.confirm(2, 7);
    sample_module.confirm(3, 42);
    assert_eq!(sample_module.confirmed_blocks(), &vec![42, 7]);
    assert!(sample_module.is_confirmed(7));
    assert!(!sample_module.is_confirmed(8));
}

#[test]
fn sample_is_drawn_from_the_seed() {
    // the generator's documented first pick for this seed and bound is 59
    assert_eq!(get_sample_from_random_number(0, 102, b"Sixty-nine"), 60);
    assert_eq!(get_sample_from_random_number(102, 0, b"Sixty-nine"), 60);
    assert_eq!(get_sample_from_random_number(1000, 1102, b"Sixty-nine"), 1060);
}

#[test]
fn sample_lies_strictly_between_the_bounds() {
    for seed in 0u8..50 {
        let s = get_sample_from_random_number(10, 13, &[seed, 1, 2]);
        assert!(10 < s && s < 13);
        assert_eq!(get_sample_from_random_number(7, 9, &[seed]), 8);
    }
    let seeds: [&[u8]; 3] = [b"a", b"b", b"c"];
    let drawn: Vec<u32> = seeds.iter().map(|s| get_sample_from_random_number(0, 4000, s)).collect();
    assert!(drawn.iter().all(|d| 0 < *d && *d < 4000));
    assert!(drawn[0] != drawn[1] || drawn[1] != drawn[2]);
}

#[test]
fn offsets_place_the_sample() {
    assert_eq!(sample_range(0, 100), 98);
    assert_eq!(sample_range(100, 0), 98);
    assert_eq!(sample_range(5, 7), 0);
    assert_eq!(sample_with_offset(0, 100, 0), 1);
    assert_eq!(sample_with_offset(0, 100, 98), 99);
    assert_eq!(sample_with_offset(100, 40, 9), 50);
    assert_eq!(sample_range(0, u32::MAX), u32::MAX - 2);
    assert_eq!(sample_with_offset(0, u32::MAX, u32::MAX - 2), u32::MAX - 1);
}

#[test]
fn raw_draw_follows_the_chain_type() {
    assert_eq!(raw_draw(ChainType::Normal, 0, 102, b"Sixty-nine"), 59);
    assert_eq!(raw_draw(ChainType::Normal, 500, 398, b"Sixty-nine"), 59);
    let a = raw_draw(ChainType::POW, 0, 102, b"Sixty-nine");
    assert!(a <= 2147483647);
    assert_eq!(a, raw_draw(ChainType::POW, 7, 9, b"Sixty-nine"));
    assert!(
        raw_draw(ChainType::POW, 0, 9, b"x") != raw_draw(ChainType::POW, 0, 9, b"y")
            || raw_draw(ChainType::POW, 0, 9, b"y") != raw_draw(ChainType::POW, 0, 9, b"z")
    );
    for seed in 0u8..20 {
        assert!(raw_draw(ChainType::Normal, 10, 15, &[seed]) <= 3);
    }
}

#[test]
fn sampling_is_recorded_once_per_pair() {
    let mut sample_module = Module::new(ChainType::Normal, 10);
    sample_module.confirm(1, 42);
    assert_eq!(sample_module.sampling_blocks_map(0, 100), None);
    assert_eq!(sample_module.gen_sampling_blocks(0, 100, 50), 43);
    assert_eq!(sample_module.sampling_blocks_map(0, 100), Some(43));
    assert_eq!(sample_module.sampling_blocks_map(100, 0), None);
    assert_eq!(sample_module.gen_sampling_blocks(0, 100, 80), 43);
    assert_eq!(sample_module.gen_sampling_blocks(100, 0, 80), 80);
    assert_eq!(sample_module.sampling_blocks(), &vec![43, 80]);
    assert_eq!(sample_module.sampling_blocks_map(100, 0), Some(80));
}
