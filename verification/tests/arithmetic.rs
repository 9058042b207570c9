use relayer_game::byte_table::{same_bytes, ByteTable};
use relayer_game::claims::{
    claims_out_of_round, count_in_round, dishonest_claims, find_designated, find_last_in_round,
    has_tip, same_prefix,
};
use relayer_game::round::{
    floor_log2_of, largest_power_of_two_within, previous_count_of, round_of_length,
};
use relayer_game::bisection::{midpoint_of, sort_heights, update_samples};
use relayer_game::settlement::{answered_count_of, power_of_two};
use relayer_game::types::{copy_of, EthHeader, Proposal};

#[test]
fn growth_doubles_the_samples() {
    let mut samples = vec![1000];
    update_samples(&mut samples, 0);
    assert_eq!(samples, vec![1000, 500]);
    update_samples(&mut samples, 0);
    assert_eq!(samples, vec![1000, 500, 250, 750]);
    update_samples(&mut samples, 0);
    assert_eq!(samples, vec![1000, 500, 250, 750, 125, 375, 625, 875]);
}

#[test]
fn growth_counts_the_confirmed_height_as_a_boundary() {
    let mut samples = vec![1000];
    update_samples(&mut samples, 600);
    assert_eq!(samples, vec![1000, 800]);
    update_samples(&mut samples, 2000);
    assert_eq!(samples, vec![1000, 800, 900, 1500]);
}

#[test]
fn growth_does_not_overflow() {
    let mut samples = vec![u32::MAX];
    update_samples(&mut samples, u32::MAX);
    assert_eq!(samples, vec![u32::MAX, u32::MAX]);
    let mut samples = vec![u32::MAX];
    update_samples(&mut samples, u32::MAX - 3);
    assert_eq!(samples, vec![u32::MAX, u32::MAX - 2]);
    let mut samples: Vec<u32> = vec![];
    update_samples(&mut samples, 7);
    assert!(samples.is_empty());
}

#[test]
fn midpoint_rounds_down() {
    assert_eq!(midpoint_of(0, 1000), 500);
    assert_eq!(midpoint_of(1000, 0), 500);
    assert_eq!(midpoint_of(3, 4), 3);
    assert_eq!(midpoint_of(u32::MAX, u32::MAX), u32::MAX);
    assert_eq!(midpoint_of(u32::MAX, 0), 2147483647);
}

#[test]
fn heights_are_sorted_ascending() {
    assert_eq!(sort_heights(&vec![1000, 500, 0]), vec![0, 500, 1000]);
    assert_eq!(sort_heights(&vec![3, 1, 2, 1, 3]), vec![1, 1, 2, 3, 3]);
    assert_eq!(sort_heights(&vec![]), Vec::<u32>::new());
    assert_eq!(sort_heights(&vec![u32::MAX, 0]), vec![0, u32::MAX]);
}

#[test]
fn rounds_follow_the_doubling_schedule() {
    for round in 1u32..=20 {
        assert_eq!(round_of_length(1usize << (round - 1)), round);
        assert_eq!(power_of_two(round - 1, usize::MAX), 1usize << (round - 1));
    }
    assert_eq!(floor_log2_of(0), 0);
    assert_eq!(floor_log2_of(1), 0);
    assert_eq!(floor_log2_of(2), 1);
    assert_eq!(floor_log2_of(1023), 9);
    assert_eq!(floor_log2_of(1024), 10);
    assert_eq!(floor_log2_of(usize::MAX), 63);
    assert_eq!(largest_power_of_two_within(1), 1);
    assert_eq!(largest_power_of_two_within(7), 4);
    assert_eq!(largest_power_of_two_within(8), 8);
    assert_eq!(largest_power_of_two_within(usize::MAX), 1usize << 63);
}

#[test]
fn earlier_rounds_fill_the_front_of_a_submission() {
    assert_eq!(previous_count_of(2), 1);
    assert_eq!(previous_count_of(4), 2);
    assert_eq!(previous_count_of(8), 4);
    assert_eq!(previous_count_of(16), 8);
    assert_eq!(previous_count_of(3), 1);
    assert_eq!(previous_count_of(6), 2);
}

#[test]
fn a_round_answers_the_samples_of_its_schedule() {
    assert_eq!(answered_count_of(0, 1), None);
    assert_eq!(answered_count_of(5, 0), None);
    assert_eq!(answered_count_of(1, 1), Some(1));
    assert_eq!(answered_count_of(2, 1), Some(1));
    assert_eq!(answered_count_of(2, 2), Some(2));
    assert_eq!(answered_count_of(1, 2), None);
    assert_eq!(answered_count_of(8, 3), Some(4));
    assert_eq!(answered_count_of(3, 3), Some(3));
    assert_eq!(answered_count_of(4, 4), None);
}

fn claim(round: u32, relayer: u64, lie: u32) -> Proposal {
    Proposal {
        headers: vec![EthHeader { lie, block_height: 10 }],
        round,
        relayer,
        extend_from: if round == 1 { None } else { Some((20, 0)) },
    }
}

#[test]
fn a_bucket_is_told_apart_by_round_and_content() {
    let bucket = vec![claim(1, 1, 0), claim(2, 2, 0), claim(1, 3, 5), claim(1, 4, 0), claim(3, 5, 0)];
    assert_eq!(count_in_round(&bucket, 1), 3);
    assert_eq!(count_in_round(&bucket, 4), 0);
    assert_eq!(find_designated(&bucket, 1, 0), Some(3));
    assert_eq!(find_designated(&bucket, 1, 5), Some(2));
    assert_eq!(find_designated(&bucket, 1, 6), None);
    assert_eq!(find_designated(&bucket, 2, 0), Some(1));
    assert_eq!(find_last_in_round(&bucket, 1), Some(3));
    assert_eq!(find_last_in_round(&bucket, 3), Some(4));
    assert_eq!(find_last_in_round(&bucket, 9), None);
    let liars: Vec<u64> = dishonest_claims(&bucket, 1, 0).iter().map(|p| p.relayer).collect();
    assert_eq!(liars, vec![3]);
    let rest: Vec<u64> = claims_out_of_round(&bucket, 1).iter().map(|p| p.relayer).collect();
    assert_eq!(rest, vec![2, 5]);
    assert!(has_tip(&bucket[2], 5));
    assert!(!has_tip(&bucket[2], 0));
    let empty = Proposal { headers: vec![], round: 1, relayer: 1, extend_from: None };
    assert!(!has_tip(&empty, 0));
    assert_eq!(bucket[1].clone(), bucket[1]);
}

#[test]
fn prefixes_are_compared_checkpoint_by_checkpoint() {
    let a = vec![EthHeader { lie: 0, block_height: 1 }, EthHeader { lie: 0, block_height: 2 }];
    let b = vec![EthHeader { lie: 0, block_height: 1 }, EthHeader { lie: 1, block_height: 2 }];
    assert!(same_prefix(&a, &b, 0));
    assert!(same_prefix(&a, &b, 1));
    assert!(!same_prefix(&a, &b, 2));
    assert!(same_prefix(&a, &copy_of(&a), 2));
    assert_eq!(EthHeader::default(), EthHeader { lie: 0, block_height: 0 });
}

#[test]
fn byte_table_keeps_one_value_per_key() {
    let mut table: ByteTable<u32> = ByteTable::new();
    assert_eq!(table.get(&vec![1, 2]), None);
    table.put(&vec![1, 2], 7);
    table.put(&vec![1], 8);
    table.put(&vec![], 9);
    assert_eq!(table.get(&vec![1, 2]), Some(&7));
    assert_eq!(table.get(&vec![1]), Some(&8));
    assert_eq!(table.get(&vec![]), Some(&9));
    table.put(&vec![1, 2], 10);
    assert_eq!(table.get(&vec![1, 2]), Some(&10));
    table.remove(&vec![1]);
    assert_eq!(table.get(&vec![1]), None);
    assert_eq!(table.get(&vec![1, 2]), Some(&10));
    table.remove(&vec![1]);
    assert_eq!(table.get(&vec![]), Some(&9));
    assert!(same_bytes(&vec![1, 2], &copy_of(&vec![1u8, 2])));
    assert_eq!(copy_of(&vec![(1u32, 2u32), (3, 4)]), vec![(1, 2), (3, 4)]);
    assert!(!same_bytes(&vec![1, 2], &vec![1, 3]));
    assert!(!same_bytes(&vec![1, 2], &vec![1]));
}
