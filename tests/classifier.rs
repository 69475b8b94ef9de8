use solana_sdk::pubkey::Pubkey;
use stake_o_matic::classifier::{classify_producers, classify_tallies, tally_schedule, ClassifyError, ProducerTally};
use stake_o_matic::config::Config;
use stake_o_matic::identity::Identity;
use std::collections::{HashMap, HashSet};

fn id(key: &Pubkey) -> Identity {
    Identity::new(key.to_bytes())
}

fn five_leaders() -> (Vec<Pubkey>, Vec<(String, Vec<usize>)>) {
    let keys: Vec<Pubkey> = (0..5).map(|_| Pubkey::new_unique()).collect();
    let mut leader_schedule = HashMap::new();
    leader_schedule.insert(keys[0].to_string(), (0..10).collect::<Vec<usize>>());
    leader_schedule.insert(keys[1].to_string(), (10..20).collect());
    leader_schedule.insert(keys[2].to_string(), (20..30).collect());
    leader_schedule.insert(keys[3].to_string(), (30..40).collect());
    leader_schedule.insert(keys[4].to_string(), (40..50).collect());
    (keys, leader_schedule.into_iter().collect())
}

#[test]
fn test_quality_producer_with_average_skip_rate() {
    let config = Config {
        quality_block_producer_percentage: 10,
        max_poor_block_producer_percentage: 40,
        use_cluster_average_skip_rate: true,
        ..Config::default_for_test()
    };

    let confirmed_blocks: HashSet<u64> = [
        0, 1, 2, 3, 4, 5, 6, 7, 8, 10, 11, 12, 14, 21, 22, 43, 44, 45, 46, 47, 48,
    ]
    .iter()
    .cloned()
    .collect();
    let (l, leader_schedule) = five_leaders();
    let (quality, poor, _cluster_average, too_many_poor_block_producers) =
        classify_producers(0, &confirmed_blocks, &leader_schedule, &config).unwrap();
    assert!(quality.contains(&id(&l[0])));
    assert!(quality.contains(&id(&l[4])));
    assert!(quality.contains(&id(&l[1])));
    assert!(poor.contains(&id(&l[2])));
    assert!(poor.contains(&id(&l[3])));
    assert!(!too_many_poor_block_producers);
}

#[test]
fn test_quality_producer_when_all_poor() {
    let config = Config {
        quality_block_producer_percentage: 10,
        use_cluster_average_skip_rate: false,
        ..Config::default_for_test()
    };

    let confirmed_blocks = HashSet::<u64>::new();
    let (_l, leader_schedule) = five_leaders();
    let (quality, poor, _cluster_average, too_many_poor_block_producers) =
        classify_producers(0, &confirmed_blocks, &leader_schedule, &config).unwrap();
    assert!(quality.is_empty());
    assert_eq!(poor.len(), 5);
    assert!(too_many_poor_block_producers);
}

#[test]
fn test_quality_producer_when_all_good() {
    let config = Config {
        quality_block_producer_percentage: 10,
        use_cluster_average_skip_rate: false,
        ..Config::default_for_test()
    };

    let confirmed_blocks: HashSet<u64> = (0..50).collect();
    let (_l, leader_schedule) = five_leaders();
    let (quality, poor, _cluster_average, too_many_poor_block_producers) =
        classify_producers(0, &confirmed_blocks, &leader_schedule, &config).unwrap();
    assert!(poor.is_empty());
    assert_eq!(quality.len(), 5);
    assert!(!too_many_poor_block_producers);
}

#[test]
fn cluster_average_skip_rate_of_partial_coverage() {
    // 21 of 50 slots confirmed: 100 - 2100 / 50 = 58
    let config = Config {
        quality_block_producer_percentage: 10,
        max_poor_block_producer_percentage: 40,
        use_cluster_average_skip_rate: true,
        ..Config::default_for_test()
    };
    let confirmed_blocks: HashSet<u64> = [
        0, 1, 2, 3, 4, 5, 6, 7, 8, 10, 11, 12, 14, 21, 22, 43, 44, 45, 46, 47, 48,
    ]
    .iter()
    .cloned()
    .collect();
    let (_l, leader_schedule) = five_leaders();
    let (quality, poor, cluster_average, too_many) =
        classify_producers(0, &confirmed_blocks, &leader_schedule, &config).unwrap();
    assert_eq!(cluster_average, 58);
    assert_eq!(quality.len(), 3);
    assert_eq!(poor.len(), 2);
    assert!(!too_many);
}

#[test]
fn first_slot_offsets_the_schedule() {
    let config = Config { quality_block_producer_percentage: 10, ..Config::default_for_test() };
    let confirmed_blocks: HashSet<u64> = (1000..1010).collect();
    let key = Pubkey::new_unique();
    let schedule = vec![(key.to_string(), (0..10).collect::<Vec<usize>>())];
    let (quality, poor, cluster_average, _) =
        classify_producers(1000, &confirmed_blocks, &schedule, &config).unwrap();
    assert_eq!(quality, vec![id(&key)]);
    assert!(poor.is_empty());
    assert_eq!(cluster_average, 0);
}

#[test]
fn full_production_has_no_poor_producers() {
    let config = Config {
        quality_block_producer_percentage: 0,
        max_poor_block_producer_percentage: 0,
        use_cluster_average_skip_rate: true,
        ..Config::default_for_test()
    };
    let keys: Vec<Pubkey> = (0..3).map(|_| Pubkey::new_unique()).collect();
    let schedule = vec![
        (keys[0].to_string(), vec![0, 5, 9]),
        (keys[1].to_string(), vec![1]),
        (keys[2].to_string(), vec![2, 3, 4, 6, 7, 8]),
    ];
    let confirmed: HashSet<u64> = (0..10).collect();
    let (quality, poor, cluster_average, too_many) =
        classify_producers(0, &confirmed, &schedule, &config).unwrap();
    assert!(poor.is_empty());
    assert_eq!(quality.len(), 3);
    assert_eq!(cluster_average, 0);
    assert!(!too_many);
}

#[test]
fn nothing_confirmed_makes_everyone_poor() {
    let config = Config {
        quality_block_producer_percentage: 99,
        max_poor_block_producer_percentage: 99,
        use_cluster_average_skip_rate: false,
        ..Config::default_for_test()
    };
    let keys: Vec<Pubkey> = (0..2).map(|_| Pubkey::new_unique()).collect();
    let schedule = vec![(keys[0].to_string(), vec![0]), (keys[1].to_string(), vec![1, 2])];
    let (quality, poor, cluster_average, too_many) =
        classify_producers(0, &HashSet::new(), &schedule, &config).unwrap();
    assert!(quality.is_empty());
    assert_eq!(poor.len(), 2);
    assert_eq!(cluster_average, 100);
    assert!(too_many);
}

#[test]
fn nothing_confirmed_with_cluster_floor_is_quality() {
    // with the cluster floor the whole cluster skipped everything alike
    let config = Config {
        quality_block_producer_percentage: 10,
        use_cluster_average_skip_rate: true,
        ..Config::default_for_test()
    };
    let key = Pubkey::new_unique();
    let schedule = vec![(key.to_string(), vec![0, 1])];
    let (quality, poor, _, _) = classify_producers(0, &HashSet::new(), &schedule, &config).unwrap();
    assert_eq!(quality.len(), 1);
    assert!(poor.is_empty());
}

#[test]
fn quality_and_poor_partition_the_producers() {
    let config = Config { quality_block_producer_percentage: 20, ..Config::default_for_test() };
    let keys: Vec<Pubkey> = (0..4).map(|_| Pubkey::new_unique()).collect();
    let schedule = vec![
        (keys[0].to_string(), vec![0, 1, 2, 3]),
        (keys[1].to_string(), vec![4, 5, 6, 7]),
        (keys[2].to_string(), vec![]),
        (keys[3].to_string(), vec![8, 9]),
    ];
    let confirmed: HashSet<u64> = [0, 1, 2, 3, 4, 8].iter().cloned().collect();
    let (quality, poor, _, _) = classify_producers(0, &confirmed, &schedule, &config).unwrap();
    assert_eq!(quality.len() + poor.len(), 3);
    for q in &quality {
        assert!(!poor.contains(q));
    }
    assert!(quality.contains(&id(&keys[0])));
    assert!(poor.contains(&id(&keys[1])));
    assert!(poor.contains(&id(&keys[3])));
    assert!(!quality.contains(&id(&keys[2])) && !poor.contains(&id(&keys[2])));
}

#[test]
fn fewer_confirmed_blocks_never_lower_the_cluster_rate() {
    let config = Config::default_for_test();
    let (_l, schedule) = five_leaders();
    let mut previous = 0;
    for covered in (0..=50u64).rev() {
        let confirmed: HashSet<u64> = (0..covered).collect();
        let (_, _, rate, _) = classify_producers(0, &confirmed, &schedule, &config).unwrap();
        assert!(rate >= previous);
        previous = rate;
    }
    assert_eq!(previous, 100);
}

#[test]
fn duplicate_keys_are_added_together() {
    let config = Config { quality_block_producer_percentage: 0, ..Config::default_for_test() };
    let key = Pubkey::new_unique();
    let schedule = vec![(key.to_string(), vec![0, 1]), (key.to_string(), vec![2, 3])];
    let confirmed: HashSet<u64> = [0, 1].iter().cloned().collect();
    let tallies = tally_schedule(0, &confirmed, &schedule).unwrap();
    assert_eq!(tallies.len(), 1);
    assert_eq!(tallies[0].identity, id(&key));
    assert_eq!(tallies[0].blocks, 2);
    assert_eq!(tallies[0].slots, 4);
    let (quality, poor, rate, _) = classify_producers(0, &confirmed, &schedule, &config).unwrap();
    assert!(quality.is_empty());
    assert_eq!(poor, vec![id(&key)]);
    assert_eq!(rate, 50);
}

#[test]
fn malformed_key_is_an_error() {
    let config = Config::default_for_test();
    let schedule = vec![("not a key".to_string(), vec![0])];
    assert_eq!(
        classify_producers(0, &HashSet::new(), &schedule, &config),
        Err(ClassifyError::InvalidIdentity)
    );
    // a malformed key without slots is ignored
    let schedule = vec![("not a key".to_string(), vec![])];
    assert_eq!(
        classify_producers(0, &HashSet::new(), &schedule, &config),
        Err(ClassifyError::NoAssignedSlots)
    );
}

#[test]
fn empty_schedule_is_an_error() {
    let config = Config::default_for_test();
    assert_eq!(
        classify_producers(0, &HashSet::new(), &vec![], &config),
        Err(ClassifyError::NoAssignedSlots)
    );
    assert_eq!(classify_tallies(&vec![], &config), Err(ClassifyError::NoAssignedSlots));
}

#[test]
fn tallies_classify_by_skip_rate() {
    let config = Config {
        quality_block_producer_percentage: 15,
        max_poor_block_producer_percentage: 20,
        use_cluster_average_skip_rate: false,
        ..Config::default_for_test()
    };
    let a = Identity::new([1; 32]);
    let b = Identity::new([2; 32]);
    let tallies = vec![
        ProducerTally { identity: a, blocks: 85, slots: 100 },
        ProducerTally { identity: b, blocks: 84, slots: 100 },
    ];
    let (quality, poor, rate, too_many) = classify_tallies(&tallies, &config).unwrap();
    assert_eq!(quality, vec![a]);
    assert_eq!(poor, vec![b]);
    assert_eq!(rate, 16);
    assert!(too_many);
}
