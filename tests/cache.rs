use stake_o_matic::cache::ConfirmedBlockCache;
use std::collections::HashSet;

#[test]
fn first_query_fetches_then_serves_from_cache() {
    let mut cache = ConfirmedBlockCache::new();
    assert_eq!(cache.missing_slots(10, 15), vec![10, 11, 12, 13, 14]);
    let fetched: HashSet<u64> = [10, 12, 14].iter().cloned().collect();
    cache.record_fetched(10, 15, &fetched);
    assert!(cache.missing_slots(10, 15).is_empty());
    let first = cache.confirmed_slots(10, 15);
    assert_eq!(first, vec![10, 12, 14]);
    // later fetches of other slots change nothing already cached
    let other: HashSet<u64> = [11, 13, 15, 16].iter().cloned().collect();
    cache.record_fetched(10, 17, &other);
    assert_eq!(cache.missing_slots(10, 17), Vec::<u64>::new());
    assert_eq!(cache.confirmed_slots(10, 15), first);
    assert_eq!(cache.confirmed_slots(10, 17), vec![10, 12, 14, 15, 16]);
}

#[test]
fn overlapping_range_fetches_only_the_new_slots() {
    let mut cache = ConfirmedBlockCache::new();
    cache.record(5, true);
    cache.record(6, false);
    cache.record(5, false);
    assert_eq!(cache.missing_slots(4, 9), vec![4, 7, 8]);
    assert_eq!(cache.missing_slots(9, 4), Vec::<u64>::new());
    cache.record_fetched(4, 9, &HashSet::new());
    assert_eq!(cache.confirmed_slots(4, 9), vec![5]);
}
