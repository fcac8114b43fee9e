use sublinear_bft_scifest::cache::ByteCache;
use sublinear_bft_scifest::clock::low_64_bits;

#[test]
fn cache_remembers_what_was_recorded() {
    let mut cache = ByteCache::new(4);
    assert_eq!(cache.get(b"a"), None);
    cache.insert(b"a".to_vec(), vec![1]);
    cache.insert(b"b".to_vec(), vec![2, 2]);
    assert_eq!(cache.get(b"a"), Some(vec![1]));
    assert_eq!(cache.get(b"b"), Some(vec![2, 2]));
    assert_eq!(cache.get(b"c"), None);
    assert_eq!(cache.get(b""), None);
    // a later entry for the same key wins
    cache.insert(b"a".to_vec(), vec![9]);
    assert_eq!(cache.get(b"a"), Some(vec![9]));
}

#[test]
fn full_cache_starts_afresh() {
    let mut cache = ByteCache::new(2);
    cache.insert(vec![1], vec![10]);
    cache.insert(vec![2], vec![20]);
    assert_eq!(cache.get(&[1]), Some(vec![10]));
    // the table is full: the third entry is alone afterwards
    cache.insert(vec![3], vec![30]);
    assert_eq!(cache.get(&[1]), None);
    assert_eq!(cache.get(&[2]), None);
    assert_eq!(cache.get(&[3]), Some(vec![30]));
    cache.insert(vec![4], vec![40]);
    assert_eq!(cache.get(&[3]), Some(vec![30]));
    assert_eq!(cache.get(&[4]), Some(vec![40]));
}

#[test]
fn cache_without_room_records_nothing() {
    let mut cache = ByteCache::new(0);
    cache.insert(vec![1], vec![10]);
    assert_eq!(cache.get(&[1]), None);
}

#[test]
fn low_64_bits_cuts_the_high_bits() {
    assert_eq!(low_64_bits(0), 0);
    assert_eq!(low_64_bits(500_000), 500_000);
    assert_eq!(low_64_bits(u64::MAX as u128), u64::MAX);
    assert_eq!(low_64_bits((1u128 << 64) + 5), 5);
    assert_eq!(low_64_bits(u128::MAX), u64::MAX);
}
