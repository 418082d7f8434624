use quickwit::cache::ByteRangeCache;

#[test]
fn test_caching_directory() {
    // a read-through over a backing store: the second identical read
    // must be answered by the cache alone
    let backing = b"test".to_vec();
    let mut cache = ByteRangeCache::new_with_capacity_in_bytes(10000);
    let path = "test".to_string();
    let mut backing_reads = 0usize;

    for _ in 0..2 {
        let bytes = match cache.get(&path, 0, 4) {
            Some(hit) => hit,
            None => {
                backing_reads += 1;
                let fetched = backing.clone();
                cache.put(path.clone(), 0, 4, fetched.clone());
                fetched
            },
        };
        assert_eq!(bytes, b"test".to_vec());
    }
    assert_eq!(backing_reads, 1);
}

#[test]
fn test_cache_misses_on_other_ranges() {
    let mut cache = ByteRangeCache::new_with_unlimited_capacity();
    cache.put("file".to_string(), 0, 3, vec![1, 2, 3]);
    assert_eq!(cache.get(&"file".to_string(), 0, 3), Some(vec![1, 2, 3]));
    // a different range of the same file is a different entry
    assert_eq!(cache.get(&"file".to_string(), 1, 3), None);
    // the same range of a different file too
    assert_eq!(cache.get(&"other".to_string(), 0, 3), None);
}

#[test]
fn test_oversized_payload_is_returned_but_not_cached() {
    let mut cache = ByteRangeCache::new_with_capacity_in_bytes(4);
    cache.put("big".to_string(), 0, 8, vec![0; 8]);
    assert_eq!(cache.get(&"big".to_string(), 0, 8), None);
}

#[test]
fn test_bounded_cache_evicts_oldest_first() {
    let mut cache = ByteRangeCache::new_with_capacity_in_bytes(6);
    cache.put("a".to_string(), 0, 3, vec![1, 1, 1]);
    cache.put("b".to_string(), 0, 3, vec![2, 2, 2]);
    // both fit; adding a third 3-byte entry pushes the oldest out
    cache.put("c".to_string(), 0, 3, vec![3, 3, 3]);
    assert_eq!(cache.get(&"a".to_string(), 0, 3), None);
    assert_eq!(cache.get(&"b".to_string(), 0, 3), Some(vec![2, 2, 2]));
    assert_eq!(cache.get(&"c".to_string(), 0, 3), Some(vec![3, 3, 3]));
}

#[test]
fn test_put_on_cached_range_keeps_the_first_bytes() {
    let mut cache = ByteRangeCache::new_with_unlimited_capacity();
    cache.put("file".to_string(), 0, 2, vec![7, 7]);
    // a concurrent duplicate fetch stores the same range again
    cache.put("file".to_string(), 0, 2, vec![7, 7]);
    assert_eq!(cache.get(&"file".to_string(), 0, 2), Some(vec![7, 7]));
}
