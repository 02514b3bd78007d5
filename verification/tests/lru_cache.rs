use projectloupe::LruCache;

#[test]
fn test_basic_operations() {
    let mut cache = LruCache::new(100);

    // Test insertion and retrieval
    cache.insert("key1".to_string(), vec![1, 2, 3], 10);
    assert_eq!(cache.get("key1"), Some(vec![1, 2, 3]));
    assert_eq!(cache.len(), 1);
    assert_eq!(cache.total_bytes(), 10);

    // Test non-existent key
    assert_eq!(cache.get("key2"), None);
}

#[test]
fn test_lru_eviction() {
    let mut cache = LruCache::new(25);

    // Insert items that fit within budget
    cache.insert("key1".to_string(), vec![1], 10);
    cache.insert("key2".to_string(), vec![2], 10);

    // This should fit (total = 25)
    cache.insert("key3".to_string(), vec![3], 5);
    assert_eq!(cache.len(), 3);
    assert_eq!(cache.total_bytes(), 25);

    // This should evict key1 (oldest)
    cache.insert("key4".to_string(), vec![4], 10);
    assert_eq!(cache.get("key1"), None);
    assert_eq!(cache.get("key2"), Some(vec![2]));
    assert_eq!(cache.get("key3"), Some(vec![3]));
    assert_eq!(cache.get("key4"), Some(vec![4]));
    assert!(cache.total_bytes() <= 25);
}

#[test]
fn test_lru_ordering() {
    let mut cache = LruCache::new(25);

    // Insert three items
    cache.insert("key1".to_string(), vec![1], 5);
    cache.insert("key2".to_string(), vec![2], 5);
    cache.insert("key3".to_string(), vec![3], 5);

    // Access key1 to make it most recently used
    cache.get("key1");

    // Insert a large item that should evict key2 (now the LRU)
    cache.insert("key4".to_string(), vec![4], 15);

    assert_eq!(cache.get("key1"), Some(vec![1])); // Should still be there
    assert_eq!(cache.get("key2"), None); // Should be evicted
    assert_eq!(cache.get("key3"), Some(vec![3])); // Should still be there
    assert_eq!(cache.get("key4"), Some(vec![4])); // Should be there
}

#[test]
fn test_update_existing_key() {
    let mut cache = LruCache::new(50);

    cache.insert("key1".to_string(), vec![1, 2, 3], 10);
    assert_eq!(cache.total_bytes(), 10);

    // Update with larger value
    cache.insert("key1".to_string(), vec![1, 2, 3, 4, 5], 20);
    assert_eq!(cache.total_bytes(), 20);
    assert_eq!(cache.get("key1"), Some(vec![1, 2, 3, 4, 5]));
    assert_eq!(cache.len(), 1);

    // Update with smaller value
    cache.insert("key1".to_string(), vec![1], 5);
    assert_eq!(cache.total_bytes(), 5);
    assert_eq!(cache.get("key1"), Some(vec![1]));
}

#[test]
fn test_clear() {
    let mut cache = LruCache::new(100);

    cache.insert("key1".to_string(), vec![1, 2, 3], 10);
    cache.insert("key2".to_string(), vec![4, 5, 6], 15);

    assert_eq!(cache.len(), 2);
    assert_eq!(cache.total_bytes(), 25);

    cache.clear();

    assert_eq!(cache.len(), 0);
    assert_eq!(cache.total_bytes(), 0);
    assert!(cache.is_empty());
}

#[test]
fn test_budget_invariant_over_insert_sequence() {
    // after every insert the total stays within the larger of the budget and
    // the largest single item inserted so far
    let budget: usize = 40;
    let mut cache = LruCache::new(budget);
    let sizes: [usize; 8] = [10, 25, 5, 60, 3, 40, 41, 1];
    let mut largest: usize = 0;
    for (i, size) in sizes.iter().enumerate() {
        largest = largest.max(*size);
        cache.insert(format!("item{}", i), vec![i as u8], *size);
        assert!(cache.total_bytes() <= budget.max(largest));
    }
}

#[test]
fn test_oversized_insert_is_kept() {
    // a single entry larger than the whole budget is accepted and retained,
    // briefly holding the cache over budget, rather than rejected
    let mut cache = LruCache::new(10);
    cache.insert("small".to_string(), vec![1], 4);
    cache.insert("huge".to_string(), vec![2; 3], 50);
    assert_eq!(cache.get("huge"), Some(vec![2, 2, 2]));
    assert_eq!(cache.get("small"), None);
    assert_eq!(cache.len(), 1);
    assert_eq!(cache.total_bytes(), 50);
}

#[test]
fn test_zero_budget_keeps_latest() {
    let mut cache = LruCache::new(0);
    cache.insert("a".to_string(), vec![1], 1);
    cache.insert("b".to_string(), vec![2], 1);
    assert_eq!(cache.get("a"), None);
    assert_eq!(cache.get("b"), Some(vec![2]));
    assert_eq!(cache.len(), 1);
}

#[test]
fn test_shared_cache_behind_lock() {
    // the lock-protected cache offers the same operations through a shared
    // reference, with the budget invariant re-established at every release
    let cache = projectloupe::SharedLruCache::new(25);
    cache.insert("key1".to_string(), vec![1], 10);
    cache.insert("key2".to_string(), vec![2], 10);
    cache.insert("key3".to_string(), vec![3], 5);
    assert_eq!(cache.len(), 3);
    assert_eq!(cache.total_bytes(), 25);
    assert_eq!(cache.max_bytes(), 25);

    cache.insert("key4".to_string(), vec![4], 10);
    assert_eq!(cache.get("key1"), None);
    assert_eq!(cache.get("key4"), Some(vec![4]));
    assert!(cache.total_bytes() <= 25);

    cache.clear();
    assert!(cache.is_empty());
}
