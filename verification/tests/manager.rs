use projectloupe::{collect_batch_results, CacheError, ReadStep, ThumbnailCache, ThumbnailConfig, ThumbnailTier};

#[test]
fn test_store_then_get_memory() {
    // the write-through property, memory half: after a store, the same bytes
    // come back from the tier's memory cache
    let mut cache = ThumbnailCache::new("test_session");
    let data: Vec<u8> = vec![9, 8, 7, 6];
    cache.store_memory("abcd1234", ThumbnailTier::Micro, &data);
    assert_eq!(cache.get_memory("abcd1234", ThumbnailTier::Micro), Some(vec![9, 8, 7, 6]));
    // other tiers are unaffected
    assert_eq!(cache.get_memory("abcd1234", ThumbnailTier::Preview), None);
    assert_eq!(cache.get_memory("abcd1234", ThumbnailTier::Loupe), None);
}

#[test]
fn test_disk_rel_path_per_tier() {
    let cache = ThumbnailCache::new("test_session");
    assert_eq!(cache.disk_rel_path("deadbeef", ThumbnailTier::Micro), "micro/deadbeef.jpg");
    assert_eq!(cache.disk_rel_path("deadbeef", ThumbnailTier::Preview), "preview/deadbeef.jpg");
    assert_eq!(cache.disk_rel_path("deadbeef", ThumbnailTier::Loupe), "loupe/deadbeef.jpg");
}

#[test]
fn test_cache_stats_counts() {
    let mut cache = ThumbnailCache::with_config(
        "stats",
        ThumbnailConfig {
            micro_size: 300,
            preview_size: 1600,
            micro_quality: 80,
            preview_quality: 85,
            micro_memory_budget: 1000,
            preview_memory_budget: 2000,
            loupe_memory_budget: 3000,
        },
    );
    let stats = cache.cache_stats();
    assert_eq!(stats.total_items(), 0);
    assert_eq!(stats.total_bytes(), 0);
    assert_eq!(stats.total_max_bytes(), 6000);

    cache.store_memory("k1", ThumbnailTier::Micro, &vec![1, 2, 3, 4, 5]);
    cache.store_memory("k2", ThumbnailTier::Preview, &vec![1, 2]);
    let stats = cache.cache_stats();
    assert_eq!(stats.micro_items, 1);
    assert_eq!(stats.micro_bytes, 5);
    assert_eq!(stats.preview_items, 1);
    assert_eq!(stats.preview_bytes, 2);
    assert_eq!(stats.loupe_items, 0);
    assert_eq!(stats.total_items(), 2);
    assert_eq!(stats.total_bytes(), 7);
}

#[test]
fn test_clear_memory_resets_all_tiers() {
    let mut cache = ThumbnailCache::new("clear");
    cache.store_memory("k1", ThumbnailTier::Micro, &vec![1]);
    cache.store_memory("k2", ThumbnailTier::Loupe, &vec![2, 3]);
    cache.clear_memory();
    let stats = cache.cache_stats();
    assert_eq!(stats.total_items(), 0);
    assert_eq!(stats.total_bytes(), 0);
    assert_eq!(cache.get_memory("k1", ThumbnailTier::Micro), None);
}

#[test]
fn test_session_hash_is_kept() {
    let cache = ThumbnailCache::new("session_42");
    assert_eq!(cache.session_hash(), "session_42");
}

#[test]
fn test_batch_results_keep_every_item() {
    // batch resilience: five paths of which two fail give five results with
    // exactly two errors, and the errors stay on their own items
    let paths: Vec<String> = vec![
        "a.cr3".to_string(),
        "b.cr3".to_string(),
        "c.cr3".to_string(),
        "d.cr3".to_string(),
        "e.cr3".to_string(),
    ];
    let outcomes: Vec<Result<String, CacheError>> = vec![
        Ok("micro/a.jpg".to_string()),
        Err(CacheError::NotFound),
        Ok("micro/c.jpg".to_string()),
        Err(CacheError::NotFound),
        Ok("micro/e.jpg".to_string()),
    ];
    let results = collect_batch_results(&paths, outcomes);
    assert_eq!(results.len(), 5);
    let errors = results.iter().filter(|(_, r)| r.is_err()).count();
    assert_eq!(errors, 2);
    assert_eq!(results[0].0, "a.cr3");
    assert!(results[1].1.is_err());
    assert_eq!(results[2].1.as_ref().unwrap(), "micro/c.jpg");
}

#[test]
fn test_memory_backfill_after_disk_hit() {
    // the read path back-fills memory: bytes admitted from a disk hit are
    // served from memory on the next access
    let mut cache = ThumbnailCache::new("backfill");
    assert_eq!(cache.get_memory("k", ThumbnailTier::Preview), None);
    let disk_bytes: Vec<u8> = vec![42; 10];
    cache.store_memory("k", ThumbnailTier::Preview, &disk_bytes);
    assert_eq!(cache.get_memory("k", ThumbnailTier::Preview), Some(disk_bytes));
}

#[test]
fn test_two_step_read_path() {
    // a memory miss names the disk file to try; a disk hit is back-filled
    // into memory and served from there afterwards
    let mut cache = ThumbnailCache::new("readpath");
    match cache.begin_get("cafe", ThumbnailTier::Micro) {
        ReadStep::Done(_) => panic!("fresh cache cannot have a memory hit"),
        ReadStep::TryDisk(path) => assert_eq!(path, "micro/cafe.jpg"),
    }
    let from_disk: Vec<u8> = vec![5, 5, 5];
    let served = cache.finish_get("cafe", ThumbnailTier::Micro, Some(from_disk.clone()));
    assert_eq!(served, Some(from_disk.clone()));
    match cache.begin_get("cafe", ThumbnailTier::Micro) {
        ReadStep::Done(data) => assert_eq!(data, from_disk),
        ReadStep::TryDisk(_) => panic!("back-filled key must hit memory"),
    }
    // a disk miss serves nothing and changes nothing
    assert_eq!(cache.finish_get("other", ThumbnailTier::Micro, None), None);
}
