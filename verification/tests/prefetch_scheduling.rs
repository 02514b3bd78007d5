use projectloupe::{
    compute_priority_order, create_viewport_prefetch_job, PrefetchJob, PrefetchScheduler,
    ThumbnailTier,
};

fn path_list(n: usize) -> Vec<String> {
    let mut v: Vec<String> = Vec::new();
    for i in 0..n {
        v.push(format!("file{}.jpg", i));
    }
    v
}

#[test]
fn test_prefetch_job_creation() {
    let file_paths = vec![
        "file1.jpg".to_string(),
        "file2.jpg".to_string(),
        "file3.jpg".to_string(),
        "file4.jpg".to_string(),
        "file5.jpg".to_string(),
    ];

    let job = create_viewport_prefetch_job(file_paths.clone(), ThumbnailTier::Micro, 1, 2);

    assert_eq!(job.file_paths, file_paths);
    assert_eq!(job.tier, ThumbnailTier::Micro);
    assert_eq!(job.viewport_start, 1);
    assert_eq!(job.viewport_end, 3);
}

#[test]
fn test_viewport_bounds() {
    let file_paths = vec!["file1.jpg".to_string(), "file2.jpg".to_string()];

    // Test viewport larger than file list
    let job = create_viewport_prefetch_job(file_paths.clone(), ThumbnailTier::Micro, 0, 10);

    assert_eq!(job.viewport_end, 2); // Should be clamped to file_paths.len()
}

#[test]
fn test_scheduler_creation() {
    let scheduler = PrefetchScheduler::new();

    assert!(!scheduler.is_running());
    assert!(scheduler.get_progress().is_none());
}

#[test]
fn test_cancel_functionality() {
    let mut scheduler = PrefetchScheduler::new();

    // Start a job
    let job = PrefetchJob {
        file_paths: vec!["nonexistent1.jpg".to_string(), "nonexistent2.jpg".to_string()],
        tier: ThumbnailTier::Micro,
        viewport_start: 0,
        viewport_end: 1,
    };

    scheduler.start_prefetch(&job);

    // Cancel immediately
    scheduler.cancel_current_job();

    // Should be marked as cancelled
    if let Some(progress) = scheduler.get_progress() {
        assert!(progress.is_cancelled);
    }
}

#[test]
fn test_priority_order_expands_from_viewport() {
    // ten candidates with the viewport on indices 4 and 5: the viewport comes
    // first, then the neighbors alternate outward
    let order = compute_priority_order(10, 4, 6);
    let expected: Vec<(usize, bool)> = vec![
        (4, true),
        (5, true),
        (3, false),
        (6, false),
        (2, false),
        (7, false),
        (1, false),
        (8, false),
        (0, false),
        (9, false),
    ];
    assert_eq!(order, expected);
}

#[test]
fn test_priority_order_clamps_viewport() {
    let order = compute_priority_order(3, 1, 99);
    assert_eq!(order, vec![(1, true), (2, true), (0, false)]);
    let empty = compute_priority_order(0, 2, 5);
    assert!(empty.is_empty());
}

#[test]
fn test_cancellation_stops_job_early() {
    // a job over twenty paths cancelled right away finishes with its
    // cancellation visible and far fewer completions than candidates
    let mut scheduler = PrefetchScheduler::new();
    let job = create_viewport_prefetch_job(path_list(20), ThumbnailTier::Micro, 0, 4);
    scheduler.start_prefetch(&job);
    assert!(scheduler.is_running());

    scheduler.cancel_current_job();
    let progress = scheduler.get_progress().unwrap();
    assert!(progress.is_cancelled);
    assert!(progress.completed_files < 20);

    // a cancelled job hands out no further work
    assert!(scheduler.next_chunk().is_none());
    let progress = scheduler.get_progress().unwrap();
    assert!(progress.is_finished);
    assert!(progress.is_cancelled);
    assert_eq!(progress.completed_files, 0);
    assert!(!scheduler.is_running());
}

#[test]
fn test_chunks_cover_order_and_record_progress() {
    let mut scheduler = PrefetchScheduler::new();
    let job = create_viewport_prefetch_job(path_list(10), ThumbnailTier::Micro, 4, 2);
    scheduler.start_prefetch(&job);

    let first = scheduler.next_chunk().unwrap();
    assert_eq!(first, vec![(4, true), (5, true), (3, false), (6, false)]);
    for (_, in_viewport) in first.iter() {
        scheduler.record_item(*in_viewport, true);
    }
    let progress = scheduler.get_progress().unwrap();
    assert_eq!(progress.completed_files, 4);
    assert_eq!(progress.viewport_completed, 2);
    assert_eq!(progress.viewport_total, 2);
    assert_eq!(progress.failed_files, 0);

    let second = scheduler.next_chunk().unwrap();
    assert_eq!(second, vec![(2, false), (7, false), (1, false), (8, false)]);
    for _ in second.iter() {
        scheduler.record_item(false, false);
    }
    let third = scheduler.next_chunk().unwrap();
    assert_eq!(third, vec![(0, false), (9, false)]);
    for _ in third.iter() {
        scheduler.record_item(false, true);
    }

    // the order is exhausted: the next request ends the job
    assert!(scheduler.next_chunk().is_none());
    let progress = scheduler.get_progress().unwrap();
    assert!(progress.is_finished);
    assert_eq!(progress.completed_files, 6);
    assert_eq!(progress.failed_files, 4);
    assert!(!scheduler.is_running());
}

#[test]
fn test_single_job_replacement() {
    // starting a second job while the first runs gives the new job a fresh
    // progress record with no completions carried over
    let mut scheduler = PrefetchScheduler::new();
    let job1 = create_viewport_prefetch_job(path_list(8), ThumbnailTier::Micro, 0, 2);
    scheduler.start_prefetch(&job1);
    let chunk = scheduler.next_chunk().unwrap();
    for (_, in_viewport) in chunk.iter() {
        scheduler.record_item(*in_viewport, true);
    }
    assert_eq!(scheduler.get_progress().unwrap().completed_files, 4);
    assert!(scheduler.is_running());

    let job2 = create_viewport_prefetch_job(path_list(5), ThumbnailTier::Preview, 1, 2);
    scheduler.start_prefetch(&job2);
    let progress = scheduler.get_progress().unwrap();
    assert_eq!(progress.total_files, 5);
    assert_eq!(progress.completed_files, 0);
    assert_eq!(progress.failed_files, 0);
    assert_eq!(progress.viewport_completed, 0);
    assert!(!progress.is_cancelled);
    assert!(!progress.is_finished);
}
