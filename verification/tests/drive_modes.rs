use projectloupe::{continuous_runs, parse_drive_mode, BurstDetector, DriveMode};

#[test]
fn test_parse_drive_mode() {
    assert_eq!(parse_drive_mode("Single", ""), DriveMode::Single);
    assert_eq!(parse_drive_mode("Continuous High", ""), DriveMode::ContinuousHigh);
    assert_eq!(parse_drive_mode("Continuous Low", ""), DriveMode::ContinuousLow);
    assert_eq!(parse_drive_mode("", "Continuous Hi"), DriveMode::ContinuousHigh);
    assert_eq!(parse_drive_mode("", "Continuous Lo"), DriveMode::ContinuousLow);
    assert_eq!(parse_drive_mode("Continuous", ""), DriveMode::ContinuousHigh);
    assert_eq!(parse_drive_mode("Unknown", ""), DriveMode::Unknown);
}

#[test]
fn test_drive_mode_is_continuous() {
    assert!(!DriveMode::Single.is_continuous());
    assert!(!DriveMode::Unknown.is_continuous());
    assert!(DriveMode::ContinuousLow.is_continuous());
    assert!(DriveMode::ContinuousHigh.is_continuous());
}

#[test]
fn test_placeholder_functionality() {
    assert!(true);
}

#[test]
fn test_single_burst_detection() {
    let detector = BurstDetector::with_default_config();

    // A burst: five captures within two seconds of each other
    let base_time: i64 = 1640995200 * 1000; // 2022-01-01 00:00:00 UTC, in ms
    let times: Vec<i64> = vec![
        base_time,
        base_time,
        base_time,
        base_time + 1000,
        base_time + 1000,
    ];

    let spans = detector.detect_spans(&times);

    assert_eq!(spans.len(), 1);
    assert_eq!(spans[0], (0, 5, true));
}

#[test]
fn test_multiple_bursts() {
    let detector = BurstDetector::with_default_config();

    let base_time: i64 = 1640995200 * 1000;
    let times: Vec<i64> = vec![
        // First burst (3 captures)
        base_time,
        base_time + 1000,
        base_time + 1000,
        // Gap of 9 seconds, then a second burst (4 captures)
        base_time + 10000,
        base_time + 10000,
        base_time + 11000,
        base_time + 11000,
    ];

    let spans = detector.detect_spans(&times);

    assert_eq!(spans.len(), 2);
    assert_eq!(spans[0], (0, 3, true));
    assert_eq!(spans[1], (3, 7, true));
}

#[test]
fn test_no_burst_individual_images() {
    let detector = BurstDetector::with_default_config();

    let base_time: i64 = 1640995200 * 1000;
    let times: Vec<i64> = vec![base_time, base_time + 10000, base_time + 20000];

    let spans = detector.detect_spans(&times);

    // Gaps are too large: three spans of one capture each, none a burst
    assert_eq!(spans.len(), 3);
    for (i, span) in spans.iter().enumerate() {
        assert_eq!(*span, (i, i + 1, false));
    }
}

#[test]
fn test_max_burst_size_splits_runs() {
    let detector = BurstDetector::new(projectloupe::BurstConfig {
        max_gap_ms: 1000,
        min_burst_size: 2,
        max_burst_size: 3,
    });
    let times: Vec<i64> = vec![0, 100, 200, 300, 400, 500, 600];
    let spans = detector.detect_spans(&times);
    assert_eq!(spans, vec![(0, 3, true), (3, 6, true), (6, 7, false)]);
}

#[test]
fn test_all_single_shot_images() {
    let modes = vec![DriveMode::Single, DriveMode::Single, DriveMode::Single];

    let runs = continuous_runs(&modes);

    // no bursts: three frames standing alone
    assert_eq!(runs, vec![(0, 1, false), (1, 2, false), (2, 3, false)]);
    assert_eq!(runs.iter().filter(|(_, _, burst)| *burst).count(), 0);
}

#[test]
fn test_continuous_sequence_single_burst() {
    let modes = vec![
        DriveMode::ContinuousHigh,
        DriveMode::ContinuousHigh,
        DriveMode::ContinuousHigh,
        DriveMode::ContinuousHigh,
    ];

    let runs = continuous_runs(&modes);

    assert_eq!(runs, vec![(0, 4, true)]);
}

#[test]
fn test_mixed_single_continuous_split() {
    let modes = vec![
        DriveMode::Single,
        DriveMode::ContinuousHigh,
        DriveMode::ContinuousHigh,
        DriveMode::ContinuousHigh,
        DriveMode::Single,
    ];

    let runs = continuous_runs(&modes);

    // one burst of three frames, with a single frame on each side
    assert_eq!(runs, vec![(0, 1, false), (1, 4, true), (4, 5, false)]);
}

#[test]
fn test_minimum_burst_size_two_frames() {
    let modes = vec![DriveMode::ContinuousHigh, DriveMode::ContinuousHigh];

    let runs = continuous_runs(&modes);

    assert_eq!(runs, vec![(0, 2, true)]);
}

#[test]
fn test_single_continuous_frame_not_burst() {
    let modes = vec![DriveMode::ContinuousHigh, DriveMode::Single];

    let runs = continuous_runs(&modes);

    assert_eq!(runs, vec![(0, 1, false), (1, 2, false)]);
}
