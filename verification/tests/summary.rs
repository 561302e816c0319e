use run_report::activity::{
    create_heart_rate_summary, create_split_time_summary, summarize, Sample, SummarizeError,
};

fn sample(heart_rate: u32, whole_m: u64, has_fraction: bool) -> Sample {
    Sample { heart_rate, distance_whole_m: whole_m, distance_has_fraction: has_fraction }
}

#[test]
fn heart_rate_example() {
    let hrs: Vec<u32> = vec![100, 120, 160];
    let summary = create_heart_rate_summary(&hrs);
    assert_eq!(summary.average, 126);
    assert_eq!(summary.max, 160);
    assert_eq!(
        summary.details,
        vec![
            ("<115".to_string(), 1u32),
            ("-150".to_string(), 1u32),
            (">150".to_string(), 1u32),
        ]
    );
}

#[test]
fn average_truncates() {
    let hrs: Vec<u32> = vec![100, 101];
    let summary = create_heart_rate_summary(&hrs);
    assert_eq!(summary.average, 100);
}

#[test]
fn buckets_keep_first_seen_order() {
    let hrs: Vec<u32> = vec![160, 100, 160, 120];
    let summary = create_heart_rate_summary(&hrs);
    assert_eq!(
        summary.details,
        vec![
            (">150".to_string(), 2u32),
            ("<115".to_string(), 1u32),
            ("-150".to_string(), 1u32),
        ]
    );
}

#[test]
fn bucket_boundaries() {
    let hrs: Vec<u32> = vec![114, 115, 149, 150];
    let summary = create_heart_rate_summary(&hrs);
    assert_eq!(
        summary.details,
        vec![
            ("<115".to_string(), 1u32),
            ("-150".to_string(), 2u32),
            (">150".to_string(), 1u32),
        ]
    );
}

#[test]
fn split_example() {
    let samples = vec![
        sample(120, 500, false),
        sample(120, 1000, false),
        sample(120, 1600, false),
        sample(120, 2000, false),
    ];
    let splits = create_split_time_summary(&samples);
    assert_eq!(splits, vec![2, 2]);
}

#[test]
fn split_sum_never_exceeds_sample_count() {
    let samples = vec![
        sample(120, 400, false),
        sample(120, 1000, false),
        sample(120, 1400, false),
        sample(120, 1900, false),
        sample(120, 2000, false),
    ];
    let splits = create_split_time_summary(&samples);
    assert_eq!(splits, vec![2, 3]);
    let total: u32 = splits.iter().sum();
    assert!(total as usize <= samples.len());
}

#[test]
fn no_exact_kilometer_means_no_splits() {
    let samples = vec![
        sample(120, 999, false),
        sample(120, 1000, true),
        sample(120, 2100, false),
    ];
    let splits = create_split_time_summary(&samples);
    assert!(splits.is_empty());
}

#[test]
fn zero_distance_is_no_boundary() {
    let samples = vec![sample(120, 0, false), sample(120, 1000, false)];
    let splits = create_split_time_summary(&samples);
    assert_eq!(splits, vec![2]);
}

#[test]
fn summarize_empty_is_empty_input() {
    let samples: Vec<Sample> = vec![];
    match summarize(&samples) {
        Err(SummarizeError::EmptyInput) => {}
        _ => panic!("empty input must be reported as EmptyInput"),
    }
}

#[test]
fn summarize_combines_heart_rate_and_splits() {
    let samples = vec![
        sample(100, 500, false),
        sample(120, 1000, false),
        sample(160, 1600, false),
    ];
    let summary = summarize(&samples).unwrap();
    assert_eq!(summary.heart_rate_summary.average, 126);
    assert_eq!(summary.heart_rate_summary.max, 160);
    assert_eq!(summary.split_time_summary, vec![2]);
}
