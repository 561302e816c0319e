use run_report::activity::{collect_summary, ParseError};

fn trackpoint(hr: &str, dist: &str) -> String {
    format!(
        "<Trackpoint><DistanceMeters>{}</DistanceMeters><HeartRateBpm><Value>{}</Value></HeartRateBpm></Trackpoint>",
        dist, hr
    )
}

fn document(points: &[String]) -> String {
    let mut body = String::new();
    for p in points {
        body.push_str(p);
    }
    format!(
        "<TrainingCenterDatabase><Activities><Activity Sport=\"Running\"><Id>run</Id><Lap><Track>{}</Track></Lap></Activity></Activities></TrainingCenterDatabase>",
        body
    )
}

#[test]
fn summarizes_a_well_formed_document() {
    let doc = document(&[
        trackpoint("100", "500.0"),
        trackpoint("120", "1000.0"),
        trackpoint("160", "1600.0"),
    ]);
    let summary = collect_summary(&doc).unwrap();
    assert_eq!(summary.heart_rate_summary.average, 126);
    assert_eq!(summary.heart_rate_summary.max, 160);
    assert_eq!(
        summary.heart_rate_summary.details,
        vec![
            ("<115".to_string(), 1u32),
            ("-150".to_string(), 1u32),
            (">150".to_string(), 1u32),
        ]
    );
    assert_eq!(summary.split_time_summary, vec![2]);
}

#[test]
fn absent_lap_yields_zero_summary() {
    let doc = "<TrainingCenterDatabase><Activities><Activity Sport=\"Running\"><Id>run</Id></Activity></Activities></TrainingCenterDatabase>".to_string();
    let summary = collect_summary(&doc).unwrap();
    assert_eq!(summary.heart_rate_summary.average, 0);
    assert_eq!(summary.heart_rate_summary.max, 0);
    assert!(summary.heart_rate_summary.details.is_empty());
    assert!(summary.split_time_summary.is_empty());
}

#[test]
fn empty_track_yields_zero_summary() {
    let doc = document(&[]);
    let summary = collect_summary(&doc).unwrap();
    assert_eq!(summary.heart_rate_summary.average, 0);
    assert_eq!(summary.heart_rate_summary.max, 0);
    assert!(summary.heart_rate_summary.details.is_empty());
    assert!(summary.split_time_summary.is_empty());
}

#[test]
fn fractional_kilometer_is_no_boundary() {
    let doc = document(&[trackpoint("120", "1000.5"), trackpoint("120", "2000.000")]);
    let summary = collect_summary(&doc).unwrap();
    assert_eq!(summary.split_time_summary, vec![2]);
}

#[test]
fn document_without_activity_is_malformed() {
    let doc = "just some text".to_string();
    match collect_summary(&doc) {
        Err(ParseError::Malformed) => {}
        _ => panic!("expected a parse failure"),
    }
}

#[test]
fn trackpoint_without_heart_rate_is_malformed() {
    let doc = document(&[
        "<Trackpoint><DistanceMeters>500.0</DistanceMeters></Trackpoint>".to_string(),
    ]);
    match collect_summary(&doc) {
        Err(ParseError::Malformed) => {}
        _ => panic!("expected a parse failure"),
    }
}

#[test]
fn trackpoint_without_distance_is_malformed() {
    let doc = document(&[
        "<Trackpoint><HeartRateBpm><Value>120</Value></HeartRateBpm></Trackpoint>".to_string(),
    ]);
    match collect_summary(&doc) {
        Err(ParseError::Malformed) => {}
        _ => panic!("expected a parse failure"),
    }
}

#[test]
fn unterminated_trackpoint_is_malformed() {
    let doc = document(&[
        "<Trackpoint><DistanceMeters>500.0</DistanceMeters><HeartRateBpm><Value>120</Value></HeartRateBpm>".to_string(),
    ]);
    match collect_summary(&doc) {
        Err(ParseError::Malformed) => {}
        _ => panic!("expected a parse failure"),
    }
}

#[test]
fn non_numeric_heart_rate_is_malformed() {
    let doc = document(&[trackpoint("12a", "500.0")]);
    match collect_summary(&doc) {
        Err(ParseError::Malformed) => {}
        _ => panic!("expected a parse failure"),
    }
}

#[test]
fn heart_rate_too_large_is_malformed() {
    let doc = document(&[trackpoint("4294967296", "500.0")]);
    match collect_summary(&doc) {
        Err(ParseError::Malformed) => {}
        _ => panic!("expected a parse failure"),
    }
}

#[test]
fn distance_too_large_is_malformed() {
    let doc = document(&[trackpoint("120", "18446744073709551616.0")]);
    match collect_summary(&doc) {
        Err(ParseError::Malformed) => {}
        _ => panic!("expected a parse failure"),
    }
}

#[test]
fn bare_dot_distance_is_malformed() {
    let doc = document(&[trackpoint("120", "500.")]);
    match collect_summary(&doc) {
        Err(ParseError::Malformed) => {}
        _ => panic!("expected a parse failure"),
    }
}
