use run_report::activity::summarize;
use run_report::activity::Sample;
use run_report::digits::u32_to_string;
use run_report::fitbit::{
    basic_auth_value, format_split_time, select_latest, Activity, ActivityOutput,
};

fn activity(name: &str, id: u64) -> Activity {
    Activity {
        log_id: id,
        activity_name: name.to_string(),
        activity_type_id: 90009,
        start_time: "2024-05-01T07:30:00.000+09:00".to_string(),
        distance_milli_km: Some(5230),
        duration: 1_800_000,
        calories: 321,
    }
}

#[test]
fn picks_the_first_matching_activity() {
    let activities = vec![activity("Walk", 1), activity("Run", 2), activity("Run", 3)];
    let category = "Run".to_string();
    assert_eq!(select_latest(&activities, &category), Some(1));
}

#[test]
fn no_matching_activity_is_none() {
    let activities = vec![activity("Walk", 1), activity("Bike", 2)];
    let category = "Run".to_string();
    assert_eq!(select_latest(&activities, &category), None);
}

#[test]
fn matching_is_case_sensitive() {
    let activities = vec![activity("run", 1)];
    let category = "Run".to_string();
    assert_eq!(select_latest(&activities, &category), None);
}

#[test]
fn split_times_render_as_minutes_and_seconds() {
    assert_eq!(format_split_time(450), "7m30s");
    assert_eq!(format_split_time(59), "0m59s");
    assert_eq!(format_split_time(60), "1m0s");
    assert_eq!(format_split_time(0), "0m0s");
}

#[test]
fn decimal_rendering() {
    assert_eq!(u32_to_string(0), "0");
    assert_eq!(u32_to_string(7), "7");
    assert_eq!(u32_to_string(1234567890), "1234567890");
}

#[test]
fn basic_auth_encodes_the_credential_pair() {
    let id = "user".to_string();
    let secret = "pass".to_string();
    assert_eq!(basic_auth_value(&id, &secret), "Basic dXNlcjpwYXNz");
}

#[test]
fn report_combines_activity_and_summary() {
    let samples = vec![
        Sample { heart_rate: 100, distance_whole_m: 500, distance_has_fraction: false },
        Sample { heart_rate: 120, distance_whole_m: 1000, distance_has_fraction: false },
        Sample { heart_rate: 160, distance_whole_m: 2000, distance_has_fraction: false },
    ];
    let summary = summarize(&samples).unwrap();
    let act = activity("Run", 7);
    let output = ActivityOutput::new(&act, &summary);
    assert_eq!(output.start_time, act.start_time);
    assert_eq!(output.distance_milli_km, Some(5230));
    assert_eq!(output.duration, 1_800_000);
    assert_eq!(output.calories, 321);
    assert_eq!(output.heart_rate_average, 126);
    assert_eq!(output.heart_rate_max, 160);
    assert_eq!(output.split_times, vec!["0m2s".to_string(), "0m1s".to_string()]);
    assert_eq!(
        output.heart_rate_details,
        vec![
            ("<115".to_string(), 1u32),
            ("-150".to_string(), 1u32),
            (">150".to_string(), 1u32),
        ]
    );
}
