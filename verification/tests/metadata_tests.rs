use movement_tracks_analyzer::datetime::{DateTime, TIME_FORMAT};
use movement_tracks_analyzer::metadata::TrackMetadata;
use movement_tracks_analyzer::parser::times_from_captures;

fn parse_time(s: &str) -> DateTime {
    let d = chrono::NaiveDateTime::parse_from_str(s, TIME_FORMAT).unwrap();
    DateTime {
        year: chrono::Datelike::year(&d),
        month: chrono::Datelike::month(&d),
        day: chrono::Datelike::day(&d),
        hour: chrono::Timelike::hour(&d),
        minute: chrono::Timelike::minute(&d),
        second: chrono::Timelike::second(&d),
        nanosecond: chrono::Timelike::nanosecond(&d),
    }
}


fn time(s: &str) -> DateTime {
    parse_time(s)
}

fn coordinate(lon: &str, lat: &str) -> (String, String) {
    (lon.to_string(), lat.to_string())
}

fn create_test_metadata() -> TrackMetadata {
    TrackMetadata {
        name: "Test Track".to_string(),
        start_time: time("2025-03-11 10:00:00"),
        end_time: time("2025-03-11 11:30:00"),
        coordinates: vec![
            coordinate("120.5", "24.7"),
            coordinate("120.51", "24.71"),
            coordinate("120.52", "24.72"),
        ],
        category: "戶外運動".to_string(),
        activity: "步行".to_string(),
        year: "2025".to_string(),
        month: "2025-03".to_string(),
    }
}

#[test]
fn test_duration_seconds() {
    let metadata = create_test_metadata();
    let duration = metadata.duration_seconds();
    assert_eq!(duration, 5400);
}

#[test]
fn test_duration_same_time() {
    let mut metadata = create_test_metadata();
    metadata.end_time = metadata.start_time;
    let duration = metadata.duration_seconds();
    assert_eq!(duration, 0);
}

#[test]
fn test_duration_negative() {
    let mut metadata = create_test_metadata();
    let temp = metadata.start_time;
    metadata.start_time = metadata.end_time;
    metadata.end_time = temp;
    let duration = metadata.duration_seconds();
    assert!(duration < 0);
}

#[test]
fn test_metadata_creation() {
    let metadata = create_test_metadata();
    assert_eq!(metadata.name, "Test Track");
    assert_eq!(metadata.category, "戶外運動");
    assert_eq!(metadata.activity, "步行");
    assert_eq!(metadata.coordinates.len(), 3);
}

#[test]
fn duration_swapped_is_negated() {
    let mut metadata = create_test_metadata();
    let forward = metadata.duration_seconds();
    std::mem::swap(&mut metadata.start_time, &mut metadata.end_time);
    assert_eq!(metadata.duration_seconds(), -forward);
}

#[test]
fn duration_across_years_and_leap_days() {
    let mut metadata = create_test_metadata();
    metadata.start_time = time("2023-12-31 23:59:59");
    metadata.end_time = time("2024-03-01 00:00:00");
    // 2024 is a leap year: January 31 days, February 29 days, plus one second.
    assert_eq!(metadata.duration_seconds(), (31 + 29) * 86400 + 1);
}

#[test]
fn duration_with_a_leap_second() {
    let mut metadata = create_test_metadata();
    metadata.start_time = time("2016-12-31 23:59:60");
    metadata.end_time = time("2017-01-01 00:00:00");
    let expected = chrono::NaiveDateTime::parse_from_str("2017-01-01 00:00:00", TIME_FORMAT)
        .unwrap()
        .signed_duration_since(
            chrono::NaiveDateTime::parse_from_str("2016-12-31 23:59:60", TIME_FORMAT).unwrap(),
        )
        .num_seconds();
    assert_eq!(metadata.duration_seconds(), expected);
}

#[test]
fn parsed_times_are_valid_and_others_are_checked() {
    let t = time("2024-02-29 23:59:60");
    assert!(t.is_valid());
    assert_eq!((t.second, t.nanosecond), (59, 1_000_000_000));
    let mut bad = t;
    bad.day = 30;
    assert!(!bad.is_valid());
    let mut bad = time("2023-02-28 10:00:00");
    bad.day = 29;
    assert!(!bad.is_valid());
    let mut bad = time("2023-02-28 10:00:00");
    bad.nanosecond = 1_000_000_000;
    assert!(!bad.is_valid());
    let ok = Some("2023-02-28 10:00:00".to_string());
    assert!(times_from_captures(Some("2023-02-29 10:00:00".to_string()), ok.clone()).is_none());
    assert!(times_from_captures(Some("2023-02-28 24:00:00".to_string()), ok).is_none());
}
