use chrono::{Datelike, NaiveDateTime, Timelike};
use movement_tracks_analyzer::datetime::{DateTime, TIME_FORMAT};
use movement_tracks_analyzer::format::{format_output, OutputFormat};
use movement_tracks_analyzer::metadata::TrackMetadata;
use movement_tracks_analyzer::numbers::{i64_text, u64_text, usize_text};
use movement_tracks_analyzer::parser::times_from_captures;

fn fields(d: NaiveDateTime) -> DateTime {
    DateTime {
        year: d.year(),
        month: d.month(),
        day: d.day(),
        hour: d.hour(),
        minute: d.minute(),
        second: d.second(),
        nanosecond: d.nanosecond(),
    }
}

fn parse_one(s: &str) -> Option<DateTime> {
    times_from_captures(Some(s.to_string()), Some("2000-01-01 00:00:00".to_string())).map(|p| p.0)
}

fn track(start: DateTime, end: DateTime) -> TrackMetadata {
    TrackMetadata {
        name: "t".to_string(),
        start_time: start,
        end_time: end,
        coordinates: vec![],
        category: String::new(),
        activity: String::new(),
        year: String::new(),
        month: String::new(),
    }
}

#[test]
fn parsing_agrees_with_chrono() {
    let samples = [
        "2026-03-01 08:00:00",
        "2026-3-1 8:0:0",
        "0000-01-01 00:00:00",
        "9999-12-31 23:59:59",
        "2016-12-31 23:59:60",
        "2026-03-01T08:00:00",
        "2026-03-01 08:00",
        "2026-02-29 00:00:00",
        "+12345-01-01 00:00:00",
        "-0044-03-15 12:00:00",
        " 2026-03-01 08:00:00",
        "2026-03-01 08:00:00 ",
        "",
    ];
    for s in samples {
        let ours = parse_one(s);
        let theirs = NaiveDateTime::parse_from_str(s, TIME_FORMAT).ok().map(fields);
        assert_eq!(ours, theirs, "{:?}", s);
        if let Some(t) = ours {
            assert!(t.is_valid());
        }
    }
}

#[test]
fn formatting_agrees_with_chrono() {
    let samples = [
        (2026, 3, 1, 8, 0, 0, 0),
        (5, 1, 2, 3, 4, 5, 0),
        (-44, 3, 15, 12, 0, 0, 0),
        (12345, 12, 31, 23, 59, 59, 999_999_999),
        (2016, 12, 31, 23, 59, 59, 1_000_000_000),
    ];
    for (y, mo, d, h, mi, s, n) in samples {
        let c = chrono::NaiveDate::from_ymd_opt(y, mo, d).unwrap().and_hms_nano_opt(h, mi, s, n).unwrap();
        let t = fields(c);
        assert!(t.is_valid());
        let tsv = format_output(OutputFormat::Tsv, &[(vec![], track(t, t))], &[0]);
        let row = tsv.lines().nth(1).unwrap();
        let cells: Vec<&str> = row.split('\t').collect();
        let expected = c.format(TIME_FORMAT).to_string();
        assert_eq!(cells[1], expected);
        assert_eq!(cells[2], expected);
        assert_eq!(cells[3], "0");
    }
}

#[test]
fn durations_agree_with_chrono() {
    let times = [
        "2026-03-01 08:00:00",
        "2026-03-01 08:00:01",
        "2016-12-31 23:59:60",
        "2017-01-01 00:00:00",
        "2016-12-31 23:59:59",
        "1900-02-28 12:00:00",
        "2000-02-29 12:00:00",
        "0001-01-01 00:00:00",
    ];
    for a in times {
        for b in times {
            let ca = NaiveDateTime::parse_from_str(a, TIME_FORMAT).unwrap();
            let cb = NaiveDateTime::parse_from_str(b, TIME_FORMAT).unwrap();
            let forward = track(fields(cb), fields(ca)).duration_seconds();
            let backward = track(fields(ca), fields(cb)).duration_seconds();
            assert_eq!(forward, ca.signed_duration_since(cb).num_seconds(), "{} - {}", a, b);
            assert_eq!(forward, -backward);
        }
    }
    let half = chrono::NaiveDate::from_ymd_opt(2026, 1, 1).unwrap().and_hms_nano_opt(0, 0, 1, 500_000_000).unwrap();
    let zero = chrono::NaiveDate::from_ymd_opt(2026, 1, 1).unwrap().and_hms_opt(0, 0, 0).unwrap();
    assert_eq!(track(fields(half), fields(zero)).duration_seconds(), -1);
    assert_eq!(track(fields(zero), fields(half)).duration_seconds(), 1);
}

#[test]
fn number_texts() {
    assert_eq!(u64_text(0), "0");
    assert_eq!(u64_text(u64::MAX), u64::MAX.to_string());
    assert_eq!(i64_text(i64::MIN), i64::MIN.to_string());
    assert_eq!(i64_text(-5400), "-5400");
    assert_eq!(usize_text(1234567), "1234567");
}
