use movement_tracks_analyzer::datetime::{DateTime, TIME_FORMAT};
use movement_tracks_analyzer::format::{format_output, OutputFormat};
use movement_tracks_analyzer::metadata::TrackMetadata;
use unicode_width::UnicodeWidthStr;

fn parse_time(s: &str) -> DateTime {
    let d = chrono::NaiveDateTime::parse_from_str(s, TIME_FORMAT).unwrap();
    DateTime {
        year: chrono::Datelike::year(&d),
        month: chrono::Datelike::month(&d),
        day: chrono::Datelike::day(&d),
        hour: chrono::Timelike::hour(&d),
        minute: chrono::Timelike::minute(&d),
        second: chrono::Timelike::second(&d),
        nanosecond: chrono::Timelike::nanosecond(&d),
    }
}


fn track(name: &str, start: &str, end: &str, points: usize, labels: [&str; 4]) -> (Vec<String>, TrackMetadata) {
    let coordinates = (0..points).map(|i| (format!("120.{}", i), "24.7".to_string())).collect();
    let meta = TrackMetadata {
        name: name.to_string(),
        start_time: parse_time(start),
        end_time: parse_time(end),
        coordinates,
        category: labels[0].to_string(),
        activity: labels[1].to_string(),
        year: labels[2].to_string(),
        month: labels[3].to_string(),
    };
    (labels.iter().map(|s| s.to_string()).collect(), meta)
}

fn sample() -> Vec<(Vec<String>, TrackMetadata)> {
    vec![
        track("Morning \"Walk\"", "2026-03-01 08:00:00", "2026-03-01 09:30:00", 3, ["戶外運動", "步行", "2026", "2026-03"]),
        track("Flight, long", "2026-02-10 23:00:00", "2026-02-11 01:00:05", 0, ["動力交通工具", "飛機", "2026", "2026-02"]),
    ]
}

#[test]
fn csv_report() {
    let out = format_output(OutputFormat::Csv, &sample(), &[1234, 0]);
    assert_eq!(
        out,
        "Name,Start,End,Duration (seconds),Distance (meters),Points,Category,Activity,Year,Month\n\
         \"Morning \"\"Walk\"\"\",2026-03-01 08:00:00,2026-03-01 09:30:00,5400,1234,3,戶外運動,步行,2026,2026-03\n\
         \"Flight, long\",2026-02-10 23:00:00,2026-02-11 01:00:05,7205,0,0,動力交通工具,飛機,2026,2026-02\n"
    );
}

#[test]
fn tsv_report() {
    let out = format_output(OutputFormat::Tsv, &sample(), &[1234, 0]);
    assert_eq!(
        out,
        "Name\tStart\tEnd\tDuration (seconds)\tDistance (meters)\tPoints\tCategory\tActivity\tYear\tMonth\n\
         Morning \"Walk\"\t2026-03-01 08:00:00\t2026-03-01 09:30:00\t5400\t1234\t3\t戶外運動\t步行\t2026\t2026-03\n\
         Flight, long\t2026-02-10 23:00:00\t2026-02-11 01:00:05\t7205\t0\t0\t動力交通工具\t飛機\t2026\t2026-02\n"
    );
}

#[test]
fn empty_reports() {
    assert_eq!(
        format_output(OutputFormat::Csv, &[], &[]),
        "Name,Start,End,Duration (seconds),Distance (meters),Points,Category,Activity,Year,Month\n"
    );
    assert_eq!(format_output(OutputFormat::Json, &[], &[]), "[]");
}

fn expected_json(tracks: &[(Vec<String>, TrackMetadata)], distances: &[u64]) -> String {
    let records: Vec<serde_json::Value> = tracks
        .iter()
        .zip(distances)
        .map(|((_, m), d)| {
            let mut o = serde_json::Map::new();
            o.insert("name".to_string(), serde_json::Value::from(m.name.clone()));
            o.insert("start_time".to_string(), serde_json::Value::from(
                chrono::NaiveDateTime::parse_from_str(&start_text(m), TIME_FORMAT).unwrap().format(TIME_FORMAT).to_string(),
            ));
            o.insert("end_time".to_string(), serde_json::Value::from(end_text(m)));
            o.insert("duration_seconds".to_string(), serde_json::Value::from(m.duration_seconds()));
            o.insert("distance_meters".to_string(), serde_json::Value::from(*d));
            o.insert("coordinate_count".to_string(), serde_json::Value::from(m.coordinates.len()));
            o.insert("category".to_string(), serde_json::Value::from(m.category.clone()));
            o.insert("activity".to_string(), serde_json::Value::from(m.activity.clone()));
            o.insert("year".to_string(), serde_json::Value::from(m.year.clone()));
            o.insert("month".to_string(), serde_json::Value::from(m.month.clone()));
            serde_json::Value::Object(o)
        })
        .collect();
    serde_json::to_string_pretty(&records).unwrap()
}

fn start_text(m: &TrackMetadata) -> String {
    let t = m.start_time;
    format!("{:04}-{:02}-{:02} {:02}:{:02}:{:02}", t.year, t.month, t.day, t.hour, t.minute, t.second)
}

fn end_text(m: &TrackMetadata) -> String {
    let t = m.end_time;
    format!("{:04}-{:02}-{:02} {:02}:{:02}:{:02}", t.year, t.month, t.day, t.hour, t.minute, t.second)
}

#[test]
fn json_report_is_the_pretty_serde_json_text() {
    let tracks = sample();
    let out = format_output(OutputFormat::Json, &tracks, &[1234, 0]);
    assert_eq!(out, expected_json(&tracks, &[1234, 0]));
    assert!(out.contains("2026-03"));
}

#[test]
fn json_escapes_control_and_unicode_text() {
    let tracks = vec![track("tab\there \u{1}\u{7f} \\ / é 漢 \u{1F600}", "2026-03-01 08:00:00", "2026-03-01 07:00:00", 1, ["", "", "", ""])];
    let out = format_output(OutputFormat::Json, &tracks, &[u64::MAX]);
    assert_eq!(out, expected_json(&tracks, &[u64::MAX]));
    assert!(out.contains("\"duration_seconds\": -3600"));
}

fn cell(text: &str, width: usize, col: usize) -> String {
    let w = text.width();
    if w >= width {
        text.to_string()
    } else if (3..=5).contains(&col) {
        format!("{}{}", " ".repeat(width - w), text)
    } else {
        format!("{}{}", text, " ".repeat(width - w))
    }
}

#[test]
fn table_report_aligns_wide_characters() {
    let tracks = sample();
    let out = format_output(OutputFormat::Table, &tracks, &[1234, 0]);
    let headers = ["Name", "Start", "End", "Duration (s)", "Distance (m)", "Points", "Category", "Activity", "Year", "Month"];
    let rows: Vec<Vec<String>> = vec![
        vec!["Morning \"Walk\"", "2026-03-01 08:00:00", "2026-03-01 09:30:00", "5400", "1234", "3", "戶外運動", "步行", "2026", "2026-03"],
        vec!["Flight, long", "2026-02-10 23:00:00", "2026-02-11 01:00:05", "7205", "0", "0", "動力交通工具", "飛機", "2026", "2026-02"],
    ]
    .into_iter()
    .map(|r| r.into_iter().map(String::from).collect())
    .collect();
    let widths: Vec<usize> = (0..10)
        .map(|i| rows.iter().map(|r| r[i].width()).chain([headers[i].width()]).max().unwrap())
        .collect();
    let mut expected = String::new();
    for (i, h) in headers.iter().enumerate() {
        expected.push_str(&cell(h, widths[i], i));
        expected.push(' ');
    }
    expected.push('\n');
    for w in &widths {
        expected.push_str(&"-".repeat(*w));
        expected.push(' ');
    }
    expected.push('\n');
    for r in &rows {
        for (i, v) in r.iter().enumerate() {
            expected.push_str(&cell(v, widths[i], i));
            expected.push(' ');
        }
        expected.push('\n');
    }
    assert_eq!(out, expected);
    // The category column holds 動力交通工具: six wide characters, twelve columns.
    assert_eq!(widths[6], 12);
    assert!(out.contains("Distance"));
}

#[test]
fn table_of_no_tracks_has_headers_and_dashes() {
    let out = format_output(OutputFormat::Table, &[], &[]);
    assert_eq!(
        out,
        "Name Start End Duration (s) Distance (m) Points Category Activity Year Month \n\
         ---- ----- --- ------------ ------------ ------ -------- -------- ---- ----- \n"
    );
}

/// Reads one RFC 4180 record (without its line break).
fn read_record(line: &str) -> Vec<String> {
    let chars: Vec<char> = line.chars().collect();
    let (mut fields, mut i) = (Vec::new(), 0);
    loop {
        let mut field = String::new();
        if i < chars.len() && chars[i] == '"' {
            i += 1;
            while i < chars.len() {
                if chars[i] == '"' {
                    if i + 1 < chars.len() && chars[i + 1] == '"' {
                        field.push('"');
                        i += 2;
                        continue;
                    }
                    i += 1;
                    break;
                }
                field.push(chars[i]);
                i += 1;
            }
        } else {
            while i < chars.len() && chars[i] != ',' {
                field.push(chars[i]);
                i += 1;
            }
        }
        fields.push(field);
        if i < chars.len() && chars[i] == ',' {
            i += 1;
        } else {
            return fields;
        }
    }
}

#[test]
fn a_csv_line_reads_back_as_its_cells() {
    let mut t = track("a \"b\", c\nd", "2026-03-01 08:00:00", "2026-03-01 07:59:59", 2, ["x", "y", "2026", "2026-03"]);
    t.1.name.push('"');
    let out = format_output(OutputFormat::Csv, &[t.clone()], &[7]);
    let line = out.strip_prefix(
        "Name,Start,End,Duration (seconds),Distance (meters),Points,Category,Activity,Year,Month\n",
    ).unwrap();
    let line = line.strip_suffix('\n').unwrap();
    assert_eq!(
        read_record(line),
        vec![
            t.1.name.clone(),
            "2026-03-01 08:00:00".to_string(),
            "2026-03-01 07:59:59".to_string(),
            "-1".to_string(),
            "7".to_string(),
            "2".to_string(),
            "x".to_string(),
            "y".to_string(),
            "2026".to_string(),
            "2026-03".to_string(),
        ]
    );
}

#[test]
fn padded_cells_take_their_column_width() {
    let tracks = sample();
    let out = format_output(OutputFormat::Table, &tracks, &[1234, 0]);
    let widths: Vec<usize> = out.lines().nth(1).unwrap().split(' ').filter(|d| !d.is_empty()).map(|d| d.len()).collect();
    assert_eq!(widths.len(), 10);
    let total: usize = widths.iter().sum::<usize>() + 10;
    for line in out.lines() {
        assert_eq!(line.width(), total, "{:?}", line);
    }
}
