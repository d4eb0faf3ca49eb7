use movement_tracks_analyzer::datetime::{DateTime, TIME_FORMAT};
use movement_tracks_analyzer::parser::{
    extract_placemarks, extract_placemarks_with_paths, extract_times, is_kmz_file, parse_events,
    parse_kml_bytes, times_from_captures, XmlEvent,
};
use movement_tracks_analyzer::text::white_space;
use movement_tracks_analyzer::time_patterns::{
    create_time_pattern, find_end_time, find_start_time, DATETIME_PATTERN,
};
use movement_tracks_analyzer::AnalyzerError;

fn parse_time(s: &str) -> DateTime {
    let d = chrono::NaiveDateTime::parse_from_str(s, TIME_FORMAT).unwrap();
    DateTime {
        year: chrono::Datelike::year(&d),
        month: chrono::Datelike::month(&d),
        day: chrono::Datelike::day(&d),
        hour: chrono::Timelike::hour(&d),
        minute: chrono::Timelike::minute(&d),
        second: chrono::Timelike::second(&d),
        nanosecond: chrono::Timelike::nanosecond(&d),
    }
}


fn placemark_kml(folders: &[&str], name: &str, description: &str, coordinates: &str) -> String {
    let mut s = String::from("<?xml version=\"1.0\"?>\n<kml><Document>\n");
    for f in folders {
        s.push_str(&format!("<Folder><name>{}</name>\n", f));
    }
    s.push_str(&format!(
        "<Placemark><name>{}</name><description><![CDATA[{}]]></description><coordinates>{}</coordinates></Placemark>\n",
        name, description, coordinates
    ));
    for _ in folders {
        s.push_str("</Folder>\n");
    }
    s.push_str("</Document></kml>\n");
    s
}

const DESC: &str = "<b>Start:</b> 2026-03-01 08:00:00<br /><b>End:</b> 2026-03-01 09:30:00";

#[test]
fn kml_track_with_all_fields() {
    let kml = placemark_kml(
        &["移動軌跡", "戶外運動", "步行", "2026", "2026-03"],
        "Morning Walk",
        DESC,
        "120.5,24.7,0 120.51,24.71,0",
    );
    let data = extract_placemarks_with_paths("/home/u/移動軌跡.kml", kml.as_bytes()).unwrap();
    assert_eq!(data.len(), 1);
    let (path, meta) = &data[0];
    assert_eq!(path, &vec!["移動軌跡", "戶外運動", "步行", "2026", "2026-03"]);
    assert_eq!(meta.name, "Morning Walk");
    assert_eq!(meta.start_time, parse_time("2026-03-01 08:00:00"));
    assert_eq!(meta.end_time, parse_time("2026-03-01 09:30:00"));
    assert_eq!(
        meta.coordinates,
        vec![
            ("120.5".to_string(), "24.7".to_string()),
            ("120.51".to_string(), "24.71".to_string())
        ]
    );
    assert_eq!(
        (meta.category.as_str(), meta.activity.as_str(), meta.year.as_str(), meta.month.as_str()),
        ("戶外運動", "步行", "2026", "2026-03")
    );
    assert_eq!(meta.duration_seconds(), 5400);
}

#[test]
fn placemark_without_times_is_skipped() {
    let kml = placemark_kml(&["a"], "No times", "just a walk", "1,2");
    let data = extract_placemarks_with_paths("x.kml", kml.as_bytes()).unwrap();
    assert!(data.is_empty());
}

#[test]
fn placemark_with_an_invalid_date_is_skipped() {
    let desc = "<b>Start:</b> 2026-02-30 08:00:00<br /><b>End:</b> 2026-03-01 09:30:00";
    let kml = placemark_kml(&["a"], "Bad", desc, "1,2");
    let data = extract_placemarks_with_paths("x.kml", kml.as_bytes()).unwrap();
    assert!(data.is_empty());
}

#[test]
fn tracks_keep_document_order() {
    let mut kml = String::from("<kml><Document><Folder><name>f</name>");
    for i in 0..5 {
        kml.push_str(&format!(
            "<Placemark><name>T{}</name><description><![CDATA[{}]]></description></Placemark>",
            i, DESC
        ));
    }
    kml.push_str("</Folder></Document></kml>");
    let data = extract_placemarks_with_paths("f.kml", kml.as_bytes()).unwrap();
    let names: Vec<&str> = data.iter().map(|(_, m)| m.name.as_str()).collect();
    assert_eq!(names, vec!["T0", "T1", "T2", "T3", "T4"]);
    assert!(data[0].1.coordinates.is_empty());
}

#[test]
fn an_xml_error_is_a_parsing_error() {
    let kml = format!(
        "<kml><Placemark><name>A</name><description><![CDATA[{}]]></description></Placemark></wrong><Placemark><name>B</name><description><![CDATA[{}]]></description></Placemark></kml>",
        DESC, DESC
    );
    let err = parse_kml_bytes(kml.as_bytes(), "root").unwrap_err();
    assert!(matches!(err, AnalyzerError::ParsingError(_)));
    assert!(err.to_string().starts_with("Parsing error: "));
    let err = extract_placemarks_with_paths("tracks.kml", b"<Folder></Document>").unwrap_err();
    assert!(matches!(err, AnalyzerError::ParsingError(_)));
    // An empty text ends at once: no tracks and no error.
    assert!(extract_placemarks_with_paths("tracks.kml", b"").unwrap().is_empty());
}

#[test]
fn description_in_plain_text_is_read_as_written() {
    // Character data is taken as written: escaped markup does not match.
    let kml = "<kml><Placemark><name>A</name><description>&lt;b&gt;Start:&lt;/b&gt; 2026-03-01 08:00:00&lt;br /&gt;&lt;b&gt;End:&lt;/b&gt; 2026-03-01 09:30:00</description></Placemark></kml>";
    assert!(parse_kml_bytes(kml.as_bytes(), "r").unwrap().is_empty());
    // Unescaped text that the XML reader accepts as character data does match.
    let kml = "<kml><Placemark><name>A</name><description><![CDATA[<b>Start:</b> 2026-03-01 08:00:00<br />]]>x<![CDATA[<b>End:</b> 2026-03-01 09:30:00]]></description></Placemark></kml>";
    let data = parse_kml_bytes(kml.as_bytes(), "r").unwrap();
    assert_eq!(data.len(), 1);
}

#[test]
fn folder_names_come_from_the_first_name_of_each_folder() {
    let kml = format!(
        "<kml><Folder><name>outer</name><name>ignored</name><Folder><name>in</name><name>ner</name><Placemark><name>P</name><description><![CDATA[{}]]></description></Placemark></Folder></Folder></kml>",
        DESC
    );
    let data = parse_kml_bytes(kml.as_bytes(), "root").unwrap();
    assert_eq!(data[0].0, vec!["outer", "in"]);
}

#[test]
fn parse_events_reports_an_error_event() {
    let events = vec![
        XmlEvent::Start("Placemark".to_string()),
        XmlEvent::Error("ill-formed".to_string()),
        XmlEvent::Eof,
    ];
    match parse_events(&events, "r") {
        Err(AnalyzerError::ParsingError(m)) => assert_eq!(m, "ill-formed"),
        other => panic!("unexpected {:?}", other.map(|v| v.len())),
    }
    let events = vec![XmlEvent::Eof, XmlEvent::Error("after".to_string())];
    assert!(parse_events(&events, "r").unwrap().is_empty());
}

#[test]
fn parse_events_reads_up_to_the_end_of_the_document() {
    let events = vec![
        XmlEvent::Start("Folder".to_string()),
        XmlEvent::Start("name".to_string()),
        XmlEvent::Text("f".to_string()),
        XmlEvent::End("name".to_string()),
        XmlEvent::Start("Placemark".to_string()),
        XmlEvent::Start("name".to_string()),
        XmlEvent::Text("Walk".to_string()),
        XmlEvent::End("name".to_string()),
        XmlEvent::Start("description".to_string()),
        XmlEvent::CData(DESC.to_string()),
        XmlEvent::End("description".to_string()),
        XmlEvent::Start("coordinates".to_string()),
        XmlEvent::Text(" 1,2 3,4,5\n".to_string()),
        XmlEvent::End("coordinates".to_string()),
        XmlEvent::End("Placemark".to_string()),
        XmlEvent::Eof,
        XmlEvent::Start("Placemark".to_string()),
        XmlEvent::End("Placemark".to_string()),
    ];
    let data = parse_events(&events, "root").unwrap();
    assert_eq!(data.len(), 1);
    assert_eq!(data[0].0, vec!["f"]);
    assert_eq!(data[0].1.name, "Walk");
    assert_eq!(data[0].1.year, "f");
    assert_eq!(
        data[0].1.coordinates,
        vec![("1".to_string(), "2".to_string()), ("3".to_string(), "4".to_string())]
    );
}

#[test]
fn a_prefix_of_the_events_gives_a_prefix_of_the_tracks() {
    let mut events = Vec::new();
    for i in 0..3 {
        events.push(XmlEvent::Start("Placemark".to_string()));
        events.push(XmlEvent::Start("name".to_string()));
        events.push(XmlEvent::Text(format!("T{}", i)));
        events.push(XmlEvent::End("name".to_string()));
        events.push(XmlEvent::Start("description".to_string()));
        events.push(XmlEvent::CData(DESC.to_string()));
        events.push(XmlEvent::End("description".to_string()));
        events.push(XmlEvent::End("Placemark".to_string()));
    }
    let all = parse_events(&events, "r").unwrap();
    for k in 0..=events.len() {
        let part = parse_events(&events[..k].to_vec(), "r").unwrap();
        assert!(part.len() <= all.len());
        for (a, b) in part.iter().zip(all.iter()) {
            assert_eq!(a.1.name, b.1.name);
        }
    }
}

#[test]
fn extract_times_reads_both_times() {
    let (s, e) = extract_times(DESC).unwrap();
    assert_eq!(s, parse_time("2026-03-01 08:00:00"));
    assert_eq!(e, parse_time("2026-03-01 09:30:00"));
    assert!(extract_times("<b>Start:</b> 2026-03-01 08:00:00<br />").is_none());
    assert!(extract_times("<b>End:</b> 2026-03-01 08:00:00").is_none());
    // The start time needs the line break after it.
    assert!(extract_times("<b>Start:</b> 2026-03-01 08:00:00 <b>End:</b> 2026-03-01 09:00:00").is_none());
    // Digits of other scripts match the pattern but do not read as a time.
    assert!(extract_times("<b>Start:</b> ٢٠٢٦-٠٣-٠١ ٠٨:٠٠:٠٠<br /><b>End:</b> 2026-03-01 09:30:00").is_none());
}

#[test]
fn times_of_captured_texts() {
    let s = Some("2026-03-01 08:00:00".to_string());
    let e = Some("2026-03-01 09:30:00".to_string());
    let (a, b) = times_from_captures(s.clone(), e.clone()).unwrap();
    assert_eq!(a, parse_time("2026-03-01 08:00:00"));
    assert_eq!(b, parse_time("2026-03-01 09:30:00"));
    assert!(times_from_captures(None, e.clone()).is_none());
    assert!(times_from_captures(s.clone(), None).is_none());
    assert!(times_from_captures(Some("2026-02-30 00:00:00".to_string()), e).is_none());
}

#[test]
fn kmz_files_are_known_by_their_extension() {
    assert!(is_kmz_file("a/b/tracks.kmz"));
    assert!(is_kmz_file("tracks.KmZ"));
    assert!(!is_kmz_file("tracks.kml"));
    assert!(!is_kmz_file("kmz"));
    let kml = placemark_kml(&["a"], "A", DESC, "1,2");
    assert!(extract_placemarks(kml.as_bytes(), false, "a").is_ok());
    assert!(extract_placemarks(kml.as_bytes(), true, "a").is_err());
}

fn regex_first_capture(pattern: &str, text: &str) -> Option<String> {
    let re = regex::Regex::new(pattern).unwrap();
    re.captures(text).map(|c| c.get(1).unwrap().as_str().to_string())
}

#[test]
fn time_patterns_are_the_regex_patterns() {
    assert_eq!(DATETIME_PATTERN, r"(\d{4}-\d{2}-\d{2} \d{2}:\d{2}:\d{2})");
    assert_eq!(
        create_time_pattern("Start", true),
        r"<b>\s*Start\s*:\s*</b>\s*(\d{4}-\d{2}-\d{2} \d{2}:\d{2}:\d{2})<br />"
    );
    assert_eq!(
        create_time_pattern("End", false),
        r"<b>\s*End\s*:\s*</b>\s*(\d{4}-\d{2}-\d{2} \d{2}:\d{2}:\d{2})"
    );
}

#[test]
fn compiled_patterns_capture_the_leftmost_time() {
    let start = regex::Regex::new(&create_time_pattern("Start", true)).unwrap();
    let end = regex::Regex::new(&create_time_pattern("End", false)).unwrap();
    let samples = [
        DESC,
        "",
        "<b>Start:</b>2026-03-01 08:00:00<br />",
        "<b> \t Start \n : </b>\u{3000}2026-03-01 08:00:00<br /><b>End :</b>2026-13-45 99:99:99",
        "<b>Start:</b> 2026-03-01 08:00:00<br/><b>Start:</b> 1999-01-01 00:00:00<br />",
        "<b>End:</b> 2026-03-01 08:00:0",
        "<b><b>End:</b> 2026-03-01 08:00:00",
        "xx<b>End:</b>\u{85}2026-03-01 08:00:00<b>End:</b> 1111-11-11 11:11:11",
    ];
    let cap = |re: &regex::Regex, s: &str| re.captures(s).map(|c| c.get(1).unwrap().as_str().to_string());
    for s in samples {
        assert_eq!(find_start_time(s), cap(&start, s), "start of {:?}", s);
        assert_eq!(find_end_time(s), cap(&end, s), "end of {:?}", s);
    }
    assert_eq!(
        find_start_time("<b>Start:</b> 2026-03-01 08:00:00<br/><b>Start:</b> 1999-01-01 00:00:00<br />"),
        Some("1999-01-01 00:00:00".to_string())
    );
}

fn chars_matching(class: &str) -> std::collections::HashSet<char> {
    let all: String = (0..=0x10FFFFu32).filter_map(char::from_u32).collect();
    let re = regex::Regex::new(class).unwrap();
    re.find_iter(&all).map(|m| m.as_str().chars().next().unwrap()).collect()
}

#[test]
fn white_space_is_the_regex_class() {
    let matched = chars_matching(r"\s");
    for c in (0..=0x10FFFFu32).filter_map(char::from_u32) {
        assert_eq!(white_space(c), matched.contains(&c), "{:?}", c);
        assert_eq!(white_space(c), c.is_whitespace(), "{:?}", c);
    }
}
