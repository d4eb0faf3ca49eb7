use movement_tracks_analyzer::parser::extract_placemarks_with_paths;
use movement_tracks_analyzer::AnalyzerError;
use std::io::{Cursor, Write};
use zip::write::{SimpleFileOptions, ZipWriter};

const TRACKS_KML: &str = r#"<?xml version="1.0" encoding="UTF-8"?>
<kml xmlns="http://www.opengis.net/kml/2.2">
<Document>
<name>tracks</name>
<Folder><name>tracks</name>
  <Folder><name>戶外運動</name>
    <Folder><name>步行</name>
      <Folder><name>2026</name>
        <Folder><name>2026-03</name>
          <Placemark>
            <name>Morning Walk</name>
            <description><![CDATA[<b>Start:</b> 2026-03-01 08:00:00<br /><b>End:</b> 2026-03-01 09:30:00]]></description>
            <LineString><coordinates>120.5,24.7,0 120.51,24.71,0</coordinates></LineString>
          </Placemark>
          <Placemark>
            <name>Evening Walk</name>
            <description><![CDATA[<b>Start:</b> 2026-03-02 18:00:00<br /><b>End:</b> 2026-03-02 18:45:00]]></description>
            <LineString><coordinates>120.6,24.8,0</coordinates></LineString>
          </Placemark>
        </Folder>
      </Folder>
    </Folder>
  </Folder>
</Folder>
</Document>
</kml>
"#;

fn kmz_with(entries: &[(&str, &[u8])]) -> Vec<u8> {
    let mut writer = ZipWriter::new(Cursor::new(Vec::new()));
    let options = SimpleFileOptions::default();
    for (name, content) in entries {
        writer.start_file(*name, options).unwrap();
        writer.write_all(content).unwrap();
    }
    writer.finish().unwrap().into_inner()
}

#[test]
fn test_parse_kmz_with_doc_kml() {
    let content = kmz_with(&[("doc.kml", TRACKS_KML.as_bytes())]);
    let result = extract_placemarks_with_paths("tests/fixtures/tracks.kmz", &content);
    assert!(result.is_ok(), "Failed to parse KMZ: {:?}", result.err());
    let data = result.unwrap();
    assert!(!data.is_empty(), "KMZ parsing should return placemarks");
}

#[test]
fn test_parse_kmz_without_doc_kml() {
    let content = kmz_with(&[
        ("images/readme.txt", b"not a track".as_slice()),
        ("tracks.kml", TRACKS_KML.as_bytes()),
    ]);
    let result = extract_placemarks_with_paths("tests/fixtures/tracks_no_doc.kmz", &content);
    assert!(result.is_ok(), "Failed to parse KMZ without doc.kml: {:?}", result.err());
    let data = result.unwrap();
    assert!(!data.is_empty(), "KMZ fallback parsing should return placemarks");
}

#[test]
fn test_parse_kmz_no_kml_inside() {
    let content = kmz_with(&[("readme.txt", b"nothing here".as_slice())]);
    let result = extract_placemarks_with_paths("tests/fixtures/empty.kmz", &content);
    assert!(result.is_err(), "Parsing KMZ without KML should fail");
    let err = result.unwrap_err();
    assert!(matches!(err, AnalyzerError::KmzError(_)), "Expected KmzError, got: {:?}", err);
    assert_eq!(err.to_string(), "KMZ error: No KML file found in KMZ archive");
}

#[test]
fn test_kmz_and_kml_produce_same_results() {
    let kmz = kmz_with(&[("doc.kml", TRACKS_KML.as_bytes())]);
    let kml_result =
        extract_placemarks_with_paths("tests/fixtures/tracks.kml", TRACKS_KML.as_bytes()).unwrap();
    let kmz_result = extract_placemarks_with_paths("tests/fixtures/tracks.kmz", &kmz).unwrap();

    assert_eq!(
        kml_result.len(),
        kmz_result.len(),
        "KML and KMZ should produce the same number of placemarks"
    );
    for (i, ((kml_path, kml_meta), (kmz_path, kmz_meta))) in
        kml_result.iter().zip(kmz_result.iter()).enumerate()
    {
        assert_eq!(kml_path, kmz_path, "Placemark {} folder path mismatch", i);
        assert_eq!(kml_meta.name, kmz_meta.name, "Placemark {} name mismatch", i);
        assert_eq!(kml_meta.category, kmz_meta.category, "Placemark {} category mismatch", i);
    }
}

#[test]
fn doc_kml_is_preferred_over_an_earlier_kml_entry() {
    let other = TRACKS_KML.replace("Morning Walk", "Other Walk");
    let content = kmz_with(&[("a.kml", other.as_bytes()), ("doc.kml", TRACKS_KML.as_bytes())]);
    let data = extract_placemarks_with_paths("tracks.kmz", &content).unwrap();
    assert_eq!(data[0].1.name, "Morning Walk");
}

#[test]
fn kml_extension_of_an_entry_is_matched_in_any_case() {
    let content = kmz_with(&[("notes.txt", b"x".as_slice()), ("TRACKS.KML", TRACKS_KML.as_bytes())]);
    let data = extract_placemarks_with_paths("tracks.kmz", &content).unwrap();
    assert_eq!(data.len(), 2);
}

#[test]
fn a_broken_archive_is_a_kmz_error() {
    let result = extract_placemarks_with_paths("broken.KMZ", b"this is not a zip file");
    let err = result.unwrap_err();
    assert!(matches!(err, AnalyzerError::KmzError(_)));
}

#[test]
fn kmz_tracks_carry_their_labels() {
    let content = kmz_with(&[("doc.kml", TRACKS_KML.as_bytes())]);
    let data = extract_placemarks_with_paths("/data/tracks.kmz", &content).unwrap();
    let (path, meta) = &data[0];
    assert_eq!(path, &vec!["tracks", "戶外運動", "步行", "2026", "2026-03"]);
    assert_eq!(meta.category, "戶外運動");
    assert_eq!(meta.activity, "步行");
    assert_eq!(meta.year, "2026");
    assert_eq!(meta.month, "2026-03");
}

#[test]
fn an_xml_error_in_the_archive_is_the_error_of_its_kml() {
    let broken = "<kml><Folder></Document></kml>";
    let content = kmz_with(&[("doc.kml", broken.as_bytes())]);
    let from_kmz = extract_placemarks_with_paths("t.kmz", &content).unwrap_err();
    let from_kml = extract_placemarks_with_paths("t.kml", broken.as_bytes()).unwrap_err();
    assert!(matches!(from_kmz, AnalyzerError::ParsingError(_)));
    assert_eq!(from_kmz.to_string(), from_kml.to_string());
}
