use movement_tracks_analyzer::{AnalyzerError, Result};
use std::io;

#[test]
fn test_analyzer_error_display() {
    let err = AnalyzerError::FileNotFound("/path/to/file.kml".to_string());
    assert_eq!(err.to_string(), "File not found: /path/to/file.kml");
}

#[test]
fn test_analyzer_error_parsing() {
    let err = AnalyzerError::ParsingError("Invalid XML format".to_string());
    assert_eq!(err.to_string(), "Parsing error: Invalid XML format");
}

#[test]
fn test_analyzer_error_from_string() {
    let err: AnalyzerError = "Test error".into();
    assert!(matches!(err, AnalyzerError::Other(_)));
    assert_eq!(err.to_string(), "Test error");
}

#[test]
fn test_analyzer_error_from_io_error() {
    let io_err = io::Error::new(io::ErrorKind::NotFound, "file not found");
    let err: AnalyzerError = io_err.into();
    assert!(matches!(err, AnalyzerError::Io(_)));
}

#[test]
fn test_result_type_alias() {
    let result: Result<String> = Ok("Success".to_string());
    assert!(result.is_ok());

    let error_result: Result<String> = Err(AnalyzerError::Other("Error".to_string()));
    assert!(error_result.is_err());
}

#[test]
fn test_analyzer_error_kmz() {
    let err = AnalyzerError::KmzError("No KML file found in KMZ archive".to_string());
    assert_eq!(err.to_string(), "KMZ error: No KML file found in KMZ archive");
}

#[test]
fn test_analyzer_error_from_zip_error() {
    let zip_err = zip::result::ZipError::FileNotFound;
    let err: AnalyzerError = zip_err.into();
    assert!(matches!(err, AnalyzerError::KmzError(_)));
}

#[test]
fn zip_error_message_is_the_zip_crate_text() {
    let zip_err = zip::result::ZipError::FileNotFound;
    let expected = format!("KMZ error: {}", zip::result::ZipError::FileNotFound);
    let err: AnalyzerError = zip_err.into();
    assert_eq!(err.to_string(), expected);
}

#[test]
fn io_error_message_starts_with_io_error() {
    let io_err = std::io::Error::new(std::io::ErrorKind::NotFound, "file not found");
    let err: AnalyzerError = io_err.into();
    assert_eq!(err.to_string(), "IO error: file not found");
}

#[test]
fn every_error_kind_has_its_message() {
    assert_eq!(
        AnalyzerError::TimeParsingError("bad".to_string()).to_string(),
        "Time parsing error: bad"
    );
    assert_eq!(
        AnalyzerError::CoordinateParsingError("1,x".to_string()).to_string(),
        "Coordinate parsing error: 1,x"
    );
    assert_eq!(AnalyzerError::Other(String::new()).to_string(), "");
    let from_owned: AnalyzerError = String::from("owned").into();
    assert!(matches!(from_owned, AnalyzerError::Other(ref m) if m == "owned"));
}
