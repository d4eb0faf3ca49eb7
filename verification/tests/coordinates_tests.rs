use movement_tracks_analyzer::coordinates::{parse_coordinates, parses_as_f64};

#[test]
fn number_grammar_agrees_with_f64_parsing() {
    let samples = [
        "0", "1", "-1", "+1", "1.", ".5", "-.5", "+.5e3", ".", "", "-", "+", "1e", "1e+", "1e-5",
        "1E5", "1.5e10", "e5", "inf", "-inf", "+infinity", "Infinity", "INF", "nan", "NaN", "-nan",
        "infx", "na", "1_000", "0x10", "1.2.3", "12abc", " 1", "1 ", "٣", "1e99999", "00.00",
        "-0", "+-1", "--1", "1e+-5", "120.5", "24.71", "1.e5", ".e5", "inF", "iNfInItY",
    ];
    for s in samples {
        assert_eq!(parses_as_f64(s), s.parse::<f64>().is_ok(), "{:?}", s);
    }
}

#[test]
fn coordinate_tokens() {
    let v = parse_coordinates("  120.5,24.7,0\n\t120.51,24.71 bad,1 1,bad 7 8,9,extra,more\u{3000}-1e3,+.5 ");
    assert_eq!(
        v,
        vec![
            ("120.5".to_string(), "24.7".to_string()),
            ("120.51".to_string(), "24.71".to_string()),
            ("8".to_string(), "9".to_string()),
            ("-1e3".to_string(), "+.5".to_string()),
        ]
    );
    assert!(parse_coordinates("").is_empty());
    assert!(parse_coordinates(" \n ").is_empty());
    assert_eq!(parse_coordinates("1,2,"), vec![("1".to_string(), "2".to_string())]);
    assert!(parse_coordinates(",2").is_empty());
}
