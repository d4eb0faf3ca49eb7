use movement_tracks_analyzer::cli::{Args, OutputFormatArg, OutputTypeArg};
use movement_tracks_analyzer::config::OutputType;
use movement_tracks_analyzer::converter::{build_config, resolve_format};
use movement_tracks_analyzer::format::OutputFormat;
use movement_tracks_analyzer::output::{
    determine_file_path, get_default_filename, has_file_extension, resolve_export_path,
};
use movement_tracks_analyzer::path_resolver::{
    check_path_with_filenames, first_existing, resolve_kml_file,
};
use movement_tracks_analyzer::AnalyzerError;
use std::path::Path;

#[test]
fn default_file_names() {
    assert_eq!(get_default_filename(OutputFormat::Json), "tracks_output.json");
    assert_eq!(get_default_filename(OutputFormat::Csv), "tracks_output.csv");
    assert_eq!(get_default_filename(OutputFormat::Tsv), "tracks_output.tsv");
    assert_eq!(get_default_filename(OutputFormat::Table), "tracks_output.csv");
}

#[test]
fn export_paths() {
    assert_eq!(determine_file_path(&None, OutputFormat::Tsv), "tracks_output.tsv");
    assert_eq!(determine_file_path(&Some("/tmp/data.csv".to_string()), OutputFormat::Json), "/tmp/data.csv");
    let dir = Path::new("/tmp").join("tracks_output.json").to_string_lossy().into_owned();
    assert_eq!(determine_file_path(&Some("/tmp".to_string()), OutputFormat::Json), dir);
    assert_eq!(resolve_export_path("out/report.txt", OutputFormat::Csv), "out/report.txt");
    assert!(has_file_extension("a/b.c"));
    assert!(!has_file_extension("a/b"));
    assert!(!has_file_extension(".hidden"));
}

#[test]
fn a_table_for_a_file_becomes_csv() {
    assert_eq!(resolve_format(OutputFormatArg::Table, OutputType::File), OutputFormat::Csv);
    assert_eq!(resolve_format(OutputFormatArg::Table, OutputType::Shell), OutputFormat::Table);
    assert_eq!(resolve_format(OutputFormatArg::Json, OutputType::File), OutputFormat::Json);
    assert_eq!(resolve_format(OutputFormatArg::Tsv, OutputType::Shell), OutputFormat::Tsv);
}

#[test]
fn config_from_arguments() {
    let args = Args {
        file: Some("tracks.kml".to_string()),
        output: OutputTypeArg::File,
        format: OutputFormatArg::Table,
        export: Some("/tmp".to_string()),
    };
    let config = build_config(args, true, None, None).unwrap();
    assert_eq!(config.kml_file, "tracks.kml");
    assert_eq!(config.output_type, OutputType::File);
    assert_eq!(config.format, OutputFormat::Csv);
    assert_eq!(config.export_path, Some("/tmp".to_string()));

    let defaults = Args {
        file: None,
        output: OutputTypeArg::Shell,
        format: OutputFormatArg::Table,
        export: None,
    };
    let config = build_config(defaults, false, None, Some("c/Movement Tracks.kml".to_string())).unwrap();
    assert_eq!(config.kml_file, "c/Movement Tracks.kml");
    assert_eq!(config.format, OutputFormat::Table);
}

#[test]
fn config_fails_with_the_file_choice() {
    let args = Args {
        file: Some("missing.kml".to_string()),
        output: OutputTypeArg::File,
        format: OutputFormatArg::Csv,
        export: None,
    };
    let err = build_config(args, false, Some("x.kml".to_string()), None).unwrap_err();
    assert!(matches!(err, AnalyzerError::Other(_)));
    assert_eq!(err.to_string(), "File not found: missing.kml");
}

#[test]
fn kml_file_resolution() {
    let given = resolve_kml_file(Some("a.kml".to_string()), true, None, None).unwrap();
    assert_eq!(given, "a.kml");
    let missing = resolve_kml_file(Some("a.kml".to_string()), false, Some("b.kml".to_string()), None);
    match missing {
        Err(AnalyzerError::Other(m)) => assert_eq!(m, "File not found: a.kml"),
        other => panic!("unexpected {:?}", other),
    }
    assert_eq!(resolve_kml_file(None, false, Some("d/移動軌跡.kml".to_string()), Some("c/x.kml".to_string())).unwrap(), "d/移動軌跡.kml");
    assert_eq!(resolve_kml_file(None, false, None, Some("c/x.kml".to_string())).unwrap(), "c/x.kml");
    let none = resolve_kml_file(None, false, None, None).unwrap_err();
    assert_eq!(
        none.to_string(),
        "No KML/KMZ file found. Please specify with -f / --file or place 移動軌跡.kml (.kmz) or Movement Tracks.kml (.kmz) in the current directory."
    );
}

#[test]
fn default_files_are_looked_for_in_order() {
    let paths = check_path_with_filenames("/data");
    let expected: Vec<String> = ["移動軌跡.kml", "Movement Tracks.kml", "移動軌跡.kmz", "Movement Tracks.kmz"]
        .iter()
        .map(|f| Path::new("/data").join(f).to_string_lossy().into_owned())
        .collect();
    assert_eq!(paths, expected);
}

#[test]
fn the_first_existing_default_file_is_chosen() {
    let paths = check_path_with_filenames("/data");
    assert_eq!(first_existing(&paths, &vec![false, true, true, false]), Some(paths[1].clone()));
    assert_eq!(first_existing(&paths, &vec![true, true, true, true]), Some(paths[0].clone()));
    assert_eq!(first_existing(&paths, &vec![false, false, false, true]), Some(paths[3].clone()));
    assert_eq!(first_existing(&paths, &vec![false; 4]), None);
}
