//! Where a report file goes.
use vstd::prelude::*;
use crate::format::OutputFormat;
use crate::paths::{path_extension, path_join, std_path_extension, std_path_join};

verus! {

/// The default name of the report file of a format (a table is written as
/// CSV).
pub open spec fn spec_default_filename(format: OutputFormat) -> Seq<char> {
    match format {
        OutputFormat::Json => "tracks_output.json"@,
        OutputFormat::Csv => "tracks_output.csv"@,
        OutputFormat::Tsv => "tracks_output.tsv"@,
        OutputFormat::Table => "tracks_output.csv"@,
    }
}

/// The default name of the report file of a format.
pub fn get_default_filename(format: OutputFormat) -> (r: String)
    ensures
        r@ == spec_default_filename(format),
{
    let filename = match format {
        OutputFormat::Json => "tracks_output.json",
        OutputFormat::Csv => "tracks_output.csv",
        OutputFormat::Tsv => "tracks_output.tsv",
        OutputFormat::Table => "tracks_output.csv",
    };
    String::from_str(filename)
}

/// Whether the last component of a path has an extension
/// (`Path::extension`).
pub fn has_file_extension(path: &str) -> (r: bool)
    ensures
        r == std_path_extension(path@) is Some,
{
    path_extension(path).is_some()
}

/// The report file for a path given by the user: the path itself when it has
/// an extension, else the default file name within it (as a directory).
pub open spec fn spec_export_path(path: Seq<char>, format: OutputFormat) -> Seq<char> {
    if std_path_extension(path) is Some {
        path
    } else {
        std_path_join(path, spec_default_filename(format))
    }
}

/// The report file for a path given by the user.
pub fn resolve_export_path(path: &str, format: OutputFormat) -> (r: String)
    ensures
        r@ == spec_export_path(path@, format),
{
    if has_file_extension(path) {
        String::from_str(path)
    } else {
        let name = get_default_filename(format);
        path_join(path, name.as_str())
    }
}

/// The report file: the default file name when no path is given, else as
/// `resolve_export_path` decides.
pub fn determine_file_path(export_path: &Option<String>, format: OutputFormat) -> (r: String)
    ensures
        export_path is None ==> r@ == spec_default_filename(format),
        export_path matches Some(p) ==> r@ == spec_export_path(p@, format),
{
    match export_path {
        None => get_default_filename(format),
        Some(path) => resolve_export_path(path.as_str(), format),
    }
}

} // verus!
