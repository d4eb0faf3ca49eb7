//! Which KML or KMZ file a run reads.
use vstd::prelude::*;
use crate::error::{AnalyzerError, Result};
use crate::path::views;
use crate::paths::{path_join, std_path_join};
use crate::text::concat_str;

verus! {

/// The file names looked for when no file is given, in order: KML before
/// KMZ.
pub open spec fn default_filename(i: int) -> Seq<char> {
    if i == 0 {
        "移動軌跡.kml"@
    } else if i == 1 {
        "Movement Tracks.kml"@
    } else if i == 2 {
        "移動軌跡.kmz"@
    } else {
        "Movement Tracks.kmz"@
    }
}

/// The number of default file names.
pub const DEFAULT_FILENAME_COUNT: usize = 4;

/// A default file name.
fn default_filename_text(i: usize) -> (r: &'static str)
    requires
        i < DEFAULT_FILENAME_COUNT,
    ensures
        r@ == default_filename(i as int),
{
    if i == 0 {
        "移動軌跡.kml"
    } else if i == 1 {
        "Movement Tracks.kml"
    } else if i == 2 {
        "移動軌跡.kmz"
    } else {
        "Movement Tracks.kmz"
    }
}

/// The paths of the default file names within a directory, in the order
/// in which they are looked for (`Path::join`).
pub fn check_path_with_filenames(base_path: &str) -> (r: Vec<String>)
    ensures
        r@.len() == DEFAULT_FILENAME_COUNT,
        forall|i: int|
            0 <= i < DEFAULT_FILENAME_COUNT ==> #[trigger] r@[i]@ == std_path_join(
                base_path@,
                default_filename(i),
            ),
{
    let mut r: Vec<String> = Vec::new();
    let mut i: usize = 0;
    while i < DEFAULT_FILENAME_COUNT
        invariant
            i <= DEFAULT_FILENAME_COUNT,
            r@.len() == i,
            forall|k: int|
                0 <= k < i ==> #[trigger] r@[k]@ == std_path_join(base_path@, default_filename(k)),
        decreases DEFAULT_FILENAME_COUNT - i,
    {
        r.push(path_join(base_path, default_filename_text(i)));
        i = i + 1;
    }
    r
}

/// The message when no file is given and none of the default files exists.
pub const NO_FILE_MESSAGE: &'static str =
    "No KML/KMZ file found. Please specify with -f / --file or place 移動軌跡.kml (.kmz) or Movement Tracks.kml (.kmz) in the current directory.";

/// The first of some paths that exists, by the file system's answers
/// `exists[i]` for `paths[i]`, from index `i` on.
pub open spec fn spec_first_existing(paths: Seq<Seq<char>>, exists: Seq<bool>, i: int) -> Option<
    Seq<char>,
>
    decreases paths.len() - i,
{
    if i < 0 || i >= paths.len() || i >= exists.len() {
        None
    } else if exists[i] {
        Some(paths[i])
    } else {
        spec_first_existing(paths, exists, i + 1)
    }
}

/// The first of some paths that exists, given the file system's answer for
/// each; used on the paths of `check_path_with_filenames`, which are in the
/// order in which the default names are looked for.
pub fn first_existing(paths: &Vec<String>, exists: &Vec<bool>) -> (r: Option<String>)
    requires
        paths@.len() == exists@.len(),
    ensures
        r matches Some(p) ==> spec_first_existing(views(paths@), exists@, 0) == Some(p@),
        r is None ==> spec_first_existing(views(paths@), exists@, 0) is None,
{
    let n = paths.len();
    let mut i: usize = 0;
    while i < n
        invariant
            n == paths@.len(),
            n == exists@.len(),
            i <= n,
            spec_first_existing(views(paths@), exists@, 0) == spec_first_existing(
                views(paths@),
                exists@,
                i as int,
            ),
        decreases n - i,
    {
        if exists[i] {
            return Some(paths[i].clone());
        }
        i = i + 1;
    }
    None
}

/// The file that a run reads, or the message of the error: the file given
/// on the command line when it exists (an error when it does not); else the
/// first default file found in the directory of the executable
/// (`exe_match`, from `first_existing`); else the first found in the current
/// directory (`cwd_match`); else an error.
pub open spec fn spec_kml_choice(
    cli_file: Option<Seq<char>>,
    cli_file_exists: bool,
    exe_match: Option<Seq<char>>,
    cwd_match: Option<Seq<char>>,
) -> std::result::Result<Seq<char>, Seq<char>> {
    match cli_file {
        Some(p) => if cli_file_exists {
            Ok(p)
        } else {
            Err("File not found: "@ + p)
        },
        None => match (exe_match, cwd_match) {
            (Some(p), _) => Ok(p),
            (None, Some(p)) => Ok(p),
            (None, None) => Err(NO_FILE_MESSAGE@),
        },
    }
}

/// The text of an optional string.
pub open spec fn opt_text(s: Option<String>) -> Option<Seq<char>> {
    match s {
        Some(t) => Some(t@),
        None => None,
    }
}

/// Whether a result is the choice: the file, or an `Other` error with the
/// message.
pub open spec fn is_choice(r: Result<String>, c: std::result::Result<Seq<char>, Seq<char>>) -> bool {
    match c {
        Ok(p) => r matches Ok(q) && q@ == p,
        Err(m) => r matches Err(e) && (e matches AnalyzerError::Other(t) && t@ == m),
    }
}

/// The file that a run reads, as `spec_kml_choice` says.
pub fn resolve_kml_file(
    cli_file: Option<String>,
    cli_file_exists: bool,
    exe_match: Option<String>,
    cwd_match: Option<String>,
) -> (r: Result<String>)
    ensures
        is_choice(
            r,
            spec_kml_choice(opt_text(cli_file), cli_file_exists, opt_text(exe_match), opt_text(cwd_match)),
        ),
{
    match cli_file {
        Some(path) => {
            if cli_file_exists {
                Ok(path)
            } else {
                Err(AnalyzerError::Other(concat_str("File not found: ", path.as_str())))
            }
        },
        None => match exe_match {
            Some(path) => Ok(path),
            None => match cwd_match {
                Some(path) => Ok(path),
                None => Err(AnalyzerError::Other(String::from_str(NO_FILE_MESSAGE))),
            },
        },
    }
}

} // verus!
