//! File paths, through `std::path`.
use std::path::Path;
use vstd::prelude::*;

verus! {

/// What `Path::extension` gives for a path given as text (decoded lossily as
/// UTF-8); how a path splits into components is fixed for the platform the
/// library is built for.
pub uninterp spec fn std_path_extension(p: Seq<char>) -> Option<Seq<char>>;

/// What `Path::file_stem` gives for a path given as text.
pub uninterp spec fn std_path_file_stem(p: Seq<char>) -> Option<Seq<char>>;

/// What `Path::join` gives for a path and a further component.
pub uninterp spec fn std_path_join(base: Seq<char>, name: Seq<char>) -> Seq<char>;

/// The extension of the last component of a path, by `Path::extension`,
/// decoded lossily as UTF-8.
///
/// Claims that it is a function of the path.
#[verifier::external_body]
pub(crate) fn path_extension(p: &str) -> (r: Option<String>)
    ensures
        r matches Some(e) ==> std_path_extension(p@) == Some(e@),
        r is None ==> std_path_extension(p@) is None,
{
    match Path::new(p).extension() {
        Some(e) => Some(e.to_string_lossy().into_owned()),
        None => None,
    }
}

/// The last component of a path without its extension, by
/// `Path::file_stem`, decoded lossily as UTF-8.
///
/// Claims that it is a function of the path.
#[verifier::external_body]
pub(crate) fn path_file_stem(p: &str) -> (r: Option<String>)
    ensures
        r matches Some(e) ==> std_path_file_stem(p@) == Some(e@),
        r is None ==> std_path_file_stem(p@) is None,
{
    match Path::new(p).file_stem() {
        Some(e) => Some(e.to_string_lossy().into_owned()),
        None => None,
    }
}

/// A path followed by a further component, by `Path::join`, decoded
/// lossily as UTF-8.
///
/// Claims that it is a function of the two texts.
#[verifier::external_body]
pub(crate) fn path_join(base: &str, name: &str) -> (r: String)
    ensures
        r@ == std_path_join(base@, name@),
{
    Path::new(base).join(name).to_string_lossy().into_owned()
}

} // verus!
