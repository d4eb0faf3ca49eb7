//! The KML document inside a KMZ (ZIP) archive.
use std::io::{Cursor, Read};
use vstd::prelude::*;
use zip::ZipArchive;
use crate::coordinates::lower_text;
use crate::error::AnalyzerError;
use crate::text::has_literal_at;

verus! {

#[verifier::external_type_specification]
#[verifier::external_body]
#[verifier::reject_recursive_types(R)]
pub struct ExZipArchive<R>(zip::ZipArchive<R>);

#[verifier::external_type_specification]
#[verifier::external_body]
#[verifier::reject_recursive_types(T)]
pub struct ExCursor<T>(std::io::Cursor<T>);

/// The text of the error of `ZipArchive::new` on an archive given as bytes
/// (its `Display`), or `None` when the archive opens.
pub uninterp spec fn zip_open_error(bytes: Seq<u8>) -> Option<Seq<char>>;

/// The number of entries of the archive (`ZipArchive::len`).
pub uninterp spec fn zip_entry_count(bytes: Seq<u8>) -> int;

/// The index of the entry of a given name (`ZipArchive::index_for_name`).
pub uninterp spec fn zip_index_for_name(bytes: Seq<u8>, name: Seq<char>) -> Option<int>;

/// The name of the entry at an index (`ZipArchive::name_for_index`).
pub uninterp spec fn zip_entry_name(bytes: Seq<u8>, index: int) -> Seq<char>;

/// The content of the entry at an index, when `ZipArchive::by_index` opens
/// it and `Read::read_to_end` reads it without error.
pub uninterp spec fn zip_entry_content(bytes: Seq<u8>, index: int) -> Option<Seq<u8>>;

/// Whether `ZipArchive::new` opens an archive given as bytes.
pub open spec fn zip_opens(bytes: Seq<u8>) -> bool {
    zip_open_error(bytes) is None
}

/// Opens an archive by `ZipArchive::new` over a `Cursor` of its bytes; the
/// error is turned into its text.
///
/// Claims that whether the archive opens, and the text of the error, are
/// functions of the bytes.
#[verifier::external_body]
fn zip_open(bytes: &[u8]) -> (r: std::result::Result<(), String>)
    ensures
        r is Ok <==> zip_opens(bytes@),
        r matches Err(m) ==> zip_open_error(bytes@) == Some(m@),
{
    match ZipArchive::new(Cursor::new(bytes)) {
        Ok(_) => Ok(()),
        Err(e) => Err(e.to_string()),
    }
}

/// The number of entries, by `ZipArchive::new` and `ZipArchive::len`.
///
/// Claims that it is a function of the bytes. `ZipArchive::new` reads the
/// bytes alone, so an archive that opened once opens again.
#[verifier::external_body]
fn zip_len(bytes: &[u8]) -> (r: usize)
    requires
        zip_opens(bytes@),
    ensures
        r == zip_entry_count(bytes@),
{
    ZipArchive::new(Cursor::new(bytes)).unwrap().len()
}

/// The index of an entry by its name, by `ZipArchive::new` and
/// `ZipArchive::index_for_name`.
///
/// Claims that it is a function of the bytes and the name, and an index of
/// an entry.
#[verifier::external_body]
fn zip_find_name(bytes: &[u8], name: &str) -> (r: Option<usize>)
    requires
        zip_opens(bytes@),
    ensures
        r matches Some(i) ==> zip_index_for_name(bytes@, name@) == Some(i as int) && i
            < zip_entry_count(bytes@),
        r is None ==> zip_index_for_name(bytes@, name@) is None,
{
    ZipArchive::new(Cursor::new(bytes)).unwrap().index_for_name(name)
}

/// The name of an entry, by `ZipArchive::new` and
/// `ZipArchive::name_for_index`, which has a name for every index below `len`.
#[verifier::external_body]
fn zip_name(bytes: &[u8], index: usize) -> (r: String)
    requires
        zip_opens(bytes@),
        index < zip_entry_count(bytes@),
    ensures
        r@ == zip_entry_name(bytes@, index as int),
{
    ZipArchive::new(Cursor::new(bytes)).unwrap().name_for_index(index).unwrap().to_string()
}

/// The content of an entry: `ZipArchive::new`, `ZipArchive::by_index` and
/// then `Read::read_to_end`, `None` where either of the last two fails.
///
/// Claims that it is a function of the bytes and the index.
#[verifier::external_body]
fn zip_read(bytes: &[u8], index: usize) -> (r: Option<Vec<u8>>)
    requires
        zip_opens(bytes@),
    ensures
        r matches Some(v) ==> zip_entry_content(bytes@, index as int) == Some(v@),
        r is None ==> zip_entry_content(bytes@, index as int) is None,
{
    let mut archive = ZipArchive::new(Cursor::new(bytes)).unwrap();
    let mut entry = archive.by_index(index).ok()?;
    let mut buf = Vec::new();
    entry.read_to_end(&mut buf).ok()?;
    Some(buf)
}

/// The name of the main document of a KMZ archive.
pub const DOC_KML: &'static str = "doc.kml";

/// The content of `doc.kml`, when the archive has it and it reads.
pub open spec fn spec_doc_kml(source: Seq<u8>) -> Option<Seq<u8>> {
    match zip_index_for_name(source, DOC_KML@) {
        Some(i) => zip_entry_content(source, i),
        None => None,
    }
}

/// Whether an entry name ends with `.kml`, in any ASCII case.
pub open spec fn is_kml_name(name: Seq<char>) -> bool {
    let l = lower_text(name);
    l.len() >= 4 && l.subrange(l.len() - 4, l.len() as int) == ".kml"@
}

/// The content of the first entry from index `i` on whose name ends with
/// `.kml` and which reads.
pub open spec fn spec_first_kml(source: Seq<u8>, i: int) -> Option<Seq<u8>>
    decreases zip_entry_count(source) - i,
{
    if i < 0 || i >= zip_entry_count(source) {
        None
    } else if is_kml_name(zip_entry_name(source, i)) && zip_entry_content(source, i) is Some {
        zip_entry_content(source, i)
    } else {
        spec_first_kml(source, i + 1)
    }
}

/// The message when an archive holds no KML document.
pub const NO_KML_MESSAGE: &'static str = "No KML file found in KMZ archive";

/// The KML document of an archive: `doc.kml` when it reads, else the first
/// `.kml` entry that reads.
pub open spec fn spec_kml_of_archive(source: Seq<u8>) -> Option<Seq<u8>> {
    match spec_doc_kml(source) {
        Some(c) => Some(c),
        None => spec_first_kml(source, 0),
    }
}

/// Reads `doc.kml`, the main document of a KMZ archive.
fn find_doc_kml(archive: &[u8]) -> (r: Option<Vec<u8>>)
    requires
        zip_opens(archive@),
    ensures
        r matches Some(v) ==> spec_doc_kml(archive@) == Some(v@),
        r is None ==> spec_doc_kml(archive@) is None,
{
    match zip_find_name(archive, DOC_KML) {
        Some(i) => zip_read(archive, i),
        None => None,
    }
}

/// Whether a name ends with `.kml`, in any ASCII case.
fn has_kml_extension(name: &str) -> (r: bool)
    ensures
        r == is_kml_name(name@),
{
    let l = crate::coordinates::lower_chars(&crate::text::to_chars(name));
    let n = l.len();
    if n < 4 {
        return false;
    }
    let r = has_literal_at(&l, n - 4, ".kml");
    proof {
        reveal_strlit(".kml");
    }
    r
}

/// Reads the entry at `index` when its name ends with `.kml`.
fn try_read_kml_entry(archive: &[u8], index: usize) -> (r: Option<Vec<u8>>)
    requires
        zip_opens(archive@),
        index < zip_entry_count(archive@),
    ensures
        r matches Some(v) ==> is_kml_name(zip_entry_name(archive@, index as int))
            && zip_entry_content(archive@, index as int) == Some(v@),
        r is None ==> !(is_kml_name(zip_entry_name(archive@, index as int))
            && zip_entry_content(archive@, index as int) is Some),
{
    let name = zip_name(archive, index);
    if !has_kml_extension(name.as_str()) {
        return None;
    }
    zip_read(archive, index)
}

/// Reads the first entry whose name ends with `.kml`.
fn find_first_kml(archive: &[u8]) -> (r: Option<Vec<u8>>)
    requires
        zip_opens(archive@),
    ensures
        r matches Some(v) ==> spec_first_kml(archive@, 0) == Some(v@),
        r is None ==> spec_first_kml(archive@, 0) is None,
{
    let ghost src = archive@;
    let len = zip_len(archive);
    let mut i: usize = 0;
    while i < len
        invariant
            archive@ == src,
            zip_opens(src),
            len == zip_entry_count(src),
            i <= len,
            spec_first_kml(src, 0) == spec_first_kml(src, i as int),
        decreases len - i,
    {
        match try_read_kml_entry(archive, i) {
            Some(v) => {
                return Some(v);
            },
            None => {},
        }
        i = i + 1;
    }
    None
}

/// The KML document of a KMZ archive given as bytes: `doc.kml`, or else the
/// first entry whose name ends with `.kml`.
///
/// A ZIP error becomes a `KmzError` with its text; an archive without a
/// readable KML document gives a `KmzError` with `NO_KML_MESSAGE`.
pub fn extract_kml_from_kmz(bytes: &[u8]) -> (r: std::result::Result<Vec<u8>, AnalyzerError>)
    ensures
        match r {
            Ok(v) => zip_open_error(bytes@) is None && spec_kml_of_archive(bytes@) == Some(v@),
            Err(e) => match zip_open_error(bytes@) {
                Some(m) => e matches AnalyzerError::KmzError(t) && t@ == m,
                None => spec_kml_of_archive(bytes@) is None && (e matches AnalyzerError::KmzError(t)
                    && t@ == NO_KML_MESSAGE@),
            },
        },
{
    match zip_open(bytes) {
        Ok(()) => {},
        Err(m) => {
            return Err(AnalyzerError::KmzError(m));
        },
    }
    match find_doc_kml(bytes) {
        Some(v) => Ok(v),
        None => match find_first_kml(bytes) {
            Some(v) => Ok(v),
            None => Err(AnalyzerError::KmzError(String::from_str(NO_KML_MESSAGE))),
        },
    }
}

/// Whether the entry at an index is a KML document that reads: its name ends
/// with `.kml` and its content reads.
pub open spec fn is_readable_kml_entry(source: Seq<u8>, i: int) -> bool {
    is_kml_name(zip_entry_name(source, i)) && zip_entry_content(source, i) is Some
}

/// From index `i` on, the first KML entry that reads is the one chosen.
proof fn lemma_first_kml_from(source: Seq<u8>, i: int)
    requires
        0 <= i,
    ensures
        spec_first_kml(source, i) matches Some(c) ==> exists|k: int|
            i <= k < zip_entry_count(source) && #[trigger] is_readable_kml_entry(source, k)
                && zip_entry_content(source, k) == Some(c) && forall|j: int|
                i <= j < k ==> !#[trigger] is_readable_kml_entry(source, j),
        spec_first_kml(source, i) is None ==> forall|j: int|
            i <= j < zip_entry_count(source) ==> !#[trigger] is_readable_kml_entry(source, j),
    decreases zip_entry_count(source) - i,
{
    if i < zip_entry_count(source) {
        if is_readable_kml_entry(source, i) {
            assert(is_readable_kml_entry(source, i));
        } else {
            lemma_first_kml_from(source, i + 1);
            if let Some(c) = spec_first_kml(source, i + 1) {
                let k = choose|k: int|
                    i + 1 <= k < zip_entry_count(source) && #[trigger] is_readable_kml_entry(
                        source,
                        k,
                    ) && zip_entry_content(source, k) == Some(c) && forall|j: int|
                        i + 1 <= j < k ==> !#[trigger] is_readable_kml_entry(source, j);
                assert forall|j: int| i <= j < k implies !#[trigger] is_readable_kml_entry(
                    source,
                    j,
                ) by {
                    if j > i {
                        assert(i + 1 <= j < k);
                    }
                }
            }
        }
    }
}

/// Without a `doc.kml` that reads, the KML document of an archive is the
/// entry of least index whose name ends with `.kml` (in any case) and which
/// reads: no entry before it qualifies. Where no entry qualifies, the
/// archive has no KML document.
pub proof fn law_first_kml_entry_wins(source: Seq<u8>)
    requires
        spec_doc_kml(source) is None,
    ensures
        spec_kml_of_archive(source) matches Some(c) ==> exists|k: int|
            0 <= k < zip_entry_count(source) && #[trigger] is_readable_kml_entry(source, k)
                && zip_entry_content(source, k) == Some(c) && forall|j: int|
                0 <= j < k ==> !#[trigger] is_readable_kml_entry(source, j),
        spec_kml_of_archive(source) is None ==> forall|j: int|
            0 <= j < zip_entry_count(source) ==> !#[trigger] is_readable_kml_entry(source, j),
{
    lemma_first_kml_from(source, 0);
}

/// A readable `doc.kml` is the KML document of the archive, whatever other
/// entries it holds.
pub proof fn law_doc_kml_first(source: Seq<u8>)
    requires
        spec_doc_kml(source) is Some,
    ensures
        spec_kml_of_archive(source) == spec_doc_kml(source),
{
}

} // verus!
