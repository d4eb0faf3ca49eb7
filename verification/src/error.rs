//! The errors of the analyzer.
use vstd::prelude::*;
use crate::text::concat_str;

verus! {

#[verifier::external_type_specification]
#[verifier::external_body]
pub struct ExIoError(std::io::Error);

#[verifier::external_type_specification]
#[verifier::external_body]
pub struct ExZipError(zip::result::ZipError);

/// The errors that the analyzer reports.
#[derive(Debug)]
pub enum AnalyzerError {
    /// An I/O error.
    Io(std::io::Error),
    /// The KML text could not be parsed.
    ParsingError(String),
    /// A time could not be parsed.
    TimeParsingError(String),
    /// A coordinate could not be parsed.
    CoordinateParsingError(String),
    /// A file does not exist.
    FileNotFound(String),
    /// A KMZ archive could not be read.
    KmzError(String),
    /// Any other error, with its message.
    Other(String),
}

/// The results of the analyzer.
pub type Result<T> = std::result::Result<T, AnalyzerError>;

/// The text of an I/O error, as its `Display` shows it.
///
/// Calls `<std::io::Error as ToString>::to_string`; nothing is stated of the
/// text, which depends on the operating system's description of the error.
#[verifier::external_body]
fn io_error_text(e: &std::io::Error) -> String {
    e.to_string()
}

/// The text of a ZIP error, as its `Display` shows it.
///
/// Calls `<zip::result::ZipError as ToString>::to_string`; nothing is stated of
/// the text, which the `zip` crate composes from the error's fields.
#[verifier::external_body]
fn zip_error_text(e: &zip::result::ZipError) -> String {
    e.to_string()
}

/// The message of an error, for every kind but `Io`, whose message holds the
/// text of the I/O error.
pub open spec fn spec_message(e: AnalyzerError) -> Seq<char> {
    match e {
        AnalyzerError::Io(_) => "IO error: "@,
        AnalyzerError::ParsingError(m) => "Parsing error: "@ + m@,
        AnalyzerError::TimeParsingError(m) => "Time parsing error: "@ + m@,
        AnalyzerError::CoordinateParsingError(m) => "Coordinate parsing error: "@ + m@,
        AnalyzerError::FileNotFound(p) => "File not found: "@ + p@,
        AnalyzerError::KmzError(m) => "KMZ error: "@ + m@,
        AnalyzerError::Other(m) => m@,
    }
}

impl AnalyzerError {
    /// The message that the error shows to a user.
    ///
    /// For `Io` the message is `IO error: ` followed by the text of the I/O
    /// error; for the others it is `spec_message`.
    pub fn to_string(&self) -> (r: String)
        ensures
            self is Io ==> exists|t: Seq<char>| r@ == spec_message(*self) + t,
            !(self is Io) ==> r@ == spec_message(*self),
    {
        match self {
            AnalyzerError::Io(e) => {
                let t = io_error_text(e);
                let r = concat_str("IO error: ", t.as_str());
                assert(r@ == spec_message(*self) + t@);
                r
            },
            AnalyzerError::ParsingError(m) => concat_str("Parsing error: ", m.as_str()),
            AnalyzerError::TimeParsingError(m) => concat_str("Time parsing error: ", m.as_str()),
            AnalyzerError::CoordinateParsingError(m) => concat_str(
                "Coordinate parsing error: ",
                m.as_str(),
            ),
            AnalyzerError::FileNotFound(p) => concat_str("File not found: ", p.as_str()),
            AnalyzerError::KmzError(m) => concat_str("KMZ error: ", m.as_str()),
            AnalyzerError::Other(m) => m.clone(),
        }
    }
}

impl From<std::io::Error> for AnalyzerError {
    fn from(error: std::io::Error) -> (r: Self) {
        AnalyzerError::Io(error)
    }
}

impl vstd::std_specs::convert::FromSpecImpl<std::io::Error> for AnalyzerError {
    open spec fn obeys_from_spec() -> bool {
        true
    }

    open spec fn from_spec(v: std::io::Error) -> Self {
        AnalyzerError::Io(v)
    }
}

impl From<String> for AnalyzerError {
    fn from(error: String) -> (r: Self) {
        AnalyzerError::Other(error)
    }
}

impl vstd::std_specs::convert::FromSpecImpl<String> for AnalyzerError {
    open spec fn obeys_from_spec() -> bool {
        true
    }

    open spec fn from_spec(v: String) -> Self {
        AnalyzerError::Other(v)
    }
}

impl<'a> From<&'a str> for AnalyzerError {
    /// An `Other` error whose message is the given text.
    fn from(error: &'a str) -> (r: Self)
        ensures
            r matches AnalyzerError::Other(m) && m@ == error@,
    {
        AnalyzerError::Other(String::from_str(error))
    }
}

impl<'a> vstd::std_specs::convert::FromSpecImpl<&'a str> for AnalyzerError {
    /// The message is a fresh `String`, which no spec value names: the
    /// statement stands on `from` itself.
    open spec fn obeys_from_spec() -> bool {
        false
    }

    open spec fn from_spec(v: &'a str) -> Self {
        AnalyzerError::Other(vstd::pervasive::arbitrary())
    }
}

impl From<zip::result::ZipError> for AnalyzerError {
    /// A `KmzError` whose message is the text of the ZIP error.
    fn from(error: zip::result::ZipError) -> (r: Self)
        ensures
            r is KmzError,
    {
        AnalyzerError::KmzError(zip_error_text(&error))
    }
}

impl vstd::std_specs::convert::FromSpecImpl<zip::result::ZipError> for AnalyzerError {
    /// The message is the text of the ZIP error, of which nothing is stated:
    /// the statement stands on `from` itself.
    open spec fn obeys_from_spec() -> bool {
        false
    }

    open spec fn from_spec(v: zip::result::ZipError) -> Self {
        AnalyzerError::KmzError(vstd::pervasive::arbitrary())
    }
}

} // verus!
