//! The options of the command line, as values.
use vstd::prelude::*;

verus! {

/// The options of the command line.
#[derive(Debug)]
pub struct Args {
    /// KML or KMZ file path (command line, else the directory of the
    /// executable, else the current directory).
    pub file: Option<String>,
    /// Where the report goes.
    pub output: OutputTypeArg,
    /// The format of the report.
    pub format: OutputFormatArg,
    /// The file or directory the report is written to.
    pub export: Option<String>,
}

/// Where the report goes, as given on the command line.
#[derive(Debug, Clone, Copy, PartialEq, Eq, Structural)]
pub enum OutputTypeArg {
    /// Printed to the terminal.
    Shell,
    /// Written to a file.
    File,
}

/// The format of the report, as given on the command line.
#[derive(Debug, Clone, Copy, PartialEq, Eq, Structural)]
pub enum OutputFormatArg {
    Json,
    Csv,
    Tsv,
    /// An aligned table, for the terminal.
    Table,
}

} // verus!
