//! The settings of a run.
use vstd::prelude::*;
use crate::format::OutputFormat;

verus! {

/// The settings of a run.
#[derive(Debug)]
pub struct Config {
    /// The KML or KMZ file to read.
    pub kml_file: String,
    /// Where the report goes.
    pub output_type: OutputType,
    /// The format of the report.
    pub format: OutputFormat,
    /// The file or directory the report is written to.
    pub export_path: Option<String>,
}

/// Where the report goes.
#[derive(Debug, Clone, Copy, PartialEq, Eq, Structural)]
pub enum OutputType {
    Shell,
    File,
}

} // verus!
