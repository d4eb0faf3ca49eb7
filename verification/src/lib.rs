//! Analysis of GPS movement tracks stored as KML or KMZ.
use vstd::prelude::*;

pub mod cli;
pub mod complexity;
pub mod config;
pub mod converter;
pub mod csv;
pub mod coordinates;
pub mod datetime;
pub mod error;
pub mod format;
pub mod kmz;
pub mod metadata;
pub mod numbers;
pub mod output;
pub mod parser;
pub mod path;
pub mod path_resolver;
pub mod paths;
pub mod time_patterns;
pub mod xml_source;
pub mod text;

pub use error::{AnalyzerError, Result};
pub use format::{format_output, OutputFormat};
pub use metadata::TrackMetadata;
pub use parser::extract_placemarks_with_paths;
pub use path::extract_categories;
