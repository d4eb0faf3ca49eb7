//! From the command line to the settings of a run.
use vstd::prelude::*;
use crate::cli::{Args, OutputFormatArg, OutputTypeArg};
use crate::config::{Config, OutputType};
use crate::error::{AnalyzerError, Result};
use crate::format::OutputFormat;
use crate::path_resolver::{opt_text, resolve_kml_file, spec_kml_choice};

verus! {

/// The output target that an argument names.
pub open spec fn spec_output_type(arg: OutputTypeArg) -> OutputType {
    match arg {
        OutputTypeArg::Shell => OutputType::Shell,
        OutputTypeArg::File => OutputType::File,
    }
}

/// The format that an argument names.
pub open spec fn spec_output_format(arg: OutputFormatArg) -> OutputFormat {
    match arg {
        OutputFormatArg::Json => OutputFormat::Json,
        OutputFormatArg::Csv => OutputFormat::Csv,
        OutputFormatArg::Tsv => OutputFormat::Tsv,
        OutputFormatArg::Table => OutputFormat::Table,
    }
}

/// The format of the report: a table written to a file becomes CSV.
pub open spec fn spec_resolve_format(arg: OutputFormatArg, output_type: OutputType) -> OutputFormat {
    if arg == OutputFormatArg::Table && output_type == OutputType::File {
        OutputFormat::Csv
    } else {
        spec_output_format(arg)
    }
}

/// Builds the settings of a run from the command line: the file it reads is
/// chosen by `path_resolver::resolve_kml_file` from the file named on the
/// command line (`args.file`) and the file system's answers, and an error
/// there is the error of the run.
pub fn build_config(
    args: Args,
    cli_file_exists: bool,
    exe_match: Option<String>,
    cwd_match: Option<String>,
) -> (r: Result<Config>)
    ensures
        match spec_kml_choice(
            opt_text(args.file),
            cli_file_exists,
            opt_text(exe_match),
            opt_text(cwd_match),
        ) {
            Ok(p) => r matches Ok(c) && c.kml_file@ == p && c.output_type == spec_output_type(
                args.output,
            ) && c.format == spec_resolve_format(args.format, spec_output_type(args.output))
                && c.export_path == args.export,
            Err(m) => r matches Err(e) && (e matches AnalyzerError::Other(t) && t@ == m),
        },
{
    let output_type = map_output_type(args.output);
    let format = resolve_format(args.format, output_type);
    let kml_file = match resolve_kml_file(args.file, cli_file_exists, exe_match, cwd_match) {
        Ok(f) => f,
        Err(e) => {
            return Err(e);
        },
    };
    Ok(Config { kml_file, output_type, format, export_path: args.export })
}

/// The output target that an argument names.
fn map_output_type(arg: OutputTypeArg) -> (r: OutputType)
    ensures
        r == spec_output_type(arg),
{
    match arg {
        OutputTypeArg::Shell => OutputType::Shell,
        OutputTypeArg::File => OutputType::File,
    }
}

/// The format that an argument names.
fn map_output_format(arg: OutputFormatArg) -> (r: OutputFormat)
    ensures
        r == spec_output_format(arg),
{
    match arg {
        OutputFormatArg::Json => OutputFormat::Json,
        OutputFormatArg::Csv => OutputFormat::Csv,
        OutputFormatArg::Tsv => OutputFormat::Tsv,
        OutputFormatArg::Table => OutputFormat::Table,
    }
}

/// The format of the report: a table written to a file becomes CSV.
pub fn resolve_format(format_arg: OutputFormatArg, output_type: OutputType) -> (r: OutputFormat)
    ensures
        r == spec_resolve_format(format_arg, output_type),
{
    if format_arg == OutputFormatArg::Table && output_type == OutputType::File {
        OutputFormat::Csv
    } else {
        map_output_format(format_arg)
    }
}

/// The format of a run is the one the user named: JSON for `json`, CSV for
/// `csv`, TSV for `tsv` and a table for `table`, whatever the output target,
/// except that a table written to a file becomes CSV.
pub proof fn law_format_as_named(output_type: OutputType)
    ensures
        spec_resolve_format(OutputFormatArg::Json, output_type) == OutputFormat::Json,
        spec_resolve_format(OutputFormatArg::Csv, output_type) == OutputFormat::Csv,
        spec_resolve_format(OutputFormatArg::Tsv, output_type) == OutputFormat::Tsv,
        output_type == OutputType::Shell ==> spec_resolve_format(OutputFormatArg::Table, output_type)
            == OutputFormat::Table,
        output_type == OutputType::File ==> spec_resolve_format(OutputFormatArg::Table, output_type)
            == OutputFormat::Csv,
{
}

/// Two different formats named for one output target stay different, but
/// for a table written to a file, which comes out as CSV like `csv` does.
pub proof fn law_named_formats_stay_apart(a: OutputFormatArg, b: OutputFormatArg, output_type: OutputType)
    requires
        a != b,
        !(output_type == OutputType::File && (a == OutputFormatArg::Table || b == OutputFormatArg::Table)),
    ensures
        spec_resolve_format(a, output_type) != spec_resolve_format(b, output_type),
{
}

} // verus!
