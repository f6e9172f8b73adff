//! The command line of the converter, as plain values.

use vstd::prelude::*;

verus! {

/// Top-level arguments.
pub struct MainCliArgs {
    pub command: MainSubCommands,
    /// Show what the program is doing
    pub verbose: bool,
}

/// The subcommands.
pub enum MainSubCommands {
    /// Import a blueprint string
    Import(ImportSubCommands),
    /// Export a single file or JSON tree as a blueprint string
    Export(ExportSubCommands),
}

/// Where a blueprint string is imported from.
#[derive(Clone)]
pub enum ImportSubCommands {
    /// Import blueprint strings from a file
    File(ImportFile),
    /// Import blueprint strings from the clipboard
    Clipboard(ImportClipboard),
}

/// Where a blueprint string is exported to.
#[derive(Clone)]
pub enum ExportSubCommands {
    /// Export blueprint strings to a file
    File(ExportFile),
    /// Export blueprint strings to the clipboard
    Clipboard(ExportClipboard),
}

#[derive(Clone)]
pub struct ImportFile {
    /// Infile containing blueprint string
    pub infile: Option<String>,
    /// Destination directory (optional)
    pub destination: Option<String>,
}

#[derive(Clone)]
pub struct ImportLink {
    /// URL to blueprint
    pub link: Option<String>,
    /// Destination directory (optional)
    pub destination: Option<String>,
}

#[derive(Clone)]
pub struct ImportClipboard {
    /// Destination directory (optional)
    pub destination: Option<String>,
}

#[derive(Clone)]
pub struct ExportFile {
    /// Source directory or single JSON file
    pub source: Option<String>,
    /// Outfile name (optional)
    pub outfile: Option<String>,
    /// Destination directory (optional)
    pub destination: Option<String>,
}

#[derive(Clone)]
pub struct ExportClipboard {
    /// Source directory or single JSON file
    pub source: Option<String>,
}

/// The text of an optional string.
pub open spec fn opt_text(o: Option<String>) -> Option<Seq<char>> {
    match o {
        Some(s) => Some(s@),
        None => None,
    }
}

/// Copies an optional string.
pub fn copy_opt(o: &Option<String>) -> (r: Option<String>)
    ensures
        opt_text(r) == opt_text(*o),
{
    match o {
        Some(s) => Some(s.clone()),
        None => None,
    }
}

/// Two import commands alike in kind and in every argument.
pub open spec fn same_import(a: ImportSubCommands, b: ImportSubCommands) -> bool {
    match (a, b) {
        (ImportSubCommands::File(x), ImportSubCommands::File(y)) => opt_text(x.infile) == opt_text(
            y.infile,
        ) && opt_text(x.destination) == opt_text(y.destination),
        (ImportSubCommands::Clipboard(x), ImportSubCommands::Clipboard(y)) => opt_text(
            x.destination,
        ) == opt_text(y.destination),
        _ => false,
    }
}

/// Two export commands alike in kind and in every argument.
pub open spec fn same_export(a: ExportSubCommands, b: ExportSubCommands) -> bool {
    match (a, b) {
        (ExportSubCommands::File(x), ExportSubCommands::File(y)) => opt_text(x.source) == opt_text(
            y.source,
        ) && opt_text(x.outfile) == opt_text(y.outfile) && opt_text(x.destination) == opt_text(
            y.destination,
        ),
        (ExportSubCommands::Clipboard(x), ExportSubCommands::Clipboard(y)) => opt_text(x.source)
            == opt_text(y.source),
        _ => false,
    }
}

impl ImportSubCommands {
    /// A copy of the command.
    pub fn duplicate(&self) -> (r: ImportSubCommands)
        ensures
            same_import(r, *self),
    {
        match self {
            ImportSubCommands::File(f) => ImportSubCommands::File(
                ImportFile { infile: copy_opt(&f.infile), destination: copy_opt(&f.destination) },
            ),
            ImportSubCommands::Clipboard(c) => ImportSubCommands::Clipboard(
                ImportClipboard { destination: copy_opt(&c.destination) },
            ),
        }
    }
}

impl ExportSubCommands {
    /// A copy of the command.
    pub fn duplicate(&self) -> (r: ExportSubCommands)
        ensures
            same_export(r, *self),
    {
        match self {
            ExportSubCommands::File(f) => ExportSubCommands::File(
                ExportFile {
                    source: copy_opt(&f.source),
                    outfile: copy_opt(&f.outfile),
                    destination: copy_opt(&f.destination),
                },
            ),
            ExportSubCommands::Clipboard(c) => ExportSubCommands::Clipboard(
                ExportClipboard { source: copy_opt(&c.source) },
            ),
        }
    }
}

} // verus!
