//! Settings of an export run.

use vstd::prelude::*;
use crate::args::{ExportSubCommands, copy_opt, opt_text, same_export};

verus! {

/// An export run: the JSON file or directory to pack, and where the
/// blueprint string goes.
pub struct Worker {
    pub export_type: ExportSubCommands,
    pub source: String,
    pub out_file: Option<String>,
    pub dest: Option<String>,
}

impl Worker {
    /// The settings of an export; none where no source is given.
    pub fn from(export_file: &ExportSubCommands) -> (r: Option<Worker>)
        ensures
            r matches Some(w) ==> same_export(w.export_type, *export_file),
            match *export_file {
                ExportSubCommands::File(f) => match f.source {
                    Some(s) => r matches Some(w) && w.source@ == s@ && opt_text(w.out_file)
                        == opt_text(f.outfile) && opt_text(w.dest) == opt_text(f.destination),
                    None => r is None,
                },
                ExportSubCommands::Clipboard(c) => match c.source {
                    Some(s) => r matches Some(w) && w.source@ == s@ && w.out_file is None
                        && w.dest is None,
                    None => r is None,
                },
            },
    {
        let (source, out_file, dest) = match export_file {
            ExportSubCommands::File(f) => (copy_opt(&f.source), copy_opt(&f.outfile), copy_opt(&f.destination)),
            ExportSubCommands::Clipboard(c) => (copy_opt(&c.source), None, None),
        };
        match source {
            Some(source) => Some(Worker { export_type: export_file.duplicate(), source, out_file, dest }),
            None => None,
        }
    }
}

} // verus!
