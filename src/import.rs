//! Settings of an import run.

use vstd::prelude::*;
use crate::args::{ImportSubCommands, copy_opt, same_import};

verus! {

/// An import run: where the blueprint string comes from and the directory
/// that receives the JSON tree.
pub struct Worker {
    pub import_type: ImportSubCommands,
    pub dest: String,
}

/// The destination directory of an import: the one given, or the current
/// directory.
pub open spec fn import_dest(cmd: ImportSubCommands) -> Seq<char> {
    let d = match cmd {
        ImportSubCommands::File(f) => f.destination,
        ImportSubCommands::Clipboard(c) => c.destination,
    };
    match d {
        Some(s) => s@,
        None => "."@,
    }
}

impl Worker {
    pub fn from(cmd_type: &ImportSubCommands) -> (r: Worker)
        ensures
            r.dest@ == import_dest(*cmd_type),
            same_import(r.import_type, *cmd_type),
    {
        let given = match cmd_type {
            ImportSubCommands::File(f) => copy_opt(&f.destination),
            ImportSubCommands::Clipboard(c) => copy_opt(&c.destination),
        };
        let dest = match given {
            Some(d) => d,
            None => String::from_str("."),
        };
        Worker { import_type: cmd_type.duplicate(), dest }
    }
}

} // verus!
