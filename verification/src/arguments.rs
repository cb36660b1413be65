//! The tool's command-line options, as plain values. Reading them off the
//! command line is the caller's work; the defaults live here.

use vstd::prelude::*;
use vstd::string::*;

verus! {

/// The options the surrounding tool runs with.
#[derive(Debug)]
pub struct Cli {
    /// The directory whose files are scanned.
    pub path: String,
    /// Whether the run only checks, without posting anything.
    pub check: bool,
}

impl Cli {
    /// Options with the given values.
    pub fn new(path: String, check: bool) -> (r: Cli)
        ensures
            r.path@ == path@,
            r.check == check,
    {
        Cli { path, check }
    }
}

impl Default for Cli {
    /// The defaults: scan the current directory, post rather than check.
    fn default() -> (r: Cli)
        ensures
            r.path@ == "."@,
            r.check == false,
    {
        Cli { path: String::from_str("."), check: false }
    }
}

} // verus!
