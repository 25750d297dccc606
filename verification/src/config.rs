//! The immutable configuration of one run.

use vstd::prelude::*;

verus! {

/// Produced once from the command line and read-only afterwards:
/// the root to scan, the optional stamp destination, and whether to
/// echo the result on standard output.
pub struct Config {
    pub root: String,
    pub stamp: Option<String>,
    pub quiet: bool,
}

impl Config {
    /// Build the configuration; a missing root falls back to the
    /// current directory.
    pub fn new(path: Option<String>, stamp: Option<String>, quiet: bool) -> (c: Config)
        ensures
            path matches Some(p) ==> c.root == p,
            path is None ==> c.root@ == "."@,
            c.stamp == stamp,
            c.quiet == quiet,
    {
        let root = match path {
            Some(p) => p,
            None => ".".to_owned(),
        };
        Config { root, stamp, quiet }
    }
}

} // verus!
