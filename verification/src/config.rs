//! Process-wide configuration: the root to search for notebooks under and
//! the names of checks to disable. Loading it from disk is a collaborator's
//! job; the library only models the loaded values.

use vstd::prelude::*;

verus! {

/// The tool's configuration as read from a project file, when one exists.
pub struct Config {
    pub root: Option<String>,
    pub disable: Option<Vec<String>>,
}

/// The root path the configuration names, or the current directory when it
/// names none.
pub open spec fn spec_root_path(c: Config) -> Seq<char> {
    match c.root {
        Some(p) => p@,
        None => "."@,
    }
}

impl Config {
    /// The path under which notebooks are searched for.
    pub fn root_path(&self) -> (r: &str)
        ensures
            r@ == spec_root_path(*self),
    {
        match &self.root {
            Some(p) => p.as_str(),
            None => ".",
        }
    }
}

} // verus!
