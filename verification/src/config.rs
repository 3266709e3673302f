//! Run options handed in by the caller.

use vstd::prelude::*;

verus! {

/// Options for one run: the file to execute, if any, and whether to
/// show the tree of each declaration before executing it.
#[derive(Debug)]
pub struct Config {
    /// File to run; an interactive session when absent.
    pub file: Option<String>,
    /// Tree debug mode.
    pub debug_ast: bool,
}

} // verus!
