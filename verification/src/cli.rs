//! The command-line description of a pipeline, as plain values. Argument
//! parsing itself is the frontend's job; it fills one of these in and builds
//! the pipeline from it.

use vstd::prelude::*;

verus! {

/// What the command line asks for: selector patterns to filter on, and
/// action descriptions, each in the order given.
pub struct Cli {
    /// A structural selector expression per occurrence of the filter flag.
    pub filters: Vec<String>,
    /// An action description per occurrence of the action flag.
    pub actions: Vec<String>,
}

} // verus!
