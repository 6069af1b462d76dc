//! The command line of the viewer.

use vstd::prelude::*;

verus! {

/// What the command line gives: the file to open, if any.
#[derive(Debug, PartialEq)]
pub struct Cli {
    pub filename: Option<String>,
}

} // verus!
