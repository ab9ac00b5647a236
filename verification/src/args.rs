//! The options the editor is started with.
use vstd::prelude::*;

verus! {

/// The command line of the editor.
pub struct Args {
    /// use extended regular expressions
    pub extended_regexp: bool,
    /// run in compatibility mode
    pub traditional: bool,
    /// exit with 0 status even if a command fails
    pub lose_exit_status: bool,
    pub prompt: Option<String>,
    pub verbose: bool,
    /// the file to edit
    pub file: Option<String>,
}

} // verus!
