//! The shell's command line.

use vstd::prelude::*;

verus! {

/// What the shell is asked to run: a script file and the arguments handed to
/// the script.
pub struct Args {
    /// The script to interpret and run.
    pub lua_file: String,
    /// The arguments passed on to the script.
    pub script_args: Vec<String>,
}

} // verus!
