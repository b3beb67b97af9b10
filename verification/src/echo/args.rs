//! What the command line of the resolver asks for.

use vstd::prelude::*;

verus! {

/// The parsed command line.
pub struct Args {
    pub command: Commands,
}

/// One invocation does one of these.
pub enum Commands {
    /// Runs the server.
    Serve,
    /// Adds a value to the table, under a key.
    Add { key: String, value: String },
    /// Prints records: at most `n` of them where `n` is given, as JSON where
    /// `json` is set.
    Print { n: Option<usize>, json: bool },
}

} // verus!
