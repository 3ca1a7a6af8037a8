//! The command-line grammar, as plain data. Parsing the actual
//! arguments into these types is left to the binary around the
//! library; here they are the record of what the surface accepts.

use vstd::prelude::*;

verus! {

/// A parsed command line: the project root and the chosen command.
#[derive(Clone, Debug)]
pub struct Cli {
    /// Project root directory; "." when not given.
    pub root: String,
    /// The subcommand, if one was given.
    pub command: Option<Commands>,
}

/// The subcommands of the command-line surface.
#[derive(Clone, Debug)]
pub enum Commands {
    /// Get symbol context: code plus callers and callees.
    Context { query: String, limit: usize },
    /// Find symbols by name.
    Search { query: String, pattern: Option<String>, limit: usize },
    /// Run batched read operations from a plan file.
    Plan { file: String },
    /// Write a file wholesale.
    Write { path: String, content: String },
    /// Edit a file by pattern.
    Edit { path: String, action: String, pattern: String, content: Option<String> },
    /// A compact codebase map, optionally scoped to one module.
    CodeMap { scope: Option<String> },
    /// Files, structure and key symbols.
    Overview,
    /// Build or rebuild the code graph.
    Build,
    /// Graph statistics.
    Stats,
    /// List all indexed files.
    Files,
    /// Show the version.
    Version,
}

impl Cli {
    /// The default invocation: current directory, no command.
    pub fn bare() -> (r: Cli)
        ensures
            r.root@ == "."@,
            r.command is None,
    {
        Cli { root: ".".to_owned(), command: None }
    }
}

} // verus!
