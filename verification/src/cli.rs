//! The command-line surface, as plain data: the optional maintenance
//! subcommand. Argument parsing itself happens outside the library; what
//! arrives here is already structured.

use vstd::prelude::*;

verus! {

/// The maintenance subcommands: add roots with their depth bounds, list the
/// configured roots, or delete some.
#[derive(Debug)]
pub enum Commands {
    Add { maxdepth: usize, mindepth: usize, paths: Vec<String> },
    List,
    Del { paths: Vec<String> },
}

/// A parsed invocation: a subcommand, or none for the interactive picker.
pub struct Cli {
    pub command: Option<Commands>,
}

} // verus!
