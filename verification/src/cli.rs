//! The command surface: one subcommand per invocation. Argument parsing
//! itself happens outside the library; these types carry its result.
use vstd::prelude::*;

verus! {

/// A parsed invocation.
pub struct Cli {
    pub subcommand: SubCommands,
}

/// The four operations: create a local post, push one to the remote
/// store, fetch from it, or attach a file.
pub enum SubCommands {
    Create { post_name: Vec<Vec<u8>> },
    Push { post_name: Vec<Vec<u8>> },
    Fetch(FetchCommand),
    Attach { image_file: Vec<u8> },
}

/// How a fetch selects posts: by name, by number, or — with neither —
/// everything of the current user. The two selectors exclude each other
/// at the argument parser.
pub struct FetchCommand {
    pub name: Option<Vec<Vec<u8>>>,
    pub number: Option<u64>,
}

} // verus!
