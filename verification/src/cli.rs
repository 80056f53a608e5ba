//! The command line, as plain values: which command runs, with which
//! arguments. Parsing the arguments happens outside.
use vstd::prelude::*;
use crate::status::Status;

verus! {

/// What `section` does with the named section.
#[derive(Debug)]
pub enum SectionAction {
    /// Appends an entry.
    Add { text: String },
}

/// The subcommand and its arguments.
#[derive(Debug)]
pub enum Command {
    /// Lists the current repository's tickets (all repos with
    /// `all_repos`), optionally only those with one status.
    List { all_repos: bool, status: Option<Status> },
    /// Creates the note for the current ticket branch.
    New {
        /// Explicit ticket key; overrides the branch-derived id.
        key: Option<String>,
        description: Option<String>,
        /// Template value overrides, each `NAME=VALUE`.
        set: Vec<String>,
        /// Overrides the repo olink fill.
        repo: Option<String>,
    },
    /// Opens the current ticket's note in Obsidian.
    Open,
    /// Sets one frontmatter field of the current note.
    FrontMatter { key: String, value: String },
    /// Sets the current note's status.
    Status { value: Status },
    /// Reads a declared section of the current note, or adds an entry.
    Section { name: String, action: Option<SectionAction> },
    /// Prints shell completions for the named shell.
    Completion { shell: String },
}

/// The invocation: the command and the vault root override.
#[derive(Debug)]
pub struct Cli {
    pub command: Command,
    pub vault: Option<String>,
}

} // verus!
