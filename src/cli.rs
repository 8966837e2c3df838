//! The command-line model: subcommands and their arguments, as plain values.
use vstd::prelude::*;

verus! {

/// The whole command line: one subcommand.
pub struct Cli {
    pub command: Commands,
}

pub enum Commands {
    /// Adds a relative path header to files.
    Add(Args),
    /// Removes the path header from files.
    Remove(Args),
    /// Removes all comments from files, except for the path header.
    Clean(Args),
    /// Copies the content of several files to the clipboard or to a file.
    Copy(Args),
    /// Creates a file and folder structure from an indented listing.
    Structure(StructureArgs),
}

/// Presets for common kinds of projects.
#[derive(Clone, Copy, Debug, PartialEq, Eq, Structural)]
pub enum ProjectType {
    Rust,
    Python,
    Web,
    Java,
    Flutter,
}

/// Arguments shared by the file-walking subcommands.
#[derive(Debug)]
pub struct Args {
    /// The root directory to search for files in.
    pub directory: String,
    /// A preset for a common kind of project.
    pub project: Option<ProjectType>,
    /// A custom list of file extensions to process.
    pub exts: Option<Vec<String>>,
    /// How many levels up from the target directory the header path starts.
    pub up: u32,
    /// How many levels deep to search for files.
    pub depth: Option<usize>,
    /// Overwrites an existing path header.
    pub force: bool,
    /// Where `copy` writes instead of the clipboard.
    pub output: Option<String>,
}

impl Default for Args {
    fn default() -> (r: Args)
        ensures
            r.directory@.len() == 0,
            r.project is None,
            r.exts is None,
            r.up == 0,
            r.depth is None,
            !r.force,
            r.output is None,
    {
        Args {
            directory: String::new(),
            project: None,
            exts: None,
            up: 0,
            depth: None,
            force: false,
            output: None,
        }
    }
}

/// Arguments of the `structure` subcommand.
#[derive(Debug)]
pub struct StructureArgs {
    /// The file with the indented listing; standard input when absent.
    pub file: Option<String>,
    /// Where the structure is created; the current directory when absent.
    pub directory: Option<String>,
    /// The number of columns that make one level of indentation.
    pub indent: u32,
}

} // verus!
