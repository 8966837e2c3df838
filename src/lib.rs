//! Path-header aware comment stripping for source files.
//!
//! The heart of the library is a line scanner that tells code from comments
//! and string literals across several comment styles, and an engine that
//! threads the scanner's carry state through a whole file.  Around it stand
//! the pieces of the command-line tool that decide rather than do: which
//! extensions a run covers, which comment syntax a file uses, the path that
//! goes into a header, how an indented listing reads, and when to look for
//! updates.

pub mod cli;
pub mod engine;
pub mod extensions;
pub mod header;
pub mod idempotence;
pub mod laws;
pub mod lines;
pub mod paths;
pub mod rescan;
pub mod scan;
pub mod structure;
pub mod style;
pub mod text;
pub mod updater;

pub use cli::{Args, Cli, Commands, ProjectType, StructureArgs};
pub use engine::{classify, clean_text, strip_comments, FileResult, LineOutcome, ScanState};
pub use extensions::{get_all_supported_extensions, resolve_extensions};
pub use lines::split_lines;
pub use paths::{display_path_within, generate_display_path};
pub use header::{bundle_files, drop_first_line, has_path_header, header_update, make_header};
pub use structure::{build_tree, parse_line, Entry};
pub use style::{flavor_of, get_comment_style, resolve, CommentStyle, Family, Flavor};
pub use updater::{should_check, update_available, version_of_tag};
