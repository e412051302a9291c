//! Selects files of a source tree by the metadata block at the head of its
//! markdown documents, and plans the mirror of that selection into a
//! destination tree.
//!
//! The library works on plain values and touches no file system. Its user
//! walks the tree and reads the files, hands over what was found, and
//! carries out the steps that the library asks for:
//!
//! - `entry`: the entries of a walk, and which of them are markdown files;
//! - `front_matter`: the metadata block of a document and the test of a key
//!   against a pattern;
//! - `select`: the tagged files, the attachments, and the two together;
//! - `mirror`: the staging view of a selection and the run that makes a
//!   destination equal to it;
//! - `cli`: the action that the settings of a run ask for;
//! - `path`, `pattern`, `text`: paths as text, regular expressions, and
//!   helpers on characters.

pub mod cli;
pub mod entry;
pub mod error;
pub mod front_matter;
pub mod mirror;
pub mod path;
pub mod pattern;
pub mod select;
pub mod text;

pub use cli::{Action, Cli, CliError};
pub use entry::{find_markdown_files, is_markdown, walkdir_iter, DirectoryEntry};
pub use error::CheckMarkdownFrontMatterError;
pub use front_matter::{check_front_matter, contains_tag, read_front_matter, Field, FrontMatter};
pub use mirror::{
    rsync_files, MirrorAction, MirrorError, MirrorEvent, MirrorOutcome, MirrorPlan, MirrorRun,
    MirrorState, PlacedFile, StagedLink,
};
pub use path::dir_path_with_tail_slash;
pub use pattern::{Pattern, PatternError};
pub use select::{
    check_document, find_attachments, find_markdown_files_with_tag, is_attachment, print_files,
    select, union, Document,
};
