//! Why a single file or entry was left out of a selection.

use vstd::prelude::*;

verus! {

/// What went wrong while one entry of the tree was looked at. None of these
/// ends a selection: the entry is left out and the walk goes on.
#[derive(Clone, Copy, Debug, PartialEq, Eq, Structural)]
pub enum CheckMarkdownFrontMatterError {
    /// The walk could not read an entry of the tree.
    WalkDirIterError,
    /// The file's content could not be read.
    ReadFileError,
    /// The key is there, but what it holds is not text.
    AsStringError,
}

} // verus!
