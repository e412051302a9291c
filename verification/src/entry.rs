//! The entries that a walk of a directory tree yields.

use vstd::prelude::*;
use vstd::string::*;

use crate::error::CheckMarkdownFrontMatterError;
use crate::path::{base_name, file_name};
use crate::text::ends_with;

verus! {

/// One entry of a directory tree: where it is, whether it is a regular file,
/// and how many levels below the root of the walk it lies.
#[derive(Debug, PartialEq, Eq)]
pub struct DirectoryEntry {
    pub path: String,
    pub is_file: bool,
    pub depth: usize,
}

impl DirectoryEntry {
    /// An entry for the given path.
    pub fn new(path: &str, is_file: bool, depth: usize) -> (r: DirectoryEntry)
        ensures
            r.path@ == path@,
            r.is_file == is_file,
            r.depth == depth,
    {
        DirectoryEntry { path: String::from_str(path), is_file, depth }
    }

}

impl Clone for DirectoryEntry {
    fn clone(&self) -> (r: DirectoryEntry)
        ensures
            r == *self,
    {
        DirectoryEntry { path: self.path.clone(), is_file: self.is_file, depth: self.depth }
    }
}

/// The paths of the entries.
pub open spec fn paths_of(files: Seq<DirectoryEntry>) -> Seq<Seq<char>> {
    files.map_values(|e: DirectoryEntry| e.path@)
}

/// The ending that marks a markdown file.
pub open spec fn markdown_suffix() -> Seq<char> {
    seq!['.', 'm', 'd']
}

/// A markdown file is a regular file whose name ends with `.md`, in exactly
/// this spelling.
pub open spec fn is_markdown_entry(entry: DirectoryEntry) -> bool {
    entry.is_file && markdown_suffix().is_suffix_of(file_name(entry.path@))
}

/// The entries that the walk could read, in the order of the walk.
pub open spec fn readable(
    items: Seq<Result<DirectoryEntry, CheckMarkdownFrontMatterError>>,
) -> Seq<DirectoryEntry> {
    items.filter(|item: Result<DirectoryEntry, CheckMarkdownFrontMatterError>| item is Ok)
        .map_values(|item: Result<DirectoryEntry, CheckMarkdownFrontMatterError>| item->Ok_0)
}

/// Whether the entry is a markdown file.
pub fn is_markdown(entry: &DirectoryEntry) -> (r: bool)
    ensures
        r == is_markdown_entry(*entry),
{
    if !entry.is_file {
        return false;
    }
    let name = base_name(entry.path.as_str());
    proof {
        reveal_strlit(".md");
        assert(".md"@ =~= markdown_suffix());
    }
    ends_with(name.as_str(), ".md")
}

/// The markdown files among `entries`, in their order.
pub fn find_markdown_files(entries: &Vec<DirectoryEntry>) -> (r: Vec<DirectoryEntry>)
    ensures
        r@ == entries@.filter(|e: DirectoryEntry| is_markdown_entry(e)),
{
    let ghost keep = |e: DirectoryEntry| is_markdown_entry(e);
    let mut r: Vec<DirectoryEntry> = Vec::new();
    let mut i: usize = 0;
    assert(entries@.take(0).filter(keep) =~= Seq::<DirectoryEntry>::empty());
    while i < entries.len()
        invariant
            i <= entries@.len(),
            keep == |e: DirectoryEntry| is_markdown_entry(e),
            r@ == entries@.take(i as int).filter(keep),
        decreases entries@.len() - i,
    {
        proof {
            assert(entries@.take(i + 1).drop_last() == entries@.take(i as int));
            reveal_with_fuel(Seq::filter, 2);
        }
        if is_markdown(&entries[i]) {
            r.push(entries[i].clone());
        }
        i += 1;
    }
    assert(entries@.take(i as int) == entries@);
    r
}

/// Goes on past what the walk could not read: keeps the entries that were
/// read, in their order, and drops each failure.
pub fn walkdir_iter(items: &Vec<Result<DirectoryEntry, CheckMarkdownFrontMatterError>>) -> (r: Vec<
    DirectoryEntry,
>)
    ensures
        r@ == readable(items@),
{
    let ghost is_ok = |item: Result<DirectoryEntry, CheckMarkdownFrontMatterError>| item is Ok;
    let ghost entry_of = |item: Result<DirectoryEntry, CheckMarkdownFrontMatterError>| item->Ok_0;
    let mut r: Vec<DirectoryEntry> = Vec::new();
    let mut i: usize = 0;
    assert(items@.take(0).filter(is_ok).map_values(entry_of) =~= Seq::<DirectoryEntry>::empty());
    while i < items.len()
        invariant
            i <= items@.len(),
            is_ok == |item: Result<DirectoryEntry, CheckMarkdownFrontMatterError>| item is Ok,
            entry_of == |item: Result<DirectoryEntry, CheckMarkdownFrontMatterError>| item->Ok_0,
            r@ == items@.take(i as int).filter(is_ok).map_values(entry_of),
        decreases items@.len() - i,
    {
        proof {
            assert(items@.take(i + 1).drop_last() == items@.take(i as int));
            reveal_with_fuel(Seq::filter, 2);
        }
        let ghost before = items@.take(i as int).filter(is_ok);
        match &items[i] {
            Ok(entry) => {
                r.push(entry.clone());
                assert(before.push(items@[i as int]).map_values(entry_of) =~= before.map_values(
                    entry_of,
                ).push(*entry));
            },
            Err(_) => {},
        }
        i += 1;
    }
    assert(items@.take(i as int) == items@);
    r
}

} // verus!
