//! The selection: the markdown files that carry a tag, the files that lie in
//! an attachment directory, and the two taken together.

use vstd::prelude::*;
use vstd::string::*;

use crate::entry::{is_markdown, is_markdown_entry, paths_of, DirectoryEntry};
use crate::error::CheckMarkdownFrontMatterError;
use crate::front_matter::{contains_tag, front_matter_of, tag_outcome};
use crate::path::{
    ancestor, ancestors, components, is_under, lemma_under_each_ancestor, list_ancestors,
};
use crate::pattern::{pattern_matches, Pattern};
use crate::text::trimmed;

verus! {

/// A file of the tree together with what was read from it. `content` is
/// `None` where the file could not be read.
#[derive(Debug, PartialEq, Eq)]
pub struct Document {
    pub entry: DirectoryEntry,
    pub content: Option<String>,
}

/// What the test for a tag comes to on one document: the outcome of the test
/// on its content, and an error where there is no content to test.
pub open spec fn document_outcome(doc: Document, key: Seq<char>, pattern: Seq<char>) -> Result<
    bool,
    CheckMarkdownFrontMatterError,
> {
    match doc.content {
        Some(content) => tag_outcome(front_matter_of(trimmed(content@)), key, pattern),
        None => Err(CheckMarkdownFrontMatterError::ReadFileError),
    }
}

/// A document is selected by its tag when it is a markdown file and the test
/// says yes. A document on which the test fails is not selected.
pub open spec fn is_tagged(doc: Document, key: Seq<char>, pattern: Seq<char>) -> bool {
    is_markdown_entry(doc.entry) && document_outcome(doc, key, pattern) == Ok::<
        bool,
        CheckMarkdownFrontMatterError,
    >(true)
}

/// A path lies in an attachment directory when the pattern matches the path
/// of one of the directories above it.
pub open spec fn in_attachment_dir(pattern: Seq<char>, path: Seq<char>) -> bool {
    exists|i: int|
        0 <= i < ancestors(path).len() && pattern_matches(pattern, #[trigger] ancestors(path)[i])
}

/// An attachment is a regular file in an attachment directory, whatever its
/// name.
pub open spec fn is_attachment_entry(pattern: Seq<char>, entry: DirectoryEntry) -> bool {
    entry.is_file && in_attachment_dir(pattern, entry.path@)
}

/// The documents selected by their tag, as entries, in their order.
pub open spec fn tagged_entries(docs: Seq<Document>, key: Seq<char>, pattern: Seq<char>) -> Seq<
    DirectoryEntry,
> {
    docs.filter(|d: Document| is_tagged(d, key, pattern)).map_values(|d: Document| d.entry)
}

/// The attachments among the entries, in their order.
pub open spec fn attachment_entries(entries: Seq<DirectoryEntry>, pattern: Seq<char>) -> Seq<
    DirectoryEntry,
> {
    entries.filter(|e: DirectoryEntry| is_attachment_entry(pattern, e))
}

/// Whether one of the entries has the path `path`.
pub open spec fn has_path(entries: Seq<DirectoryEntry>, path: Seq<char>) -> bool {
    exists|i: int| 0 <= i < entries.len() && (#[trigger] entries[i]).path@ == path
}

/// The entries without those whose path an entry before them has.
pub open spec fn distinct_paths(entries: Seq<DirectoryEntry>) -> Seq<DirectoryEntry>
    decreases entries.len(),
{
    if entries.len() == 0 {
        Seq::empty()
    } else {
        let before = distinct_paths(entries.drop_last());
        if has_path(before, entries.last().path@) {
            before
        } else {
            before.push(entries.last())
        }
    }
}

/// The attachments to add to a selection: those among `entries`, where a
/// pattern for attachment directories is given, and none where it is not.
pub open spec fn wanted_attachments(
    entries: Seq<DirectoryEntry>,
    attachment: Option<Seq<char>>,
) -> Seq<DirectoryEntry> {
    match attachment {
        Some(pattern) => attachment_entries(entries, pattern),
        None => Seq::empty(),
    }
}

/// The selection: the tagged documents, then the attachments, each path
/// once.
pub open spec fn selection(
    docs: Seq<Document>,
    entries: Seq<DirectoryEntry>,
    key: Seq<char>,
    pattern: Seq<char>,
    attachment: Option<Seq<char>>,
) -> Seq<DirectoryEntry> {
    distinct_paths(tagged_entries(docs, key, pattern) + wanted_attachments(entries, attachment))
}

/// The pattern's source, where there is a pattern.
pub open spec fn source_of(pattern: Option<&Pattern>) -> Option<Seq<char>> {
    match pattern {
        Some(p) => Some(p@),
        None => None,
    }
}

/// What print mode writes: each path on a line of its own, in order.
pub open spec fn printed(paths: Seq<Seq<char>>) -> Seq<char>
    decreases paths.len(),
{
    if paths.len() == 0 {
        Seq::empty()
    } else {
        (printed(paths.drop_last()) + paths.last()).push('\n')
    }
}

/// The path of a document that its tag selects.
pub open spec fn tagged_path(
    docs: Seq<Document>,
    key: Seq<char>,
    pattern: Seq<char>,
    path: Seq<char>,
) -> bool {
    exists|i: int|
        0 <= i < docs.len() && is_tagged(#[trigger] docs[i], key, pattern) && docs[i].entry.path@
            == path
}

/// The path of an attachment among the entries, where attachments are asked
/// for.
pub open spec fn attachment_path(
    entries: Seq<DirectoryEntry>,
    attachment: Option<Seq<char>>,
    path: Seq<char>,
) -> bool {
    attachment is Some && exists|i: int|
        0 <= i < entries.len() && is_attachment_entry(attachment->Some_0, #[trigger] entries[i])
            && entries[i].path@ == path
}

/// Tests one document for the tag.
pub fn check_document(doc: &Document, key: &str, pattern: &Pattern) -> (r: Result<
    bool,
    CheckMarkdownFrontMatterError,
>)
    ensures
        r == document_outcome(*doc, key@, pattern@),
{
    match &doc.content {
        Some(content) => contains_tag(content.as_str(), key, pattern),
        None => Err(CheckMarkdownFrontMatterError::ReadFileError),
    }
}

/// The markdown files among `docs` whose metadata block holds `key` with a
/// text that `value` matches. A document that could not be read, or whose
/// key holds something other than text, is left out; the others are not
/// affected by it.
pub fn find_markdown_files_with_tag(docs: &Vec<Document>, key: &str, value: &Pattern) -> (r: Vec<
    DirectoryEntry,
>)
    ensures
        r@ == tagged_entries(docs@, key@, value@),
{
    let ghost keep = |d: Document| is_tagged(d, key@, value@);
    let ghost entry_of = |d: Document| d.entry;
    let mut r: Vec<DirectoryEntry> = Vec::new();
    let mut i: usize = 0;
    assert(docs@.take(0).filter(keep).map_values(entry_of) =~= Seq::<DirectoryEntry>::empty());
    while i < docs.len()
        invariant
            i <= docs@.len(),
            keep == |d: Document| is_tagged(d, key@, value@),
            entry_of == |d: Document| d.entry,
            r@ == docs@.take(i as int).filter(keep).map_values(entry_of),
        decreases docs@.len() - i,
    {
        proof {
            assert(docs@.take(i + 1).drop_last() == docs@.take(i as int));
            reveal_with_fuel(Seq::filter, 2);
        }
        let ghost before = docs@.take(i as int).filter(keep);
        let doc = &docs[i];
        let tagged = is_markdown(&doc.entry) && match check_document(doc, key, value) {
            Ok(found) => found,
            Err(_) => false,
        };
        if tagged {
            r.push(doc.entry.clone());
            assert(before.push(docs@[i as int]).map_values(entry_of) =~= before.map_values(
                entry_of,
            ).push(doc.entry));
        }
        i += 1;
    }
    assert(docs@.take(i as int) == docs@);
    r
}

/// Whether `file` lies in an attachment directory: whether the pattern
/// matches the path of a directory above it.
pub fn is_attachment(attachment_dir_re: &Pattern, file: &DirectoryEntry) -> (r: bool)
    ensures
        r == in_attachment_dir(attachment_dir_re@, file.path@),
{
    let dirs = list_ancestors(file.path.as_str());
    let mut i: usize = 0;
    while i < dirs.len()
        invariant
            i <= dirs@.len(),
            dirs@.len() == ancestors(file.path@).len(),
            forall|j: int| 0 <= j < dirs@.len() ==> (#[trigger] dirs@[j])@ == ancestors(file.path@)[j],
            forall|j: int|
                0 <= j < i ==> !pattern_matches(
                    attachment_dir_re@,
                    #[trigger] ancestors(file.path@)[j],
                ),
        decreases dirs@.len() - i,
    {
        if attachment_dir_re.is_match(dirs[i].as_str()) {
            assert(pattern_matches(attachment_dir_re@, ancestors(file.path@)[i as int]));
            return true;
        }
        i += 1;
    }
    false
}

/// The regular files among `entries` that lie in an attachment directory.
pub fn find_attachments(entries: &Vec<DirectoryEntry>, attachment_dir_re: &Pattern) -> (r: Vec<
    DirectoryEntry,
>)
    ensures
        r@ == attachment_entries(entries@, attachment_dir_re@),
{
    let ghost keep = |e: DirectoryEntry| is_attachment_entry(attachment_dir_re@, e);
    let mut r: Vec<DirectoryEntry> = Vec::new();
    let mut i: usize = 0;
    assert(entries@.take(0).filter(keep) =~= Seq::<DirectoryEntry>::empty());
    while i < entries.len()
        invariant
            i <= entries@.len(),
            keep == |e: DirectoryEntry| is_attachment_entry(attachment_dir_re@, e),
            r@ == entries@.take(i as int).filter(keep),
        decreases entries@.len() - i,
    {
        proof {
            assert(entries@.take(i + 1).drop_last() == entries@.take(i as int));
            reveal_with_fuel(Seq::filter, 2);
        }
        if entries[i].is_file && is_attachment(attachment_dir_re, &entries[i]) {
            r.push(entries[i].clone());
        }
        i += 1;
    }
    assert(entries@.take(i as int) == entries@);
    r
}

/// Whether one of the entries has the path `path`.
fn paths_contain(entries: &Vec<DirectoryEntry>, path: &String) -> (r: bool)
    ensures
        r == has_path(entries@, path@),
{
    let mut i: usize = 0;
    while i < entries.len()
        invariant
            i <= entries@.len(),
            forall|j: int| 0 <= j < i ==> (#[trigger] entries@[j]).path@ != path@,
        decreases entries@.len() - i,
    {
        if entries[i].path == *path {
            return true;
        }
        i += 1;
    }
    false
}

/// Two lists of entries as one, each path once: where a path comes again,
/// the first entry with it stays.
pub fn union(first: &Vec<DirectoryEntry>, second: &Vec<DirectoryEntry>) -> (r: Vec<DirectoryEntry>)
    ensures
        r@ == distinct_paths(first@ + second@),
{
    let ghost all = first@ + second@;
    let mut r: Vec<DirectoryEntry> = Vec::new();
    let mut i: usize = 0;
    assert(all.take(0) =~= Seq::<DirectoryEntry>::empty());
    while i < first.len()
        invariant
            i <= first@.len(),
            all == first@ + second@,
            r@ == distinct_paths(all.take(i as int)),
        decreases first@.len() - i,
    {
        assert(all.take(i + 1).drop_last() == all.take(i as int));
        assert(all.take(i + 1).last() == first@[i as int]);
        if !paths_contain(&r, &first[i].path) {
            r.push(first[i].clone());
        }
        i += 1;
    }
    let mut j: usize = 0;
    while j < second.len()
        invariant
            j <= second@.len(),
            all == first@ + second@,
            r@ == distinct_paths(all.take(first@.len() + j)),
        decreases second@.len() - j,
    {
        assert(all.take(first@.len() + j + 1).drop_last() == all.take(first@.len() + j));
        assert(all.take(first@.len() + j + 1).last() == second@[j as int]);
        if !paths_contain(&r, &second[j].path) {
            r.push(second[j].clone());
        }
        j += 1;
    }
    assert(all.take(first@.len() + j) == all);
    r
}

/// Selects among the files of a tree. `docs` are the files of the tree with
/// what was read from them, `entries` all entries of the tree. Selected are
/// the markdown files tagged with `key` and `value`, and, where
/// `attachment_dir_re` is given, the files in attachment directories; a file
/// that is both is selected once.
pub fn select(
    docs: &Vec<Document>,
    entries: &Vec<DirectoryEntry>,
    key: &str,
    value: &Pattern,
    attachment_dir_re: Option<&Pattern>,
) -> (r: Vec<DirectoryEntry>)
    ensures
        r@ == selection(docs@, entries@, key@, value@, source_of(attachment_dir_re)),
{
    let tagged = find_markdown_files_with_tag(docs, key, value);
    let attachments = match attachment_dir_re {
        Some(pattern) => find_attachments(entries, pattern),
        None => Vec::new(),
    };
    union(&tagged, &attachments)
}

/// The text that print mode writes for `files`: the path of each file,
/// followed by a line break.
pub fn print_files(files: &Vec<DirectoryEntry>) -> (r: String)
    ensures
        r@ == printed(paths_of(files@)),
{
    let ghost paths = paths_of(files@);
    let mut r = String::new();
    let mut i: usize = 0;
    assert(paths.take(0) =~= Seq::<Seq<char>>::empty());
    while i < files.len()
        invariant
            i <= files@.len(),
            paths == paths_of(files@),
            r@ == printed(paths.take(i as int)),
        decreases files@.len() - i,
    {
        assert(paths.take(i + 1).drop_last() == paths.take(i as int));
        assert(paths.take(i + 1).last() == files@[i as int].path@);
        let ghost before = r@;
        r.append(files[i].path.as_str());
        r.append("\n");
        proof {
            reveal_strlit("\n");
            assert("\n"@ =~= seq!['\n']);
            assert(r@ =~= (before + files@[i as int].path@).push('\n'));
        }
        i += 1;
    }
    assert(paths.take(i as int) == paths);
    r
}

/// A file in an attachment directory lies under a directory whose path the
/// pattern matches.
pub proof fn lemma_attachment_lies_under_a_match(pattern: Seq<char>, path: Seq<char>)
    requires
        in_attachment_dir(pattern, path),
    ensures
        exists|dir: Seq<char>| is_under(path, dir) && #[trigger] pattern_matches(pattern, dir),
{
    let i = choose|i: int|
        0 <= i < ancestors(path).len() && pattern_matches(pattern, #[trigger] ancestors(path)[i]);
    lemma_under_each_ancestor(path, i);
    assert(is_under(path, ancestors(path)[i]) && pattern_matches(pattern, ancestors(path)[i]));
}

/// An attachment directory is swept in with all that is below it. Where the
/// pattern matches a directory above `path`, every path that lies deeper
/// under that directory is in an attachment directory too, however many
/// directories are between.
pub proof fn lemma_attachment_dir_is_swept_in(
    pattern: Seq<char>,
    path: Seq<char>,
    i: int,
    other: Seq<char>,
)
    requires
        0 <= i < ancestors(path).len(),
        pattern_matches(pattern, ancestors(path)[i]),
        is_under(other, ancestors(path)[i]),
        components(other).len() > components(ancestors(path)[i]).len(),
    ensures
        in_attachment_dir(pattern, other),
{
    let dir = ancestors(path)[i];
    lemma_under_each_ancestor(path, i);
    let k = components(dir).len() as int;
    let j = components(other).len() - 1 - k;
    assert(components(other).take(k) =~= components(dir));
    assert(components(path).take(k) =~= components(dir));
    assert(ancestors(other)[j] == ancestor(other, k));
    assert(ancestor(other, k) == dir);
}

/// Taking each path once loses no path and adds none, and leaves no path
/// twice.
pub proof fn lemma_distinct_paths(entries: Seq<DirectoryEntry>)
    ensures
        forall|i: int, j: int|
            0 <= i < j < distinct_paths(entries).len() ==> (#[trigger] distinct_paths(
                entries,
            )[i]).path@ != (#[trigger] distinct_paths(entries)[j]).path@,
        forall|path: Seq<char>| #[trigger]
            has_path(distinct_paths(entries), path) <==> has_path(entries, path),
    decreases entries.len(),
{
    let out = distinct_paths(entries);
    if entries.len() > 0 {
        let init = entries.drop_last();
        let before = distinct_paths(init);
        let last = entries.last();
        lemma_distinct_paths(init);
        assert forall|path: Seq<char>| #[trigger]
            has_path(out, path) <==> has_path(entries, path) by {
            if has_path(out, path) {
                let k = choose|k: int| 0 <= k < out.len() && (#[trigger] out[k]).path@ == path;
                if k < before.len() {
                    assert(before[k].path@ == path);
                    assert(has_path(before, path));
                    let i = choose|i: int| 0 <= i < init.len() && (#[trigger] init[i]).path@ == path;
                    assert(entries[i].path@ == path);
                } else {
                    assert(entries[entries.len() - 1].path@ == path);
                }
            }
            if has_path(entries, path) {
                let i = choose|i: int| 0 <= i < entries.len() && (#[trigger] entries[i]).path@ == path;
                if i < init.len() {
                    assert(init[i].path@ == path);
                    assert(has_path(before, path));
                    let k = choose|k: int| 0 <= k < before.len() && (#[trigger] before[k]).path@ == path;
                    assert(out[k].path@ == path);
                } else if has_path(before, path) {
                    let k = choose|k: int| 0 <= k < before.len() && (#[trigger] before[k]).path@ == path;
                    assert(out[k].path@ == path);
                } else {
                    assert(out[out.len() - 1].path@ == path);
                }
            }
        }
        assert forall|i: int, j: int| 0 <= i < j < out.len() implies (#[trigger] out[i]).path@ != (
        #[trigger] out[j]).path@ by {
            if j < before.len() {
                assert(out[i] == before[i] && out[j] == before[j]);
            } else {
                assert(out[i] == before[i]);
                assert(out[j] == last);
            }
        }
    }
}

/// What a selection holds: exactly the paths of the documents that their
/// tag selects and, where attachments are asked for, of the attachments.
pub proof fn lemma_selection_paths(
    docs: Seq<Document>,
    entries: Seq<DirectoryEntry>,
    key: Seq<char>,
    pattern: Seq<char>,
    attachment: Option<Seq<char>>,
    path: Seq<char>,
)
    ensures
        has_path(selection(docs, entries, key, pattern, attachment), path) <==> tagged_path(
            docs,
            key,
            pattern,
            path,
        ) || attachment_path(entries, attachment, path),
{
    broadcast use {
        Seq::lemma_filter_pred,
        Seq::lemma_filter_contains,
        Seq::lemma_filter_contains_rev,
    };

    let keep = |d: Document| is_tagged(d, key, pattern);
    let kept = docs.filter(keep);
    let tagged = tagged_entries(docs, key, pattern);
    let wanted = wanted_attachments(entries, attachment);
    let all = tagged + wanted;
    lemma_distinct_paths(all);
    assert(has_path(distinct_paths(all), path) <==> has_path(all, path));
    if has_path(all, path) {
        let i = choose|i: int| 0 <= i < all.len() && (#[trigger] all[i]).path@ == path;
        if i < tagged.len() {
            assert(tagged[i] == kept[i].entry);
            assert(keep(kept[i]));
            assert(kept.contains(kept[i]));
            assert(docs.contains(kept[i]));
            let j = choose|j: int| 0 <= j < docs.len() && docs[j] == kept[i];
            assert(is_tagged(docs[j], key, pattern));
            assert(tagged_path(docs, key, pattern, path));
        } else {
            let k = i - tagged.len();
            assert(all[i] == wanted[k]);
            let a = attachment->Some_0;
            let is_att = |e: DirectoryEntry| is_attachment_entry(a, e);
            assert(wanted == entries.filter(is_att));
            assert(is_att(wanted[k]));
            assert(wanted.contains(wanted[k]));
            assert(entries.contains(wanted[k]));
            let j = choose|j: int| 0 <= j < entries.len() && entries[j] == wanted[k];
            assert(is_attachment_entry(a, entries[j]));
            assert(attachment_path(entries, attachment, path));
        }
    }
    if tagged_path(docs, key, pattern, path) {
        let j = choose|j: int|
            0 <= j < docs.len() && is_tagged(#[trigger] docs[j], key, pattern)
                && docs[j].entry.path@ == path;
        assert(keep(docs[j]));
        assert(kept.contains(docs[j]));
        let i = choose|i: int| 0 <= i < kept.len() && kept[i] == docs[j];
        assert(tagged[i] == kept[i].entry);
        assert(all[i] == tagged[i]);
        assert(has_path(all, path));
    }
    if attachment_path(entries, attachment, path) {
        let a = attachment->Some_0;
        let is_att = |e: DirectoryEntry| is_attachment_entry(a, e);
        let j = choose|j: int|
            0 <= j < entries.len() && is_attachment_entry(a, #[trigger] entries[j])
                && entries[j].path@ == path;
        assert(is_att(entries[j]));
        assert(wanted == entries.filter(is_att));
        assert(wanted.contains(entries[j]));
        let k = choose|k: int| 0 <= k < wanted.len() && wanted[k] == entries[j];
        assert(all[tagged.len() + k] == wanted[k]);
        assert(has_path(all, path));
    }
}

/// Selecting again selects the same. Two passes over a tree that did not
/// change may meet its entries in another order; as long as they meet the
/// same documents and the same entries, the two selections hold the same
/// paths.
pub proof fn lemma_selection_is_stable(
    docs: Seq<Document>,
    entries: Seq<DirectoryEntry>,
    docs_again: Seq<Document>,
    entries_again: Seq<DirectoryEntry>,
    key: Seq<char>,
    pattern: Seq<char>,
    attachment: Option<Seq<char>>,
)
    requires
        docs.to_set() == docs_again.to_set(),
        entries.to_set() == entries_again.to_set(),
    ensures
        paths_of(selection(docs, entries, key, pattern, attachment)).to_set() == paths_of(
            selection(docs_again, entries_again, key, pattern, attachment),
        ).to_set(),
{
    let first = selection(docs, entries, key, pattern, attachment);
    let second = selection(docs_again, entries_again, key, pattern, attachment);
    assert forall|path: Seq<char>| has_path(first, path) <==> has_path(second, path) by {
        lemma_selection_paths(docs, entries, key, pattern, attachment, path);
        lemma_selection_paths(docs_again, entries_again, key, pattern, attachment, path);
        lemma_same_documents(docs, docs_again, key, pattern, path);
        lemma_same_documents(docs_again, docs, key, pattern, path);
        lemma_same_entries(entries, entries_again, attachment, path);
        lemma_same_entries(entries_again, entries, attachment, path);
    }
    assert forall|path: Seq<char>|
        paths_of(first).to_set().contains(path) <==> paths_of(second).to_set().contains(path) by {
        lemma_paths_of(first, path);
        lemma_paths_of(second, path);
    }
    assert(paths_of(first).to_set() =~= paths_of(second).to_set());
}

/// A path is among the paths of the entries exactly if one of them has it.
proof fn lemma_paths_of(entries: Seq<DirectoryEntry>, path: Seq<char>)
    ensures
        paths_of(entries).to_set().contains(path) <==> has_path(entries, path),
{
    let paths = paths_of(entries);
    if paths.to_set().contains(path) {
        assert(paths.contains(path));
        let i = choose|i: int| 0 <= i < paths.len() && paths[i] == path;
        assert(entries[i].path@ == path);
    }
    if has_path(entries, path) {
        let i = choose|i: int| 0 <= i < entries.len() && (#[trigger] entries[i]).path@ == path;
        assert(paths[i] == path);
        assert(paths.contains(path));
    }
}

/// A tagged path of some documents is one of any list with those documents.
proof fn lemma_same_documents(
    docs: Seq<Document>,
    others: Seq<Document>,
    key: Seq<char>,
    pattern: Seq<char>,
    path: Seq<char>,
)
    requires
        docs.to_set() == others.to_set(),
    ensures
        tagged_path(docs, key, pattern, path) ==> tagged_path(others, key, pattern, path),
{
    if tagged_path(docs, key, pattern, path) {
        let i = choose|i: int|
            0 <= i < docs.len() && is_tagged(#[trigger] docs[i], key, pattern)
                && docs[i].entry.path@ == path;
        assert(docs.contains(docs[i]));
        assert(docs.to_set().contains(docs[i]));
        assert(others.to_set().contains(docs[i]));
        assert(others.contains(docs[i]));
        let j = choose|j: int| 0 <= j < others.len() && others[j] == docs[i];
        assert(is_tagged(others[j], key, pattern));
    }
}

/// An attachment path of some entries is one of any list with those entries.
proof fn lemma_same_entries(
    entries: Seq<DirectoryEntry>,
    others: Seq<DirectoryEntry>,
    attachment: Option<Seq<char>>,
    path: Seq<char>,
)
    requires
        entries.to_set() == others.to_set(),
    ensures
        attachment_path(entries, attachment, path) ==> attachment_path(others, attachment, path),
{
    if attachment_path(entries, attachment, path) {
        let a = attachment->Some_0;
        let i = choose|i: int|
            0 <= i < entries.len() && is_attachment_entry(a, #[trigger] entries[i])
                && entries[i].path@ == path;
        assert(entries.contains(entries[i]));
        assert(entries.to_set().contains(entries[i]));
        assert(others.to_set().contains(entries[i]));
        assert(others.contains(entries[i]));
        let j = choose|j: int| 0 <= j < others.len() && others[j] == entries[i];
        assert(is_attachment_entry(a, others[j]));
    }
}

} // verus!
