use smelt::{
    check_document, find_attachments, find_markdown_files, find_markdown_files_with_tag,
    is_attachment, is_markdown, print_files, select, union, walkdir_iter,
    CheckMarkdownFrontMatterError, DirectoryEntry, Document, Pattern,
};

fn pattern(text: &str) -> Pattern {
    Pattern::new(text).unwrap()
}

fn file(path: &str) -> DirectoryEntry {
    DirectoryEntry::new(path, true, path.matches('/').count())
}

fn dir(path: &str) -> DirectoryEntry {
    DirectoryEntry::new(path, false, path.matches('/').count())
}

fn doc(path: &str, content: &str) -> Document {
    Document { entry: file(path), content: Some(content.to_string()) }
}

fn unread(path: &str) -> Document {
    Document { entry: file(path), content: None }
}

fn paths(entries: &[DirectoryEntry]) -> Vec<&str> {
    entries.iter().map(|e| e.path.as_str()).collect()
}

fn sorted_paths(entries: &[DirectoryEntry]) -> Vec<&str> {
    let mut paths = paths(entries);
    paths.sort();
    paths
}

const DRAFT: &str = "---\nstatus: draft\n---\ntext\n";
const PUBLISHED: &str = "---\nstatus: published\n---\ntext\n";
const LISTED: &str = "---\nstatus:\n  - published\n---\ntext\n";

fn tree() -> Vec<DirectoryEntry> {
    vec![
        dir("notes"),
        file("notes/a.md"),
        file("notes/b.md"),
        dir("notes/img"),
        file("notes/img/a.png"),
        file("notes/img/readme.md"),
        dir("notes/deep"),
        file("notes/deep/c.md"),
        dir("notes/deep/img"),
        dir("notes/deep/img/raw"),
        file("notes/deep/img/raw/c.tiff"),
        file("notes/deep/d.txt"),
    ]
}

fn docs() -> Vec<Document> {
    vec![
        doc("notes/a.md", PUBLISHED),
        doc("notes/b.md", DRAFT),
        doc("notes/img/readme.md", PUBLISHED),
        doc("notes/deep/c.md", PUBLISHED),
    ]
}

#[test]
fn a_markdown_file_is_a_regular_file_named_md() {
    assert!(is_markdown(&file("notes/a.md")));
    assert!(is_markdown(&file("a.md")));
    assert!(is_markdown(&file("notes/.md")));
    assert!(is_markdown(&file("/abs/notes.d/x.y.md")));
    assert!(!is_markdown(&dir("notes/a.md")));
    assert!(!is_markdown(&file("notes/a.MD")));
    assert!(!is_markdown(&file("notes/a.md.bak")));
    assert!(!is_markdown(&file("notes/amd")));
    assert!(!is_markdown(&file("notes/a.mdx")));
    assert!(!is_markdown(&file("notes.md/a.txt")));
    assert!(!is_markdown(&file("notes/md")));
}

#[test]
fn entries_are_made_as_given() {
    let entry = DirectoryEntry::new("notes/a.md", true, 1);
    assert_eq!(entry.path, "notes/a.md");
    assert!(entry.is_file);
    assert_eq!(entry.depth, 1);
    assert_eq!(entry.clone(), entry);
}

#[test]
fn find_markdown_files_keeps_the_order() {
    assert_eq!(
        paths(&find_markdown_files(&tree())),
        vec!["notes/a.md", "notes/b.md", "notes/img/readme.md", "notes/deep/c.md"]
    );
    assert!(find_markdown_files(&vec![]).is_empty());
}

#[test]
fn the_walk_goes_on_past_failures() {
    let items = vec![
        Ok(dir("notes")),
        Err(CheckMarkdownFrontMatterError::WalkDirIterError),
        Ok(file("notes/a.md")),
        Err(CheckMarkdownFrontMatterError::WalkDirIterError),
        Err(CheckMarkdownFrontMatterError::ReadFileError),
        Ok(file("notes/b.md")),
    ];
    assert_eq!(paths(&walkdir_iter(&items)), vec!["notes", "notes/a.md", "notes/b.md"]);
    assert!(walkdir_iter(&vec![Err(CheckMarkdownFrontMatterError::WalkDirIterError)]).is_empty());
    assert!(walkdir_iter(&vec![]).is_empty());
}

#[test]
fn a_document_without_content_is_an_error() {
    let published = pattern("published");
    assert_eq!(
        check_document(&unread("notes/a.md"), "status", &published),
        Err(CheckMarkdownFrontMatterError::ReadFileError)
    );
    assert_eq!(check_document(&doc("notes/a.md", PUBLISHED), "status", &published), Ok(true));
    assert_eq!(check_document(&doc("notes/a.md", DRAFT), "status", &published), Ok(false));
    assert_eq!(
        check_document(&doc("notes/a.md", LISTED), "status", &published),
        Err(CheckMarkdownFrontMatterError::AsStringError)
    );
}

#[test]
fn tagged_files_are_found_in_order() {
    let found = find_markdown_files_with_tag(&docs(), "status", &pattern("^published$"));
    assert_eq!(paths(&found), vec!["notes/a.md", "notes/img/readme.md", "notes/deep/c.md"]);
    let found = find_markdown_files_with_tag(&docs(), "status", &pattern("draft"));
    assert_eq!(paths(&found), vec!["notes/b.md"]);
    let found = find_markdown_files_with_tag(&docs(), "state", &pattern(""));
    assert!(found.is_empty());
}

#[test]
fn a_failing_document_is_left_out_and_the_rest_stays() {
    let docs = vec![
        unread("notes/gone.md"),
        doc("notes/a.md", PUBLISHED),
        doc("notes/list.md", LISTED),
        doc("notes/c.md", PUBLISHED),
    ];
    let found = find_markdown_files_with_tag(&docs, "status", &pattern("published"));
    assert_eq!(paths(&found), vec!["notes/a.md", "notes/c.md"]);
}

#[test]
fn only_markdown_files_are_tagged() {
    let docs = vec![
        doc("notes/a.txt", PUBLISHED),
        Document { entry: dir("notes/dir.md"), content: Some(PUBLISHED.to_string()) },
        doc("notes/a.md", PUBLISHED),
    ];
    let found = find_markdown_files_with_tag(&docs, "status", &pattern("published"));
    assert_eq!(paths(&found), vec!["notes/a.md"]);
}

#[test]
fn an_attachment_lies_below_a_matching_directory() {
    let attachment = pattern("attachment");
    assert!(is_attachment(&attachment, &file("root/attachment/x/y.png")));
    assert!(is_attachment(&attachment, &file("root/attachment/y.png")));
    assert!(is_attachment(&attachment, &file("attachments/y.png")));
    assert!(!is_attachment(&attachment, &file("root/other/y.png")));
    assert!(!is_attachment(&attachment, &file("y.png")));
}

#[test]
fn the_pattern_is_held_against_the_directories_not_the_file() {
    let attachment = pattern("attachment");
    assert!(!is_attachment(&attachment, &file("root/attachment.png")));
    assert!(!is_attachment(&attachment, &file("attachment")));
}

#[test]
fn the_pattern_sees_the_whole_path_of_a_directory() {
    assert!(is_attachment(&pattern("^root/img$"), &file("root/img/a.png")));
    assert!(!is_attachment(&pattern("^root/img$"), &file("other/root/img/a.png")));
    assert!(is_attachment(&pattern("root/img$"), &file("other/root/img/deep/a.png")));
    assert!(is_attachment(&pattern("^/$"), &file("/srv/a.png")));
    assert!(!is_attachment(&pattern("^/$"), &file("srv/a.png")));
    assert!(is_attachment(&pattern("^$"), &file("srv/a.png")));
}

#[test]
fn attachments_are_files_of_any_kind() {
    let found = find_attachments(&tree(), &pattern("img"));
    assert_eq!(
        paths(&found),
        vec!["notes/img/a.png", "notes/img/readme.md", "notes/deep/img/raw/c.tiff"]
    );
    assert!(find_attachments(&tree(), &pattern("attachment")).is_empty());
}

#[test]
fn union_takes_each_path_once() {
    let first = vec![file("a"), file("b"), file("a")];
    let second = vec![file("c"), file("b"), file("d"), file("c")];
    assert_eq!(paths(&union(&first, &second)), vec!["a", "b", "c", "d"]);
    assert_eq!(paths(&union(&vec![], &second)), vec!["c", "b", "d"]);
    assert_eq!(paths(&union(&first, &vec![])), vec!["a", "b"]);
    assert!(union(&vec![], &vec![]).is_empty());
}

#[test]
fn union_keeps_the_first_entry_of_a_path() {
    let first = vec![DirectoryEntry::new("a", true, 1)];
    let second = vec![DirectoryEntry::new("a", false, 7)];
    assert_eq!(union(&first, &second), vec![DirectoryEntry::new("a", true, 1)]);
}

#[test]
fn select_without_attachments_is_the_tagged_files() {
    let selected = select(&docs(), &tree(), "status", &pattern("published"), None);
    assert_eq!(paths(&selected), vec!["notes/a.md", "notes/img/readme.md", "notes/deep/c.md"]);
}

#[test]
fn select_adds_the_attachments_once() {
    let img = pattern("img");
    let selected = select(&docs(), &tree(), "status", &pattern("published"), Some(&img));
    assert_eq!(
        paths(&selected),
        vec![
            "notes/a.md",
            "notes/img/readme.md",
            "notes/deep/c.md",
            "notes/img/a.png",
            "notes/deep/img/raw/c.tiff",
        ]
    );
}

#[test]
fn selecting_twice_selects_the_same() {
    let img = pattern("img");
    let published = pattern("published");
    let first = select(&docs(), &tree(), "status", &published, Some(&img));
    let second = select(&docs(), &tree(), "status", &published, Some(&img));
    assert_eq!(first, second);

    // A second pass may meet the entries in another order.
    let mut tree_again = tree();
    tree_again.reverse();
    let mut docs_again = docs();
    docs_again.rotate_left(2);
    let third = select(&docs_again, &tree_again, "status", &published, Some(&img));
    assert_eq!(sorted_paths(&first), sorted_paths(&third));
}

#[test]
fn print_files_writes_one_path_on_each_line() {
    let files = vec![file("notes/a.md"), file("notes/deep/c.md")];
    assert_eq!(print_files(&files), "notes/a.md\nnotes/deep/c.md\n");
    assert_eq!(print_files(&vec![file("a")]), "a\n");
    assert_eq!(print_files(&vec![]), "");
}
