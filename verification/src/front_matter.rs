//! The metadata block at the head of a markdown document, and the test of
//! one of its keys against a pattern.

use gray_matter::engine::YAML;
use gray_matter::Matter;
use vstd::prelude::*;
use vstd::string::*;

use crate::error::CheckMarkdownFrontMatterError;
use crate::pattern::{pattern_matches, Pattern};
use crate::text::{text_eq, trim, trimmed};

verus! {

/// One entry of a metadata block: a key, and the text it holds. `value` is
/// `None` where the key holds something that is not text (a number, a list,
/// a nested mapping).
#[derive(Debug, PartialEq, Eq)]
pub struct Field {
    pub key: String,
    pub value: Option<String>,
}

/// What stands at the head of a document.
#[derive(Debug, PartialEq, Eq)]
pub enum FrontMatter {
    /// No metadata block.
    Absent,
    /// A block whose data is not a mapping from keys to values.
    NotMapping,
    /// A mapping, as its entries. Where a key stands twice, the first entry
    /// counts.
    Mapping(Vec<Field>),
}

/// A metadata block as a mathematical value: the order of the entries is
/// gone, and each key has one value.
pub enum FrontMatterView {
    Absent,
    NotMapping,
    Mapping(Map<Seq<char>, Option<Seq<char>>>),
}

/// The text of a value, if it is text.
pub open spec fn value_view(value: Option<String>) -> Option<Seq<char>> {
    match value {
        Some(text) => Some(text@),
        None => None,
    }
}

/// The value of the first entry at or after position `from` whose key is
/// `key`; `None` where no such entry exists.
pub open spec fn lookup_from(fields: Seq<Field>, key: Seq<char>, from: int) -> Option<
    Option<Seq<char>>,
>
    decreases fields.len() - from,
{
    if from < 0 || from >= fields.len() {
        None
    } else if fields[from].key@ == key {
        Some(value_view(fields[from].value))
    } else {
        lookup_from(fields, key, from + 1)
    }
}

/// The entries as a map from each key to the value of its first entry.
pub open spec fn fields_map(fields: Seq<Field>) -> Map<Seq<char>, Option<Seq<char>>> {
    Map::new(
        |key: Seq<char>| lookup_from(fields, key, 0) is Some,
        |key: Seq<char>| lookup_from(fields, key, 0)->Some_0,
    )
}

impl View for FrontMatter {
    type V = FrontMatterView;

    open spec fn view(&self) -> FrontMatterView {
        match self {
            FrontMatter::Absent => FrontMatterView::Absent,
            FrontMatter::NotMapping => FrontMatterView::NotMapping,
            FrontMatter::Mapping(fields) => FrontMatterView::Mapping(fields_map(fields@)),
        }
    }
}

/// The line that opens and closes a metadata block.
pub open spec fn delimiter() -> Seq<char> {
    seq!['-', '-', '-']
}

/// What every document with a metadata block has: it begins with the
/// delimiter, and a later line begins with the delimiter too.
pub open spec fn has_delimiters(content: Seq<char>) -> bool {
    &&& delimiter().is_prefix_of(content)
    &&& exists|i: int|
        3 <= i && i + 4 <= content.len() && #[trigger] content[i] == '\n' && content.subrange(
            i + 1,
            i + 4,
        ) == delimiter()
}

/// The metadata block that a document with the text `content` starts with,
/// read as YAML. It stands for what the `gray_matter` crate finds.
pub uninterp spec fn front_matter_of(content: Seq<char>) -> FrontMatterView;

/// What the test of `key` against `pattern` comes to on a metadata block.
/// Without a mapping, or without the key in it, the document is simply not
/// tagged. A key that holds text is tagged if the pattern matches somewhere
/// in that text. A key that holds anything else is an error.
pub open spec fn tag_outcome(
    front_matter: FrontMatterView,
    key: Seq<char>,
    pattern: Seq<char>,
) -> Result<bool, CheckMarkdownFrontMatterError> {
    match front_matter {
        FrontMatterView::Mapping(fields) => {
            if !fields.dom().contains(key) {
                Ok(false)
            } else {
                match fields[key] {
                    Some(text) => Ok(pattern_matches(pattern, text)),
                    None => Err(CheckMarkdownFrontMatterError::AsStringError),
                }
            }
        },
        _ => Ok(false),
    }
}

/// `gray_matter::Matter::<YAML>::parse` on `content`, its `data` written as a
/// plain value: `None` is `Absent`; data that `Pod::as_hashmap` refuses is
/// `NotMapping`; else each entry of the hash map with what `Pod::as_string`
/// makes of its value. Not proved: that the result is the block which
/// `front_matter_of` names for `content`, and that no block is found in a
/// text that lacks the delimiter at its start or at the start of a later
/// line.
#[verifier::external_body]
fn parse_front_matter(content: &str) -> (r: FrontMatter)
    ensures
        r@ == front_matter_of(content@),
        !has_delimiters(content@) ==> r is Absent,
{
    match Matter::<YAML>::new().parse(content).data.map(|pod| pod.as_hashmap()) {
        None => FrontMatter::Absent,
        Some(Err(_)) => FrontMatter::NotMapping,
        Some(Ok(table)) => FrontMatter::Mapping(
            table.into_iter().map(|(key, pod)| Field { key, value: pod.as_string().ok() }).collect(),
        ),
    }
}

/// The value of the first entry whose key is `key`.
pub fn find_field<'a>(fields: &'a Vec<Field>, key: &str) -> (r: Option<&'a Option<String>>)
    ensures
        r is Some <==> lookup_from(fields@, key@, 0) is Some,
        r matches Some(value) ==> lookup_from(fields@, key@, 0) == Some(value_view(*value)),
{
    let mut i: usize = 0;
    while i < fields.len()
        invariant
            i <= fields@.len(),
            lookup_from(fields@, key@, 0) == lookup_from(fields@, key@, i as int),
        decreases fields@.len() - i,
    {
        if text_eq(fields[i].key.as_str(), key) {
            return Some(&fields[i].value);
        }
        i += 1;
    }
    None
}

/// Tests `key` against `pattern` on a metadata block.
pub fn check_front_matter(front_matter: &FrontMatter, key: &str, pattern: &Pattern) -> (r: Result<
    bool,
    CheckMarkdownFrontMatterError,
>)
    ensures
        r == tag_outcome(front_matter@, key@, pattern@),
{
    match front_matter {
        FrontMatter::Mapping(fields) => match find_field(fields, key) {
            None => Ok(false),
            Some(None) => Err(CheckMarkdownFrontMatterError::AsStringError),
            Some(Some(text)) => Ok(pattern.is_match(text.as_str())),
        },
        _ => Ok(false),
    }
}

/// Reads the metadata block at the head of `content`, white space around the
/// content set aside.
pub fn read_front_matter(content: &str) -> (r: FrontMatter)
    ensures
        r@ == front_matter_of(trimmed(content@)),
        !has_delimiters(trimmed(content@)) ==> r is Absent,
{
    parse_front_matter(trim(content))
}

/// Whether the document with the text `content` is tagged: whether its
/// metadata block holds `key` with a text in which `pattern` matches. A
/// document without the two delimiters has no block and is never tagged,
/// whatever the key and the pattern.
pub fn contains_tag(content: &str, key: &str, pattern: &Pattern) -> (r: Result<
    bool,
    CheckMarkdownFrontMatterError,
>)
    ensures
        r == tag_outcome(front_matter_of(trimmed(content@)), key@, pattern@),
        !has_delimiters(trimmed(content@)) ==> r == Ok::<bool, CheckMarkdownFrontMatterError>(
            false,
        ),
{
    let front_matter = read_front_matter(content);
    check_front_matter(&front_matter, key, pattern)
}

/// Without a mapping there is no tag. A document without a metadata block,
/// or with a block that is no mapping, is not tagged, whatever the key and
/// the pattern; the test is never an error.
pub proof fn lemma_no_mapping_is_not_tagged(
    front_matter: FrontMatterView,
    key: Seq<char>,
    pattern: Seq<char>,
)
    requires
        !(front_matter is Mapping),
    ensures
        tag_outcome(front_matter, key, pattern) == Ok::<bool, CheckMarkdownFrontMatterError>(false),
{
}

/// A key that holds something other than text is an error, whatever the
/// pattern: it is never taken for a key that is missing.
pub proof fn lemma_non_text_is_an_error(
    fields: Map<Seq<char>, Option<Seq<char>>>,
    key: Seq<char>,
    pattern: Seq<char>,
)
    requires
        fields.dom().contains(key),
        fields[key] is None,
    ensures
        tag_outcome(FrontMatterView::Mapping(fields), key, pattern) == Err::<
            bool,
            CheckMarkdownFrontMatterError,
        >(CheckMarkdownFrontMatterError::AsStringError),
{
}

} // verus!
