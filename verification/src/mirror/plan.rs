//! The plan of a mirror: for each selected file the place that its link gets
//! in the staging view, which is the place the file has under the base
//! directory.

use vstd::prelude::*;
use vstd::string::*;

use crate::entry::{paths_of, DirectoryEntry};
use crate::path::{
    components, is_name, is_plain_relative, is_under, join, joined, lemma_components_are_names,
    lemma_components_of_join, lemma_strip_prefix_of_join, relative_dir_to, relative_to,
    strip_prefix_split,
};

verus! {

/// A selected file and its place in the staging view: `place` is the path
/// of the file relative to the base directory, `directory` the directory
/// part of that path.
#[derive(Debug, PartialEq, Eq)]
pub struct PlacedFile {
    pub source: String,
    pub place: String,
    pub directory: String,
}

/// A placed file as three texts.
pub struct PlacedView {
    pub source: Seq<char>,
    pub place: Seq<char>,
    pub directory: Seq<char>,
}

impl View for PlacedFile {
    type V = PlacedView;

    open spec fn view(&self) -> PlacedView {
        PlacedView { source: self.source@, place: self.place@, directory: self.directory@ }
    }
}

/// One hard link of the staging view: `source` is the selected file,
/// `target` the path of its link, `directory` the directory that has to
/// exist before the link is made.
#[derive(Debug, PartialEq, Eq)]
pub struct StagedLink {
    pub source: String,
    pub target: String,
    pub directory: String,
}

/// A staged link as three texts.
pub struct LinkView {
    pub source: Seq<char>,
    pub target: Seq<char>,
    pub directory: Seq<char>,
}

impl View for StagedLink {
    type V = LinkView;

    open spec fn view(&self) -> LinkView {
        LinkView { source: self.source@, target: self.target@, directory: self.directory@ }
    }
}

/// What a mirror has to do: the files to link into the staging view, each
/// with its place, and the directory that is to become equal to that view.
#[derive(Debug, PartialEq, Eq)]
pub struct MirrorPlan {
    pub files: Vec<PlacedFile>,
    pub destination: String,
}

/// Why a mirror failed.
#[derive(Debug, PartialEq, Eq)]
pub enum MirrorError {
    /// A selected file does not lie under the base directory.
    PathEscapesBase { path: String },
    /// The staging directory could not be made.
    StagingFailed,
    /// The directory for the link of the file `path` could not be made.
    DirectoryFailed { path: String, directory: String },
    /// The file `path` could not be linked to its place.
    LinkFailed { path: String, place: String },
    /// The synchronisation reported a failure.
    SyncFailed,
}

/// The placed files as texts.
pub open spec fn placed_views(files: Seq<PlacedFile>) -> Seq<PlacedView> {
    files.map_values(|f: PlacedFile| f@)
}

/// The place that `path` has under `base`, or `None` where it has none:
/// where it does not lie under `base`, or is `base` itself.
pub open spec fn place_of(path: Seq<char>, base: Seq<char>) -> Option<Seq<char>> {
    match relative_to(path, base) {
        Some(rel) => if rel.len() > 0 {
            Some(rel)
        } else {
            None
        },
        None => None,
    }
}

/// The file at `path`, a path under `base`, with its place.
pub open spec fn placed(base: Seq<char>, path: Seq<char>) -> PlacedView
    recommends
        is_under(path, base),
{
    PlacedView {
        source: path,
        place: relative_to(path, base)->Some_0,
        directory: relative_dir_to(path, base)->Some_0,
    }
}

/// Whether one of `files` has the place `place`.
pub open spec fn has_place(files: Seq<PlacedView>, place: Seq<char>) -> bool {
    exists|i: int| 0 <= i < files.len() && (#[trigger] files[i]).place == place
}

/// The files of the staging view for the selected `paths`, in their order.
/// A path without a place is not in the view. Of several paths with one
/// place, the first has it.
pub open spec fn placed_files(base: Seq<char>, paths: Seq<Seq<char>>) -> Seq<PlacedView>
    decreases paths.len(),
{
    if paths.len() == 0 {
        Seq::empty()
    } else {
        let before = placed_files(base, paths.drop_last());
        match place_of(paths.last(), base) {
            Some(place) => if has_place(before, place) {
                before
            } else {
                before.push(placed(base, paths.last()))
            },
            None => before,
        }
    }
}

/// `file` is one of `paths` with its place under `base`.
pub open spec fn places_one_of(base: Seq<char>, paths: Seq<Seq<char>>, file: PlacedView) -> bool {
    exists|i: int|
        0 <= i < paths.len() && place_of(#[trigger] paths[i], base) is Some && file == placed(
            base,
            paths[i],
        )
}

/// `i` is the position of the first path that does not lie under `base`.
pub open spec fn is_first_escaping(paths: Seq<Seq<char>>, base: Seq<char>, i: int) -> bool {
    &&& 0 <= i < paths.len()
    &&& !is_under(paths[i], base)
    &&& forall|j: int| 0 <= j < i ==> is_under(#[trigger] paths[j], base)
}

/// Every path lies under `base`.
pub open spec fn all_under(paths: Seq<Seq<char>>, base: Seq<char>) -> bool {
    forall|i: int| 0 <= i < paths.len() ==> is_under(#[trigger] paths[i], base)
}

/// The link that puts `file` into the staging directory `staging`.
pub open spec fn staged(file: PlacedView, staging: Seq<char>) -> LinkView {
    LinkView {
        source: file.source,
        target: joined(staging, file.place),
        directory: joined(staging, file.directory),
    }
}

/// Whether one of `files` has the place `place`.
fn places_contain(files: &Vec<PlacedFile>, place: &String) -> (r: bool)
    ensures
        r == has_place(placed_views(files@), place@),
{
    let mut i: usize = 0;
    while i < files.len()
        invariant
            i <= files@.len(),
            forall|j: int| 0 <= j < i ==> (#[trigger] placed_views(files@)[j]).place != place@,
        decreases files@.len() - i,
    {
        if files[i].place == *place {
            assert(placed_views(files@)[i as int].place == place@);
            return true;
        }
        i += 1;
    }
    false
}

/// Plans the mirror of the selected files `src_files`, which lie under
/// `src_base_dir`, into `dst`.
///
/// The plan gives each selected file the place in the staging view that it
/// has under the base directory. If a selected file does not lie under the
/// base directory, there is no plan, and the error names the first such
/// file.
pub fn rsync_files(src_base_dir: &str, src_files: &Vec<DirectoryEntry>, dst: &str) -> (r: Result<
    MirrorPlan,
    MirrorError,
>)
    ensures
        r is Ok <==> all_under(paths_of(src_files@), src_base_dir@),
        r matches Ok(plan) ==> {
            &&& placed_views(plan.files@) == placed_files(src_base_dir@, paths_of(src_files@))
            &&& plan.destination@ == dst@
        },
        r matches Err(e) ==> {
            &&& e matches MirrorError::PathEscapesBase { path }
            &&& exists|i: int|
                is_first_escaping(paths_of(src_files@), src_base_dir@, i) && path@ == paths_of(
                    src_files@,
                )[i]
        },
{
    let ghost paths = paths_of(src_files@);
    let mut files: Vec<PlacedFile> = Vec::new();
    let mut i: usize = 0;
    assert(placed_views(files@) =~= placed_files(src_base_dir@, paths.take(0)));
    while i < src_files.len()
        invariant
            i <= src_files@.len(),
            paths == paths_of(src_files@),
            forall|j: int| 0 <= j < i ==> is_under(#[trigger] paths[j], src_base_dir@),
            placed_views(files@) == placed_files(src_base_dir@, paths.take(i as int)),
        decreases src_files@.len() - i,
    {
        let file = &src_files[i];
        assert(paths[i as int] == file.path@);
        assert(paths.take(i + 1).drop_last() == paths.take(i as int));
        assert(paths.take(i + 1).last() == paths[i as int]);
        match strip_prefix_split(file.path.as_str(), src_base_dir) {
            None => {
                assert(is_first_escaping(paths, src_base_dir@, i as int));
                return Err(MirrorError::PathEscapesBase { path: file.path.clone() });
            },
            Some(parts) => {
                if !parts.1.as_str().is_empty() && !places_contain(&files, &parts.1) {
                    let ghost before = placed_views(files@);
                    files.push(
                        PlacedFile { source: file.path.clone(), place: parts.1, directory: parts.0 },
                    );
                    assert(placed_views(files@) =~= before.push(
                        placed(src_base_dir@, paths[i as int]),
                    ));
                }
            },
        }
        i += 1;
    }
    assert(paths.take(i as int) == paths);
    Ok(MirrorPlan { files, destination: String::from_str(dst) })
}

impl PlacedFile {
    /// The link that puts this file into the staging directory
    /// `staging_dir`.
    pub fn stage(&self, staging_dir: &str) -> (link: StagedLink)
        ensures
            link@ == staged(self@, staging_dir@),
    {
        StagedLink {
            source: self.source.clone(),
            target: join(staging_dir, self.place.as_str()),
            directory: join(staging_dir, self.directory.as_str()),
        }
    }
}

/// What is left of a path under its base is a plain relative path.
pub proof fn lemma_relative_is_plain(path: Seq<char>, base: Seq<char>)
    requires
        is_under(path, base),
    ensures
        is_plain_relative(relative_to(path, base)->Some_0),
{
    let rest = components(path).skip(components(base).len() as int);
    lemma_components_are_names(path);
    assert forall|i: int| 0 <= i < rest.len() implies is_name(#[trigger] rest[i]) by {
        assert(rest[i] == components(path)[i + components(base).len()]);
    }
    lemma_components_of_join(rest);
}

/// The staging view keeps every file at its place: wherever the staging
/// directory is, the link of a file lies under it at the relative path that
/// the file has under the base directory.
pub proof fn lemma_link_keeps_place(base: Seq<char>, staging: Seq<char>, path: Seq<char>)
    requires
        is_under(path, base),
    ensures
        is_under(staged(placed(base, path), staging).target, staging),
        relative_to(staged(placed(base, path), staging).target, staging) == relative_to(path, base),
{
    lemma_relative_is_plain(path, base);
    lemma_strip_prefix_of_join(staging, relative_to(path, base)->Some_0);
}

/// The staging view holds the selection and nothing else. Every file in it
/// is one of the selected files, at that file's place. Every selected file
/// that has a place under the base directory is found at it. No place is
/// taken twice.
pub proof fn lemma_placed_files_are_the_selection(base: Seq<char>, paths: Seq<Seq<char>>)
    ensures
        forall|k: int|
            0 <= k < placed_files(base, paths).len() ==> places_one_of(
                base,
                paths,
                #[trigger] placed_files(base, paths)[k],
            ),
        forall|i: int|
            0 <= i < paths.len() && place_of(#[trigger] paths[i], base) is Some ==> has_place(
                placed_files(base, paths),
                place_of(paths[i], base)->Some_0,
            ),
        forall|k: int, l: int|
            0 <= k < l < placed_files(base, paths).len() ==> (#[trigger] placed_files(
                base,
                paths,
            )[k]).place != (#[trigger] placed_files(base, paths)[l]).place,
    decreases paths.len(),
{
    let files = placed_files(base, paths);
    if paths.len() > 0 {
        let init = paths.drop_last();
        let before = placed_files(base, init);
        let last = paths.last();
        lemma_placed_files_are_the_selection(base, init);
        let added = place_of(last, base) is Some && !has_place(before, place_of(last, base)->Some_0);
        assert(files == if added {
            before.push(placed(base, last))
        } else {
            before
        });
        assert forall|k: int| 0 <= k < files.len() implies places_one_of(
            base,
            paths,
            #[trigger] files[k],
        ) by {
            if k < before.len() {
                assert(places_one_of(base, init, before[k]));
                let i = choose|i: int|
                    0 <= i < init.len() && place_of(#[trigger] init[i], base) is Some && before[k]
                        == placed(base, init[i]);
                assert(paths[i] == init[i]);
            } else {
                assert(files[k] == placed(base, paths[paths.len() - 1]));
            }
        }
        assert forall|i: int|
            0 <= i < paths.len() && place_of(#[trigger] paths[i], base) is Some implies has_place(
            files,
            place_of(paths[i], base)->Some_0,
        ) by {
            let place = place_of(paths[i], base)->Some_0;
            if i < init.len() {
                assert(paths[i] == init[i]);
                let k = choose|k: int| 0 <= k < before.len() && (#[trigger] before[k]).place == place;
                assert(files[k].place == place);
            } else if added {
                assert(files[files.len() - 1].place == place);
            } else {
                let k = choose|k: int| 0 <= k < before.len() && (#[trigger] before[k]).place == place;
                assert(files[k].place == place);
            }
        }
        assert forall|k: int, l: int| 0 <= k < l < files.len() implies (#[trigger] files[k]).place
            != (#[trigger] files[l]).place by {
            if l < before.len() {
                assert(files[k] == before[k] && files[l] == before[l]);
            } else {
                assert(files[k] == before[k]);
                assert(files[l] == placed(base, last));
            }
        }
    }
}

/// Files with different places get different links: two links of one
/// staging view never stand in each other's way.
pub proof fn lemma_places_keep_links_apart(
    base: Seq<char>,
    staging: Seq<char>,
    first: Seq<char>,
    second: Seq<char>,
)
    requires
        is_under(first, base),
        is_under(second, base),
        relative_to(first, base) != relative_to(second, base),
    ensures
        staged(placed(base, first), staging).target != staged(placed(base, second), staging).target,
{
    lemma_link_keeps_place(base, staging, first);
    lemma_link_keeps_place(base, staging, second);
}

} // verus!
