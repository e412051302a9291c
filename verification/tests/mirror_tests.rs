use smelt::mirror::{action, start, step};
use smelt::path::{join, strip_prefix};
use smelt::{
    rsync_files, DirectoryEntry, MirrorAction, MirrorError, MirrorEvent, MirrorOutcome,
    MirrorPlan, MirrorRun, MirrorState, PlacedFile, StagedLink,
};

fn file(path: &str) -> DirectoryEntry {
    DirectoryEntry::new(path, true, 1)
}

fn placed(source: &str, place: &str, directory: &str) -> PlacedFile {
    PlacedFile {
        source: source.to_string(),
        place: place.to_string(),
        directory: directory.to_string(),
    }
}

fn link(source: &str, target: &str, directory: &str) -> StagedLink {
    StagedLink {
        source: source.to_string(),
        target: target.to_string(),
        directory: directory.to_string(),
    }
}

fn plan_of(paths: &[&str]) -> MirrorPlan {
    let files: Vec<DirectoryEntry> = paths.iter().map(|p| file(p)).collect();
    rsync_files("base", &files, "/mnt/dst").unwrap()
}

fn created() -> MirrorEvent {
    MirrorEvent::StagingCreated { directory: "/tmp/stage".to_string() }
}

/// A run of the plan for `paths`, with its staging directory made.
fn staged_run(paths: &[&str]) -> MirrorRun {
    let mut run = MirrorRun::start(plan_of(paths));
    run.on(created());
    run
}

/// Carries `run` on with `events` and lists the steps it asked for.
fn steps(run: &mut MirrorRun, events: Vec<MirrorEvent>) -> Vec<MirrorAction> {
    let mut asked = vec![run.action()];
    for event in events {
        run.on(event);
        asked.push(run.action());
    }
    asked
}

/// The links that `run` asks for while every link is made.
fn links(run: &mut MirrorRun) -> Vec<StagedLink> {
    let mut made = Vec::new();
    while let Some(link) = run.link() {
        made.push(link);
        run.on(MirrorEvent::Linked);
    }
    made
}

#[test]
fn the_staging_view_holds_the_selection_and_nothing_else() {
    // The tree holds a.md, sub/b.md and sub/c.txt; two of them are selected.
    let selection = vec![file("base/a.md"), file("base/sub/b.md")];
    let plan = rsync_files("base", &selection, "/mnt/dst").unwrap();
    assert_eq!(
        plan.files,
        vec![placed("base/a.md", "a.md", ""), placed("base/sub/b.md", "sub/b.md", "sub")]
    );
    assert_eq!(plan.destination, "/mnt/dst");

    let mut run = MirrorRun::start(plan);
    run.on(created());
    let made = links(&mut run);
    assert_eq!(
        made,
        vec![
            link("base/a.md", "/tmp/stage/a.md", "/tmp/stage/"),
            link("base/sub/b.md", "/tmp/stage/sub/b.md", "/tmp/stage/sub"),
        ]
    );
    assert!(made.iter().all(|l| !l.target.ends_with("c.txt")));
}

#[test]
fn a_file_is_staged_where_the_view_stands() {
    let file = placed("base/sub/b.md", "sub/b.md", "sub");
    assert_eq!(
        file.stage("/tmp/x"),
        link("base/sub/b.md", "/tmp/x/sub/b.md", "/tmp/x/sub")
    );
    assert_eq!(file.stage("view/"), link("base/sub/b.md", "view/sub/b.md", "view/sub"));
}

#[test]
fn a_link_lies_in_the_view_as_the_file_lies_under_the_base() {
    let mut run = staged_run(&["base/a.md", "base/x/y/z.md"]);
    for link in links(&mut run) {
        assert_eq!(strip_prefix(&link.target, "/tmp/stage"), strip_prefix(&link.source, "base"));
    }
}

#[test]
fn the_command_mirrors_the_contents_and_deletes_what_is_stale() {
    let mut run = staged_run(&["base/a.md"]);
    assert_eq!(run.command(), None);
    run.on(MirrorEvent::Linked);
    let words: Vec<String> =
        ["rsync", "-av", "--delete", "/tmp/stage/", "/mnt/dst"].iter().map(|w| w.to_string()).collect();
    assert_eq!(run.command(), Some(words));
    run.on(MirrorEvent::SyncSucceeded);
    assert_eq!(run.command(), None);
}

#[test]
fn a_stale_file_of_the_destination_is_not_in_the_view() {
    // The destination still holds old.md from a selection of the past.
    let stale = "/mnt/dst/old.md";
    let mut run = staged_run(&["base/a.md", "base/sub/b.md"]);
    let mirrored: Vec<String> = links(&mut run)
        .iter()
        .map(|l| join("/mnt/dst", &strip_prefix(&l.target, "/tmp/stage").unwrap()))
        .collect();
    assert_eq!(mirrored, vec!["/mnt/dst/a.md", "/mnt/dst/sub/b.md"]);
    assert!(!mirrored.iter().any(|p| p == stale));
    assert!(run.command().unwrap().contains(&"--delete".to_string()));
}

#[test]
fn the_source_of_the_command_ends_with_one_separator() {
    let mut run = MirrorRun::start(rsync_files("base", &vec![], "dst/").unwrap());
    run.on(MirrorEvent::StagingCreated { directory: "/tmp/stage/".to_string() });
    let words = run.command().unwrap();
    assert_eq!(words[3], "/tmp/stage/");
    assert_eq!(words[4], "dst/");
}

#[test]
fn a_path_outside_the_base_fails_the_plan() {
    let selection = vec![file("base/a.md"), file("elsewhere/b.md"), file("base/c.md")];
    assert_eq!(
        rsync_files("base", &selection, "/mnt/dst"),
        Err(MirrorError::PathEscapesBase { path: "elsewhere/b.md".to_string() })
    );
}

#[test]
fn the_first_path_outside_the_base_is_named() {
    let selection = vec![file("/abs/base/a.md"), file("base2/b.md"), file("other/c.md")];
    assert_eq!(
        rsync_files("base", &selection, "/mnt/dst"),
        Err(MirrorError::PathEscapesBase { path: "/abs/base/a.md".to_string() })
    );
}

#[test]
fn a_name_that_only_begins_like_the_base_is_outside() {
    assert_eq!(
        rsync_files("base", &vec![file("based/a.md")], "/mnt/dst"),
        Err(MirrorError::PathEscapesBase { path: "based/a.md".to_string() })
    );
}

#[test]
fn a_path_that_comes_twice_is_staged_once() {
    let plan = plan_of(&["base/a.md", "base/sub/b.md", "base/a.md", "base//sub/b.md"]);
    assert_eq!(
        plan.files,
        vec![placed("base/a.md", "a.md", ""), placed("base/sub/b.md", "sub/b.md", "sub")]
    );
}

#[test]
fn the_base_itself_has_no_place_in_the_view() {
    let plan = plan_of(&["base", "base/a.md", "base/"]);
    assert_eq!(plan.files, vec![placed("base/a.md", "a.md", "")]);
}

#[test]
fn a_mirror_stages_links_synchronises_and_cleans_up() {
    let mut run = MirrorRun::start(plan_of(&["base/a.md", "base/sub/b.md"]));
    assert_eq!(run.state(), MirrorState::Staging);
    assert_eq!(run.link(), None);
    assert_eq!(run.command(), None);
    assert_eq!(run.result(), None);
    let asked = steps(
        &mut run,
        vec![
            created(),
            MirrorEvent::Linked,
            MirrorEvent::Linked,
            MirrorEvent::SyncSucceeded,
            MirrorEvent::Cleaned,
        ],
    );
    assert_eq!(
        asked,
        vec![
            MirrorAction::CreateStaging,
            MirrorAction::MakeLink { link: 0 },
            MirrorAction::MakeLink { link: 1 },
            MirrorAction::Synchronise,
            MirrorAction::RemoveStaging,
            MirrorAction::Report,
        ]
    );
    assert_eq!(run.state(), MirrorState::Done { outcome: MirrorOutcome::Mirrored });
    assert_eq!(run.link(), None);
    assert_eq!(run.result(), Some(Ok(())));
}

#[test]
fn without_a_staging_directory_the_mirror_is_over() {
    let mut run = MirrorRun::start(plan_of(&["base/a.md"]));
    let asked = steps(&mut run, vec![MirrorEvent::StagingFailed, MirrorEvent::Cleaned]);
    assert_eq!(
        asked,
        vec![MirrorAction::CreateStaging, MirrorAction::Report, MirrorAction::Report]
    );
    assert_eq!(run.result(), Some(Err(MirrorError::StagingFailed)));
}

#[test]
fn an_empty_selection_still_synchronises() {
    let mut run = MirrorRun::start(plan_of(&[]));
    let asked = steps(&mut run, vec![created(), MirrorEvent::SyncSucceeded, MirrorEvent::Cleaned]);
    assert_eq!(
        asked,
        vec![
            MirrorAction::CreateStaging,
            MirrorAction::Synchronise,
            MirrorAction::RemoveStaging,
            MirrorAction::Report,
        ]
    );
    assert_eq!(run.result(), Some(Ok(())));
}

#[test]
fn a_link_found_in_place_is_passed_over() {
    let mut run = staged_run(&["base/a.md", "base/b.md"]);
    let asked = steps(&mut run, vec![MirrorEvent::AlreadyThere, MirrorEvent::AlreadyThere]);
    assert_eq!(
        asked,
        vec![
            MirrorAction::MakeLink { link: 0 },
            MirrorAction::MakeLink { link: 1 },
            MirrorAction::Synchronise,
        ]
    );
}

#[test]
fn a_failed_link_ends_the_mirror_without_synchronising() {
    let mut run = staged_run(&["base/a.md", "base/sub/b.md", "base/c.md"]);
    let asked = steps(
        &mut run,
        vec![MirrorEvent::Linked, MirrorEvent::LinkFailed, MirrorEvent::Linked, MirrorEvent::Cleaned],
    );
    assert_eq!(
        asked,
        vec![
            MirrorAction::MakeLink { link: 0 },
            MirrorAction::MakeLink { link: 1 },
            MirrorAction::RemoveStaging,
            MirrorAction::RemoveStaging,
            MirrorAction::Report,
        ]
    );
    assert_eq!(
        run.result(),
        Some(Err(MirrorError::LinkFailed {
            path: "base/sub/b.md".to_string(),
            place: "sub/b.md".to_string(),
        }))
    );
}

#[test]
fn a_failed_directory_ends_the_mirror() {
    let mut run = staged_run(&["base/sub/b.md"]);
    let asked = steps(&mut run, vec![MirrorEvent::DirectoryFailed, MirrorEvent::Cleaned]);
    assert_eq!(
        asked,
        vec![
            MirrorAction::MakeLink { link: 0 },
            MirrorAction::RemoveStaging,
            MirrorAction::Report,
        ]
    );
    assert_eq!(
        run.result(),
        Some(Err(MirrorError::DirectoryFailed {
            path: "base/sub/b.md".to_string(),
            directory: "sub".to_string(),
        }))
    );
}

#[test]
fn a_failed_synchronisation_is_reported_after_the_cleanup() {
    let mut run = staged_run(&["base/a.md"]);
    run.on(MirrorEvent::Linked);
    run.on(MirrorEvent::SyncFailed);
    assert_eq!(run.action(), MirrorAction::RemoveStaging);
    assert_eq!(run.result(), None);
    run.on(MirrorEvent::Cleaned);
    assert_eq!(run.action(), MirrorAction::Report);
    assert_eq!(run.result(), Some(Err(MirrorError::SyncFailed)));
}

#[test]
fn an_event_that_answers_no_step_changes_nothing() {
    let mut run = MirrorRun::start(plan_of(&["base/a.md"]));
    for event in [MirrorEvent::Linked, MirrorEvent::SyncSucceeded, MirrorEvent::Cleaned] {
        run.on(event);
        assert_eq!(run.state(), MirrorState::Staging);
    }
    run.on(created());
    for event in [MirrorEvent::SyncSucceeded, MirrorEvent::StagingFailed, MirrorEvent::Cleaned] {
        run.on(event);
        assert_eq!(run.state(), MirrorState::Linking { next: 0 });
    }
    run.on(MirrorEvent::Linked);
    for event in [MirrorEvent::Linked, MirrorEvent::LinkFailed, MirrorEvent::Cleaned] {
        run.on(event);
        assert_eq!(run.state(), MirrorState::Syncing);
    }
    run.on(MirrorEvent::SyncSucceeded);
    run.on(MirrorEvent::Cleaned);
    for event in [MirrorEvent::Linked, MirrorEvent::SyncFailed, MirrorEvent::Cleaned] {
        run.on(event);
        assert_eq!(run.state(), MirrorState::Done { outcome: MirrorOutcome::Mirrored });
    }
}

#[test]
fn a_second_staging_directory_is_not_taken() {
    let mut run = staged_run(&["base/a.md"]);
    run.on(MirrorEvent::StagingCreated { directory: "/tmp/other".to_string() });
    assert_eq!(run.state(), MirrorState::Linking { next: 0 });
    assert_eq!(run.link().unwrap().target, "/tmp/stage/a.md");
}

#[test]
fn the_run_keeps_its_plan() {
    let run = MirrorRun::start(plan_of(&["base/a.md"]));
    assert_eq!(run.plan(), &plan_of(&["base/a.md"]));
}

#[test]
fn states_follow_each_other_link_by_link() {
    assert_eq!(start(), MirrorState::Staging);
    assert_eq!(step(0, MirrorState::Staging, &created()), MirrorState::Syncing);
    assert_eq!(step(3, MirrorState::Staging, &created()), MirrorState::Linking { next: 0 });
    assert_eq!(
        step(3, MirrorState::Staging, &MirrorEvent::StagingFailed),
        MirrorState::Done { outcome: MirrorOutcome::StagingFailed }
    );
    let linking = |next: usize| MirrorState::Linking { next };
    assert_eq!(step(3, linking(0), &MirrorEvent::Linked), linking(1));
    assert_eq!(step(3, linking(1), &MirrorEvent::AlreadyThere), linking(2));
    assert_eq!(step(3, linking(2), &MirrorEvent::Linked), MirrorState::Syncing);
    assert_eq!(step(3, linking(usize::MAX), &MirrorEvent::Linked), MirrorState::Syncing);
    assert_eq!(
        step(3, linking(1), &MirrorEvent::LinkFailed),
        MirrorState::Cleaning { outcome: MirrorOutcome::LinkFailed { link: 1 } }
    );
    assert_eq!(
        step(3, linking(2), &MirrorEvent::DirectoryFailed),
        MirrorState::Cleaning { outcome: MirrorOutcome::DirectoryFailed { link: 2 } }
    );
    assert_eq!(
        step(3, MirrorState::Syncing, &MirrorEvent::SyncSucceeded),
        MirrorState::Cleaning { outcome: MirrorOutcome::Mirrored }
    );
    assert_eq!(
        step(3, MirrorState::Syncing, &MirrorEvent::SyncFailed),
        MirrorState::Cleaning { outcome: MirrorOutcome::SyncFailed }
    );
    assert_eq!(
        step(3, MirrorState::Cleaning { outcome: MirrorOutcome::SyncFailed }, &MirrorEvent::Cleaned),
        MirrorState::Done { outcome: MirrorOutcome::SyncFailed }
    );
}

#[test]
fn each_state_asks_for_its_step() {
    assert_eq!(action(MirrorState::Staging), MirrorAction::CreateStaging);
    assert_eq!(action(MirrorState::Linking { next: 4 }), MirrorAction::MakeLink { link: 4 });
    assert_eq!(action(MirrorState::Syncing), MirrorAction::Synchronise);
    assert_eq!(
        action(MirrorState::Cleaning { outcome: MirrorOutcome::Mirrored }),
        MirrorAction::RemoveStaging
    );
    assert_eq!(action(MirrorState::Done { outcome: MirrorOutcome::SyncFailed }), MirrorAction::Report);
}
