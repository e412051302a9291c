//! The run of a mirror: after each thing that happened, what is to be done
//! next. The steps themselves (the staging directory, the links, the
//! synchronisation) are taken elsewhere.

use vstd::prelude::*;
use vstd::string::*;

use crate::mirror::plan::{staged, MirrorError, MirrorPlan, StagedLink};
use crate::path::{dir_path_with_tail_slash, with_tail_slash};

verus! {

/// How a mirror ended. A failure to build the staging view names the file,
/// by its number in the plan, at which it happened.
#[derive(Clone, Copy, Debug, PartialEq, Eq, Structural)]
pub enum MirrorOutcome {
    /// The destination now equals the staging view.
    Mirrored,
    /// The staging directory could not be made.
    StagingFailed,
    /// The directory for the link of file number `link` could not be made.
    DirectoryFailed { link: usize },
    /// The link of file number `link` could not be made.
    LinkFailed { link: usize },
    /// The synchronisation reported a failure.
    SyncFailed,
}

/// Where a mirror stands.
#[derive(Clone, Copy, Debug, PartialEq, Eq, Structural)]
pub enum MirrorState {
    /// The staging directory is to be made.
    Staging,
    /// The files before `next` are linked; file `next` is to be linked.
    Linking { next: usize },
    /// The staging view is complete; the synchronisation is to be run.
    Syncing,
    /// The staging directory is to be removed; `outcome` will be reported.
    Cleaning { outcome: MirrorOutcome },
    /// Over.
    Done { outcome: MirrorOutcome },
}

/// What happened to the step that was asked for.
#[derive(Debug, PartialEq, Eq)]
pub enum MirrorEvent {
    /// A fresh, empty staging directory stands at `directory`.
    StagingCreated { directory: String },
    /// The staging directory could not be made.
    StagingFailed,
    /// The directory is there and the link was made.
    Linked,
    /// Something already stands at the link's place; the link was not made.
    AlreadyThere,
    /// The directory for the link could not be made.
    DirectoryFailed,
    /// The link could not be made.
    LinkFailed,
    /// The synchronisation ended well.
    SyncSucceeded,
    /// The synchronisation could not be run, or ended with a failure.
    SyncFailed,
    /// The staging directory and all its links are gone.
    Cleaned,
}

/// The step to take next.
#[derive(Clone, Copy, Debug, PartialEq, Eq, Structural)]
pub enum MirrorAction {
    /// Make a fresh, empty directory for the staging view.
    CreateStaging,
    /// Make the directory for the link of file number `link`, then the
    /// link, unless something is at its place already.
    MakeLink { link: usize },
    /// Make the destination equal to the staging view, removing from it what
    /// the view does not hold.
    Synchronise,
    /// Remove the staging directory with all that is in it.
    RemoveStaging,
    /// Nothing is left to do but to report the result.
    Report,
}

/// The state in which a mirror begins.
pub open spec fn start_state() -> MirrorState {
    MirrorState::Staging
}

/// The state in which the linking begins, or is passed over where there is
/// nothing to link.
pub open spec fn linking_from(next: int, links: nat) -> MirrorState {
    if 0 <= next < links {
        MirrorState::Linking { next: next as usize }
    } else {
        MirrorState::Syncing
    }
}

/// The step that a state asks for.
pub open spec fn action_of(state: MirrorState) -> MirrorAction {
    match state {
        MirrorState::Staging => MirrorAction::CreateStaging,
        MirrorState::Linking { next } => MirrorAction::MakeLink { link: next },
        MirrorState::Syncing => MirrorAction::Synchronise,
        MirrorState::Cleaning { .. } => MirrorAction::RemoveStaging,
        MirrorState::Done { .. } => MirrorAction::Report,
    }
}

/// The state after `event`, in a mirror of `links` files. Once the staging
/// directory is there, the files are linked one after the other; a link that
/// was made or found leads to the next one, and the last one to the
/// synchronisation. Any failure ends the work: what follows is the removal
/// of the staging directory, if there is one, and the report of that
/// failure. An event that does not answer the state's step changes nothing.
pub open spec fn next_state(links: nat, state: MirrorState, event: MirrorEvent) -> MirrorState {
    match state {
        MirrorState::Staging => match event {
            MirrorEvent::StagingCreated { .. } => linking_from(0, links),
            MirrorEvent::StagingFailed => MirrorState::Done {
                outcome: MirrorOutcome::StagingFailed,
            },
            _ => state,
        },
        MirrorState::Linking { next } => match event {
            MirrorEvent::Linked | MirrorEvent::AlreadyThere => linking_from(next + 1, links),
            MirrorEvent::DirectoryFailed => MirrorState::Cleaning {
                outcome: MirrorOutcome::DirectoryFailed { link: next },
            },
            MirrorEvent::LinkFailed => MirrorState::Cleaning {
                outcome: MirrorOutcome::LinkFailed { link: next },
            },
            _ => state,
        },
        MirrorState::Syncing => match event {
            MirrorEvent::SyncSucceeded => MirrorState::Cleaning { outcome: MirrorOutcome::Mirrored },
            MirrorEvent::SyncFailed => MirrorState::Cleaning { outcome: MirrorOutcome::SyncFailed },
            _ => state,
        },
        MirrorState::Cleaning { outcome } => match event {
            MirrorEvent::Cleaned => MirrorState::Done { outcome },
            _ => state,
        },
        MirrorState::Done { .. } => state,
    }
}

/// The state after the events `events`, one after the other.
pub open spec fn state_after(links: nat, state: MirrorState, events: Seq<MirrorEvent>) -> MirrorState
    decreases events.len(),
{
    if events.len() == 0 {
        state
    } else {
        next_state(links, state_after(links, state, events.drop_last()), events.last())
    }
}

/// A failure to build the staging view names one of the `links` files.
pub open spec fn outcome_fits(outcome: MirrorOutcome, links: nat) -> bool {
    match outcome {
        MirrorOutcome::DirectoryFailed { link } => link < links,
        MirrorOutcome::LinkFailed { link } => link < links,
        _ => true,
    }
}

/// The state names only files that the plan has.
pub open spec fn state_fits(state: MirrorState, links: nat) -> bool {
    match state {
        MirrorState::Linking { next } => next < links,
        MirrorState::Cleaning { outcome } => outcome_fits(outcome, links),
        MirrorState::Done { outcome } => outcome_fits(outcome, links),
        _ => true,
    }
}

/// How many of the events say that a link was made or found in place.
pub open spec fn links_settled(events: Seq<MirrorEvent>) -> nat
    decreases events.len(),
{
    if events.len() == 0 {
        0
    } else {
        let before = links_settled(events.drop_last());
        if events.last() is Linked || events.last() is AlreadyThere {
            before + 1
        } else {
            before
        }
    }
}

/// One of the events says that the staging directory was made.
pub open spec fn was_staged(events: Seq<MirrorEvent>) -> bool {
    exists|i: int| 0 <= i < events.len() && #[trigger] events[i] is StagingCreated
}

/// The program that synchronises, and its arguments: `rsync` in archive
/// mode, with the removal of what the source does not hold, from the
/// contents of the staging directory to the destination. The staging
/// directory is closed by a separator, so that what is in it, not the
/// directory itself, arrives in the destination.
pub open spec fn sync_command(staging: Seq<char>, destination: Seq<char>) -> Seq<Seq<char>> {
    seq!["rsync"@, "-av"@, "--delete"@, with_tail_slash(staging), destination]
}

/// The texts of `words`.
pub open spec fn texts_of(words: Seq<String>) -> Seq<Seq<char>> {
    words.map_values(|w: String| w@)
}

/// What is reported for `outcome`: nothing for a success, else the error,
/// with the file of `plan` that it is about.
pub open spec fn failure_of(plan: MirrorPlan, outcome: MirrorOutcome) -> Option<MirrorError> {
    match outcome {
        MirrorOutcome::Mirrored => None,
        MirrorOutcome::StagingFailed => Some(MirrorError::StagingFailed),
        MirrorOutcome::DirectoryFailed { link } => Some(
            MirrorError::DirectoryFailed {
                path: plan.files@[link as int].source,
                directory: plan.files@[link as int].directory,
            },
        ),
        MirrorOutcome::LinkFailed { link } => Some(
            MirrorError::LinkFailed {
                path: plan.files@[link as int].source,
                place: plan.files@[link as int].place,
            },
        ),
        MirrorOutcome::SyncFailed => Some(MirrorError::SyncFailed),
    }
}

/// The result of a mirror in the state `state`: `None` while it is not over.
pub open spec fn result_of(plan: MirrorPlan, state: MirrorState) -> Option<Result<(), MirrorError>> {
    match state {
        MirrorState::Done { outcome } => match failure_of(plan, outcome) {
            None => Some(Ok(())),
            Some(error) => Some(Err(error)),
        },
        _ => None,
    }
}

/// The state in which a mirror begins.
pub fn start() -> (state: MirrorState)
    ensures
        state == start_state(),
{
    MirrorState::Staging
}

/// The step that `state` asks for.
pub fn action(state: MirrorState) -> (action: MirrorAction)
    ensures
        action == action_of(state),
{
    match state {
        MirrorState::Staging => MirrorAction::CreateStaging,
        MirrorState::Linking { next } => MirrorAction::MakeLink { link: next },
        MirrorState::Syncing => MirrorAction::Synchronise,
        MirrorState::Cleaning { .. } => MirrorAction::RemoveStaging,
        MirrorState::Done { .. } => MirrorAction::Report,
    }
}

/// The state after `event`, in a mirror of `links` files.
pub fn step(links: usize, state: MirrorState, event: &MirrorEvent) -> (after: MirrorState)
    ensures
        after == next_state(links as nat, state, *event),
{
    match state {
        MirrorState::Staging => match event {
            MirrorEvent::StagingCreated { .. } => {
                if 0 < links {
                    MirrorState::Linking { next: 0 }
                } else {
                    MirrorState::Syncing
                }
            },
            MirrorEvent::StagingFailed => MirrorState::Done { outcome: MirrorOutcome::StagingFailed },
            _ => state,
        },
        MirrorState::Linking { next } => match event {
            MirrorEvent::Linked | MirrorEvent::AlreadyThere => {
                if next < links && next + 1 < links {
                    MirrorState::Linking { next: next + 1 }
                } else {
                    MirrorState::Syncing
                }
            },
            MirrorEvent::DirectoryFailed => MirrorState::Cleaning {
                outcome: MirrorOutcome::DirectoryFailed { link: next },
            },
            MirrorEvent::LinkFailed => MirrorState::Cleaning {
                outcome: MirrorOutcome::LinkFailed { link: next },
            },
            _ => state,
        },
        MirrorState::Syncing => match event {
            MirrorEvent::SyncSucceeded => MirrorState::Cleaning { outcome: MirrorOutcome::Mirrored },
            MirrorEvent::SyncFailed => MirrorState::Cleaning { outcome: MirrorOutcome::SyncFailed },
            _ => state,
        },
        MirrorState::Cleaning { outcome } => match event {
            MirrorEvent::Cleaned => MirrorState::Done { outcome },
            _ => state,
        },
        MirrorState::Done { .. } => state,
    }
}

/// A mirror under way: its plan, the staging directory once there is one,
/// and where it stands.
pub struct MirrorRun {
    plan: MirrorPlan,
    staging: Option<String>,
    state: MirrorState,
}

/// A mirror under way, as a plain value.
pub struct RunView {
    pub plan: MirrorPlan,
    pub staging: Option<Seq<char>>,
    pub state: MirrorState,
}

/// The staging directory after `event` has been taken note of: the one that
/// the event brings, where it answers the request for one, else the one
/// there was.
pub open spec fn staging_after(
    staging: Option<Seq<char>>,
    state: MirrorState,
    event: MirrorEvent,
) -> Option<Seq<char>> {
    match (state, event) {
        (MirrorState::Staging, MirrorEvent::StagingCreated { directory }) => Some(directory@),
        _ => staging,
    }
}

impl View for MirrorRun {
    type V = RunView;

    closed spec fn view(&self) -> RunView {
        RunView {
            plan: self.plan,
            staging: match self.staging {
                Some(directory) => Some(directory@),
                None => None,
            },
            state: self.state,
        }
    }
}

impl MirrorRun {
    #[verifier::type_invariant]
    spec fn fits(self) -> bool {
        &&& state_fits(self.state, self.plan.files@.len())
        &&& self.state is Linking || self.state is Syncing ==> self.staging is Some
    }

    /// Begins the mirror that `plan` describes.
    pub fn start(plan: MirrorPlan) -> (run: MirrorRun)
        ensures
            run@.plan == plan,
            run@.staging is None,
            run@.state == start_state(),
    {
        MirrorRun { plan, staging: None, state: start() }
    }

    /// The plan of this mirror.
    pub fn plan(&self) -> (plan: &MirrorPlan)
        ensures
            *plan == self@.plan,
    {
        &self.plan
    }

    /// Where the mirror stands. The state names only files of the plan, and
    /// while links are made or the synchronisation is due, there is a
    /// staging directory.
    pub fn state(&self) -> (state: MirrorState)
        ensures
            state == self@.state,
            state_fits(state, self@.plan.files@.len()),
            state is Linking || state is Syncing ==> self@.staging is Some,
    {
        proof {
            use_type_invariant(self);
        }
        self.state
    }

    /// The step to take next.
    pub fn action(&self) -> (action: MirrorAction)
        ensures
            action == action_of(self@.state),
            action matches MirrorAction::MakeLink { link } ==> link < self@.plan.files@.len(),
    {
        proof {
            use_type_invariant(self);
        }
        action(self.state)
    }

    /// The link to make now, while there is one: the link of the file that
    /// is next, in the staging directory.
    pub fn link(&self) -> (link: Option<StagedLink>)
        ensures
            match self@.state {
                MirrorState::Linking { next } => {
                    &&& next < self@.plan.files@.len()
                    &&& self@.staging is Some
                    &&& link is Some
                    &&& link->Some_0@ == staged(
                        self@.plan.files@[next as int]@,
                        self@.staging->Some_0,
                    )
                },
                _ => link is None,
            },
    {
        proof {
            use_type_invariant(self);
        }
        match self.state {
            MirrorState::Linking { next } => match &self.staging {
                Some(directory) => Some(self.plan.files[next].stage(directory.as_str())),
                None => None,
            },
            _ => None,
        }
    }

    /// The command that synchronises, the program first and then its
    /// arguments, while the synchronisation is due.
    pub fn command(&self) -> (words: Option<Vec<String>>)
        ensures
            match self@.state {
                MirrorState::Syncing => {
                    &&& self@.staging is Some
                    &&& words is Some
                    &&& texts_of(words->Some_0@) == sync_command(
                        self@.staging->Some_0,
                        self@.plan.destination@,
                    )
                },
                _ => words is None,
            },
    {
        proof {
            use_type_invariant(self);
        }
        match self.state {
            MirrorState::Syncing => match &self.staging {
                Some(directory) => {
                    let mut words: Vec<String> = Vec::new();
                    words.push(String::from_str("rsync"));
                    words.push(String::from_str("-av"));
                    words.push(String::from_str("--delete"));
                    words.push(dir_path_with_tail_slash(directory.as_str()));
                    words.push(self.plan.destination.clone());
                    assert(texts_of(words@) =~= sync_command(directory@, self.plan.destination@));
                    Some(words)
                },
                None => None,
            },
            _ => None,
        }
    }

    /// Takes note of what happened to the step that was asked for.
    pub fn on(&mut self, event: MirrorEvent)
        ensures
            final(self)@.plan == old(self)@.plan,
            final(self)@.state == next_state(old(self)@.plan.files@.len(), old(self)@.state, event),
            final(self)@.staging == staging_after(old(self)@.staging, old(self)@.state, event),
    {
        proof {
            use_type_invariant(&*self);
            lemma_next_state_fits(self.plan.files@.len(), self.state, event);
        }
        let after = step(self.plan.files.len(), self.state, &event);
        if let MirrorState::Staging = self.state {
            if let MirrorEvent::StagingCreated { directory } = event {
                self.staging = Some(directory);
            }
        }
        self.state = after;
    }

    /// The result of the mirror, once it is over.
    pub fn result(&self) -> (r: Option<Result<(), MirrorError>>)
        ensures
            r == result_of(self@.plan, self@.state),
    {
        proof {
            use_type_invariant(self);
        }
        match self.state {
            MirrorState::Done { outcome } => match outcome {
                MirrorOutcome::Mirrored => Some(Ok(())),
                MirrorOutcome::StagingFailed => Some(Err(MirrorError::StagingFailed)),
                MirrorOutcome::DirectoryFailed { link } => Some(
                    Err(
                        MirrorError::DirectoryFailed {
                            path: self.plan.files[link].source.clone(),
                            directory: self.plan.files[link].directory.clone(),
                        },
                    ),
                ),
                MirrorOutcome::LinkFailed { link } => Some(
                    Err(
                        MirrorError::LinkFailed {
                            path: self.plan.files[link].source.clone(),
                            place: self.plan.files[link].place.clone(),
                        },
                    ),
                ),
                MirrorOutcome::SyncFailed => Some(Err(MirrorError::SyncFailed)),
            },
            _ => None,
        }
    }
}

/// A step keeps the state within the plan.
pub proof fn lemma_next_state_fits(links: nat, state: MirrorState, event: MirrorEvent)
    requires
        state_fits(state, links),
    ensures
        state_fits(next_state(links, state, event), links),
{
}

/// A failure is final. Once the staging view could not be built, or the
/// synchronisation failed, no further link is made and no synchronisation
/// is run: the next step removes the staging directory, and that failure is
/// what is reported.
pub proof fn lemma_failure_is_final(links: nat, state: MirrorState, event: MirrorEvent)
    ensures
        (state is Linking && (event is DirectoryFailed || event is LinkFailed)) || (state is Syncing
            && event is SyncFailed) ==> {
            let after = next_state(links, state, event);
            &&& after is Cleaning
            &&& after->Cleaning_outcome != MirrorOutcome::Mirrored
            &&& action_of(after) == MirrorAction::RemoveStaging
            &&& forall|later: MirrorEvent|
                #![trigger next_state(links, after, later)]
                next_state(links, after, later) == after || next_state(links, after, later)
                    == (MirrorState::Done { outcome: after->Cleaning_outcome })
        },
{
}

/// Without a staging directory nothing is linked or synchronised: where it
/// could not be made, the mirror is over, and that failure is its result.
pub proof fn lemma_no_staging_no_mirror(links: nat, later: MirrorEvent)
    ensures
        next_state(links, start_state(), MirrorEvent::StagingFailed) == (MirrorState::Done {
            outcome: MirrorOutcome::StagingFailed,
        }),
        next_state(
            links,
            MirrorState::Done { outcome: MirrorOutcome::StagingFailed },
            later,
        ) == (MirrorState::Done { outcome: MirrorOutcome::StagingFailed }),
{
}

/// What a finished mirror has behind it. Unless the staging directory could
/// not be made, it was made and has been removed, whatever the outcome. A
/// success is reported only where the synchronisation was run and ended
/// well, and it was run only after each file of the plan had been linked or
/// found in place.
pub proof fn lemma_done_means_cleaned(links: nat, events: Seq<MirrorEvent>)
    ensures
        state_after(links, start_state(), events) matches MirrorState::Done { outcome } ==> {
            &&& outcome != MirrorOutcome::StagingFailed ==> was_staged(events) && events.contains(
                MirrorEvent::Cleaned,
            )
            &&& outcome == MirrorOutcome::Mirrored ==> events.contains(MirrorEvent::SyncSucceeded)
                && links_settled(events) >= links
        },
{
    lemma_trace(links, events);
}

/// What holds of the state after any events.
proof fn lemma_trace(links: nat, events: Seq<MirrorEvent>)
    ensures
        ({
            let state = state_after(links, start_state(), events);
            &&& state_fits(state, links)
            &&& state !is Staging && state != (MirrorState::Done {
                outcome: MirrorOutcome::StagingFailed,
            }) ==> was_staged(events)
            &&& state matches MirrorState::Linking { next } ==> links_settled(events) >= next
            &&& state is Syncing ==> links_settled(events) >= links
            &&& state is Cleaning ==> state->Cleaning_outcome != MirrorOutcome::StagingFailed
            &&& state == (MirrorState::Cleaning { outcome: MirrorOutcome::Mirrored })
                ==> events.contains(MirrorEvent::SyncSucceeded) && links_settled(events) >= links
            &&& state is Done && state->Done_outcome != MirrorOutcome::StagingFailed
                ==> events.contains(MirrorEvent::Cleaned)
            &&& state == (MirrorState::Done { outcome: MirrorOutcome::Mirrored })
                ==> events.contains(MirrorEvent::SyncSucceeded) && links_settled(events) >= links
        }),
    decreases events.len(),
{
    if events.len() > 0 {
        let init = events.drop_last();
        lemma_trace(links, init);
        let last = events.last();
        assert(events[events.len() - 1] == last);
        assert forall|e: MirrorEvent| init.contains(e) implies events.contains(e) by {
            let i = choose|i: int| 0 <= i < init.len() && init[i] == e;
            assert(events[i] == e);
        }
        if was_staged(init) {
            let i = choose|i: int| 0 <= i < init.len() && #[trigger] init[i] is StagingCreated;
            assert(events[i] is StagingCreated);
        }
    }
}

} // verus!
