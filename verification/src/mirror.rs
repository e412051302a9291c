//! The selective mirror: a staging view that holds one link for each
//! selected file, and the run that makes the destination equal to that
//! view. Nothing here touches a file system: `plan` says what is to be
//! linked, `run` in which order the steps are taken and what follows a
//! failure.

pub mod plan;
pub mod run;

pub use plan::{rsync_files, MirrorError, MirrorPlan, PlacedFile, StagedLink};
pub use run::{
    action, start, step, MirrorAction, MirrorEvent, MirrorOutcome, MirrorRun, MirrorState,
};
