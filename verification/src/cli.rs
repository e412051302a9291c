//! What was asked for on the command line, and the action that follows from
//! it.

use vstd::prelude::*;

verus! {

/// The settings of one run, as the command line gave them.
#[derive(Debug, PartialEq, Eq)]
pub struct Cli {
    /// The key to look for in the metadata block.
    pub key: String,
    /// The pattern that the value under the key has to match.
    pub value: String,
    /// The pattern for the directories whose files are attachments.
    pub include_attachment: Option<String>,
    /// Print the selected paths.
    pub print: bool,
    /// Mirror the selection into this directory.
    pub rsync_to: Option<String>,
    /// The directory to select from.
    pub src: String,
}

/// What to do with the selection.
#[derive(Debug, PartialEq, Eq)]
pub enum Action<'a> {
    /// Write the selected paths, one on each line.
    Print,
    /// Mirror the selection from `src_dir` into `dst_dir`.
    RsyncTo { src_dir: &'a String, dst_dir: &'a String },
}

/// Why the settings cannot be acted on.
#[derive(Clone, Copy, Debug, PartialEq, Eq, Structural)]
pub enum CliError {
    /// Neither printing nor a destination was asked for.
    NoAction,
}

/// The action that the settings ask for. Printing goes before mirroring;
/// with neither there is none.
pub open spec fn action_for<'a>(cli: &'a Cli) -> Result<Action<'a>, CliError> {
    if cli.print {
        Ok(Action::Print)
    } else {
        match &cli.rsync_to {
            Some(dst_dir) => Ok(Action::RsyncTo { src_dir: &cli.src, dst_dir }),
            None => Err(CliError::NoAction),
        }
    }
}

impl<'a> Action<'a> {
    /// Reads the action off the settings.
    pub fn from_cli(cli: &'a Cli) -> (r: Result<Action<'a>, CliError>)
        ensures
            r == action_for(cli),
    {
        if cli.print {
            return Ok(Action::Print);
        }
        if let Some(dst_dir) = &cli.rsync_to {
            return Ok(Action::RsyncTo { src_dir: &cli.src, dst_dir });
        }
        Err(CliError::NoAction)
    }
}

} // verus!
