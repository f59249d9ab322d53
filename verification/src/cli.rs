//! The command model, and the decision what to do with a finished plan.
//!
//! The two commands move tracked files in opposite directions between the
//! working directory and the home directory; both take the same flags.
//! Parsing the command line and prompting the user live with the caller;
//! the decision logic stands here.

use vstd::prelude::*;

verus! {

/// The parsed command line: one command.
#[derive(Debug, Clone, Copy, PartialEq, Eq)]
pub struct Cli {
    pub command: Commands,
}

/// The two directions of one reconciliation.
#[derive(Debug, Clone, Copy, PartialEq, Eq)]
pub enum Commands {
    /// Pulls tracked files from the home directory into the working
    /// directory.
    Refresh(SyncArgs),
    /// Places tracked files from the working directory into the home
    /// directory.
    Install(SyncArgs),
}

/// The flags of either command.
#[derive(Debug, Clone, Copy, PartialEq, Eq)]
pub struct SyncArgs {
    /// Print the plan and stop, neither prompting nor executing.
    pub raw: bool,
}

/// Flags of a forced installation.
#[derive(Debug, Clone, Copy, PartialEq, Eq)]
pub struct InstallArgs {
    pub force: bool,
}

/// What to do once a non-empty plan has been reported.
#[derive(Debug, Clone, Copy, PartialEq, Eq)]
pub enum NextStep {
    /// Stop without touching the destination.
    Stop,
    /// Apply the plan at once.
    Execute,
    /// Ask the user, and apply the plan only on a yes.
    AskUser,
}

/// Decides how to proceed with a reported plan: `raw` stops before any
/// mutation, `skip_prompt` executes unasked, and otherwise the user decides.
pub fn next_step(raw: bool, skip_prompt: bool) -> (r: NextStep)
    ensures
        r == (if raw {
            NextStep::Stop
        } else if skip_prompt {
            NextStep::Execute
        } else {
            NextStep::AskUser
        }),
{
    if raw {
        NextStep::Stop
    } else if skip_prompt {
        NextStep::Execute
    } else {
        NextStep::AskUser
    }
}

} // verus!
