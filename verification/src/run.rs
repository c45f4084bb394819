//! The course of one run of a command.

use crate::error::FontError;
use crate::font_manager::Action;
use vstd::prelude::*;

verus! {

/// How far a run has come.
#[derive(Clone, Copy, Debug, PartialEq, Eq, Hash, Structural)]
pub enum RunState {
    /// Nothing done yet.
    Init,
    /// The manifest is read.
    ConfigLoaded,
    /// The font sets are computed.
    SetsComputed,
    /// The status is reported.
    Reported,
    /// The missing fonts are being fetched.
    Updating,
    /// Every missing font has been tried.
    Updated,
    /// The run is over and went through.
    Done,
    /// The run was given up on a fatal error.
    Aborted,
}

/// The place of a state in the course of a run.
pub open spec fn stage(state: RunState) -> int {
    match state {
        RunState::Init => 0,
        RunState::ConfigLoaded => 1,
        RunState::SetsComputed => 2,
        RunState::Reported => 3,
        RunState::Updating => 4,
        RunState::Updated => 5,
        RunState::Done => 6,
        RunState::Aborted => 7,
    }
}

/// A run is over when it is done or aborted.
pub open spec fn is_over(state: RunState) -> bool {
    state == RunState::Done || state == RunState::Aborted
}

/// The state that follows `state` once its work has ended with `failure`
/// or without one. A fatal error aborts the run; an error that concerns one
/// font of an update does not. After the report a check is done, and an
/// update goes on to fetch the fonts.
pub open spec fn successor(state: RunState, action: Action, failure: Option<FontError>) -> RunState {
    if is_over(state) {
        state
    } else if failure is Some && failure->0.is_fatal() {
        RunState::Aborted
    } else {
        match state {
            RunState::Init => RunState::ConfigLoaded,
            RunState::ConfigLoaded => RunState::SetsComputed,
            RunState::SetsComputed => RunState::Reported,
            RunState::Reported => if action == Action::Updating {
                RunState::Updating
            } else {
                RunState::Done
            },
            RunState::Updating => RunState::Updated,
            _ => RunState::Done,
        }
    }
}

/// Moves a run on by one step.
pub fn advance(state: RunState, action: Action, failure: Option<FontError>) -> (r: RunState)
    ensures
        r == successor(state, action, failure),
{
    match state {
        RunState::Done => {
            return RunState::Done;
        },
        RunState::Aborted => {
            return RunState::Aborted;
        },
        _ => {},
    }
    match failure {
        Some(e) => {
            if e.aborts_run() {
                return RunState::Aborted;
            }
        },
        None => {},
    }
    match state {
        RunState::Init => RunState::ConfigLoaded,
        RunState::ConfigLoaded => RunState::SetsComputed,
        RunState::SetsComputed => RunState::Reported,
        RunState::Reported => match action {
            Action::Updating => RunState::Updating,
            Action::Checking => RunState::Done,
        },
        RunState::Updating => RunState::Updated,
        _ => RunState::Done,
    }
}

/// The exit status of a run that has come to `state`: zero only for a run
/// that is done.
pub fn exit_status(state: RunState) -> (r: i32)
    ensures
        r == 0 <==> state == RunState::Done,
        r == 0 || r == 1,
{
    match state {
        RunState::Done => 0,
        _ => 1,
    }
}

/// A run never goes back: every step of a run that is not over leads to a
/// later state, and a run that is over stays where it is. A check never
/// fetches fonts.
pub proof fn lemma_no_way_back(state: RunState, action: Action, failure: Option<FontError>)
    ensures
        !is_over(state) ==> stage(state) < stage(successor(state, action, failure)),
        is_over(state) ==> successor(state, action, failure) == state,
        action == Action::Checking && state != RunState::Updating ==> successor(
            state,
            action,
            failure,
        ) != RunState::Updating,
{
}

} // verus!
