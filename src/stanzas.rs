//! The order of a run: stanzas in declaration order, the matches of each in the order the
//! query engine reports them, and an abort on the first error.
use vstd::prelude::*;

verus! {

/// Where a run stands.
#[derive(Clone, Copy, Debug, PartialEq, Eq, Structural)]
pub enum RunStatus {
    Running,
    Finished,
    Aborted,
}

/// The state of a run: the stanza being executed, out of how many, and the status.
#[derive(Clone, Copy, Debug, PartialEq, Eq, Structural)]
pub struct RunState {
    pub stanza: usize,
    pub stanza_count: usize,
    pub status: RunStatus,
}

/// What the host reports after carrying out an action.
#[derive(Clone, Copy, Debug, PartialEq, Eq, Structural)]
pub enum RunEvent {
    /// The statement block ran to its end on the match.
    MatchSucceeded,
    /// A statement or an expression of the block failed on the match.
    MatchFailed,
    /// The query engine has no further match for the stanza.
    StanzaExhausted,
}

/// What the host is to do next.
#[derive(Clone, Copy, Debug, PartialEq, Eq, Structural)]
pub enum RunAction {
    /// Take the next match of this stanza, run its block with fresh locals, and report.
    NextMatch(usize),
    /// The run is complete: hand the graph over.
    Finish,
    /// The run failed: discard the graph.
    Abort,
}

/// The first stanza that has work, from `stanza` on, as the state and action it leads to.
pub open spec fn enter(stanza: nat, count: nat) -> (RunStatus, RunAction) {
    if stanza < count {
        (RunStatus::Running, RunAction::NextMatch(stanza as usize))
    } else {
        (RunStatus::Finished, RunAction::Finish)
    }
}

/// Starts a run over `stanza_count` stanzas: the first stanza's matches, or the end at once
/// when there is no stanza.
pub fn start(stanza_count: usize) -> (r: (RunState, RunAction))
    ensures
        r.0.stanza == 0,
        r.0.stanza_count == stanza_count,
        (r.0.status, r.1) == enter(0, stanza_count as nat),
{
    if stanza_count > 0 {
        (RunState { stanza: 0, stanza_count, status: RunStatus::Running }, RunAction::NextMatch(0))
    } else {
        (RunState { stanza: 0, stanza_count, status: RunStatus::Finished }, RunAction::Finish)
    }
}

/// The next state and action of a running run after `event`: after a match that succeeded,
/// the next match of the same stanza; after a failure, the abort; after the last match of a
/// stanza, the next stanza, or the end after the last one.
pub fn step(state: RunState, event: RunEvent) -> (r: (RunState, RunAction))
    requires
        state.status is Running,
        state.stanza < state.stanza_count,
    ensures
        r.0.stanza_count == state.stanza_count,
        event is MatchSucceeded ==> r == (state, RunAction::NextMatch(state.stanza)),
        event is MatchFailed ==> r.0.stanza == state.stanza && r.0.status is Aborted && r.1 is Abort,
        event is StanzaExhausted ==> r.0.stanza == state.stanza + 1
            && (r.0.status, r.1) == enter((state.stanza + 1) as nat, state.stanza_count as nat),
{
    match event {
        RunEvent::MatchSucceeded => (state, RunAction::NextMatch(state.stanza)),
        RunEvent::MatchFailed => (
            RunState { stanza: state.stanza, stanza_count: state.stanza_count, status: RunStatus::Aborted },
            RunAction::Abort,
        ),
        RunEvent::StanzaExhausted => {
            let next = state.stanza + 1;
            if next < state.stanza_count {
                (RunState { stanza: next, stanza_count: state.stanza_count, status: RunStatus::Running },
                    RunAction::NextMatch(next))
            } else {
                (RunState { stanza: next, stanza_count: state.stanza_count, status: RunStatus::Finished },
                    RunAction::Finish)
            }
        },
    }
}

} // verus!
