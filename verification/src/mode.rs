//! The mode of the engine and what the two toggle commands do to it.

use vstd::prelude::*;

verus! {

/// The mode of the engine. Exactly one holds at any instant.
#[derive(Debug, Clone, Copy, PartialEq, Eq, Hash, Structural)]
pub enum AutoplayState {
    Stopped,
    Playing,
    Recording,
}

impl Default for AutoplayState {
    fn default() -> (state: Self)
        ensures
            state == AutoplayState::Stopped,
    {
        AutoplayState::Stopped
    }
}

/// Whether the recorder runs on a tick in this mode.
pub open spec fn runs_recorder(state: AutoplayState) -> bool {
    state == AutoplayState::Recording
}

/// Whether the player runs on a tick in this mode.
pub open spec fn runs_player(state: AutoplayState) -> bool {
    state == AutoplayState::Playing
}

/// The mode after the record toggle: a running recording stops, and from
/// any other mode a recording begins.
pub open spec fn after_toggle_record(state: AutoplayState) -> AutoplayState {
    match state {
        AutoplayState::Recording => AutoplayState::Stopped,
        AutoplayState::Stopped => AutoplayState::Recording,
        AutoplayState::Playing => AutoplayState::Recording,
    }
}

/// The mode after the play toggle: a running playback stops, and from any
/// other mode, a running recording included, a playback begins.
pub open spec fn after_toggle_play(state: AutoplayState) -> AutoplayState {
    match state {
        AutoplayState::Playing => AutoplayState::Stopped,
        AutoplayState::Stopped => AutoplayState::Playing,
        AutoplayState::Recording => AutoplayState::Playing,
    }
}

/// The mode that the record toggle asks for.
pub fn toggle_record(state: AutoplayState) -> (next: AutoplayState)
    ensures
        next == after_toggle_record(state),
{
    match state {
        AutoplayState::Playing => AutoplayState::Recording,
        AutoplayState::Stopped => AutoplayState::Recording,
        AutoplayState::Recording => AutoplayState::Stopped,
    }
}

/// The mode that the play toggle asks for.
pub fn toggle_play(state: AutoplayState) -> (next: AutoplayState)
    ensures
        next == after_toggle_play(state),
{
    match state {
        AutoplayState::Playing => AutoplayState::Stopped,
        AutoplayState::Stopped => AutoplayState::Playing,
        AutoplayState::Recording => AutoplayState::Playing,
    }
}

/// In no mode do the recorder and the player both run, and in `Stopped`
/// neither does.
pub proof fn lemma_modes_exclusive(state: AutoplayState)
    ensures
        !(runs_recorder(state) && runs_player(state)),
        state == AutoplayState::Stopped ==> !runs_recorder(state) && !runs_player(state),
{
}

/// A toggle that starts a run, given again, stops it.
pub proof fn lemma_toggle_twice_stops(state: AutoplayState)
    ensures
        state != AutoplayState::Recording ==> after_toggle_record(after_toggle_record(state))
            == AutoplayState::Stopped,
        state != AutoplayState::Playing ==> after_toggle_play(after_toggle_play(state))
            == AutoplayState::Stopped,
{
}

} // verus!
