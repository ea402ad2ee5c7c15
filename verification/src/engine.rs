//! The engine: the mode, the start of the current run and the session,
//! owned together and driven tick by tick.

use crate::clock::nanos_of;
use crate::codec::{decode, encode, encode_result, parse_session, DecodeError, EncodeError};
use crate::keyboard::{key_state, KeyId};
use crate::mode::{
    after_toggle_play, after_toggle_record, runs_player, runs_recorder, toggle_play,
    toggle_record, AutoplayState,
};
use crate::play::{play, play_step, start_playing, stop_playing};
use crate::record::{can_record, records, start_recording, stop_recording, try_record};
use crate::session::{chronological, Entry, Session};
use bevy::input::ButtonInput;
use std::time::Duration;
use vstd::prelude::*;

verus! {

/// What an engine is, mathematically.
pub struct EngineView {
    /// The mode.
    pub state: AutoplayState,
    /// When the current recording or playback began.
    pub start: Duration,
    /// The batches of the session, earliest first.
    pub entries: Seq<Entry<KeyId>>,
}

/// The engine after the mode `next` was asked for at `now`.
///
/// Asking for the mode that holds changes nothing. Entering `Recording`
/// discards the session and begins a run; entering `Playing` begins a run
/// and keeps the session; entering `Stopped` does nothing more.
pub open spec fn entered(engine: EngineView, next: AutoplayState, now: Duration) -> EngineView {
    if next == engine.state {
        engine
    } else {
        match next {
            AutoplayState::Recording => EngineView {
                state: next,
                start: now,
                entries: Seq::empty(),
            },
            AutoplayState::Playing => EngineView {
                state: next,
                start: now,
                entries: engine.entries,
            },
            AutoplayState::Stopped => EngineView {
                state: next,
                start: engine.start,
                entries: engine.entries,
            },
        }
    }
}

/// What a tick at `now` makes of an engine and of the key state.
///
/// While stopped, nothing runs. While recording, the recorder runs and the
/// key state is only read; a tick that finds the clock run backwards
/// records nothing. While playing, the player runs, and the engine stops
/// once the queue is exhausted. The start of the run never changes.
pub open spec fn ticked(
    before: EngineView,
    input_before: ButtonInput<KeyId>,
    after: EngineView,
    input_after: ButtonInput<KeyId>,
    now: Duration,
) -> bool {
    &&& after.start == before.start
    &&& !runs_recorder(before.state) && !runs_player(before.state) ==> {
        &&& after.state == before.state
        &&& after.entries == before.entries
        &&& input_after == input_before
    }
    &&& runs_recorder(before.state) ==> {
        &&& after.state == before.state
        &&& input_after == input_before
        &&& if can_record(before.entries, before.start, now) {
            records(before.entries, after.entries, input_before, before.start, now)
        } else {
            after.entries == before.entries
        }
    }
    &&& runs_player(before.state) ==> {
        let step = play_step(before.entries, key_state(input_before), before.start, now);
        &&& after.entries == step.entries
        &&& key_state(input_after) == step.keys
        &&& after.entries == before.entries ==> input_after == input_before
        &&& after.state == match step.next {
            Some(next) => next,
            None => before.state,
        }
    }
}

/// Entering `Recording` discards what was recorded before: the session is
/// empty before the first new batch can be appended.
pub proof fn lemma_recording_starts_empty(engine: EngineView, now: Duration)
    requires
        engine.state != AutoplayState::Recording,
    ensures
        entered(engine, AutoplayState::Recording, now).entries == Seq::<Entry<KeyId>>::empty(),
        entered(engine, AutoplayState::Recording, now).start == now,
{
}

/// Entering `Playing` or `Stopped` keeps the session as it is.
pub proof fn lemma_session_kept(engine: EngineView, next: AutoplayState, now: Duration)
    requires
        next != AutoplayState::Recording,
    ensures
        entered(engine, next, now).entries == engine.entries,
{
}

/// A tick never runs the recorder and the player together: whatever the
/// mode, a tick that changes the queue either leaves the key state alone,
/// as the recorder does, or leaves the queue shorter, as the player does.
pub proof fn lemma_tick_runs_one(
    before: EngineView,
    input_before: ButtonInput<KeyId>,
    after: EngineView,
    input_after: ButtonInput<KeyId>,
    now: Duration,
)
    requires
        ticked(before, input_before, after, input_after, now),
    ensures
        after.entries.len() > before.entries.len() ==> runs_recorder(before.state) && input_after
            == input_before,
        after.entries.len() < before.entries.len() ==> runs_player(before.state),
        input_after != input_before ==> runs_player(before.state) && after.entries.len()
            < before.entries.len(),
        before.state == AutoplayState::Stopped ==> after == before && input_after == input_before,
{
}

/// The record/playback engine.
pub struct Autoplay {
    state: AutoplayState,
    start_time: Duration,
    session: Session,
}

impl View for Autoplay {
    type V = EngineView;

    closed spec fn view(&self) -> EngineView {
        EngineView { state: self.state, start: self.start_time, entries: self.session@ }
    }
}

impl Autoplay {
    /// The invariant of an engine: the session is in chronological order.
    pub open spec fn wf(&self) -> bool {
        chronological(self@.entries)
    }

    /// A stopped engine with an empty session, whose start of run is the
    /// zero of the clock.
    pub fn new() -> (engine: Self)
        ensures
            engine.wf(),
            engine@.state == AutoplayState::Stopped,
            engine@.entries == Seq::<Entry<KeyId>>::empty(),
            nanos_of(engine@.start) == 0,
    {
        Autoplay {
            state: AutoplayState::Stopped,
            start_time: Duration::new(0, 0),
            session: Session::new(),
        }
    }

    /// The mode.
    pub fn state(&self) -> (state: AutoplayState)
        ensures
            state == self@.state,
    {
        self.state
    }

    /// When the current recording or playback began.
    pub fn start_time(&self) -> (start: Duration)
        ensures
            start == self@.start,
    {
        self.start_time
    }

    /// The session.
    pub fn session(&self) -> (session: &Session)
        ensures
            session@ == self@.entries,
    {
        &self.session
    }

    /// Changes the mode at time `now`, leaving the old mode and entering the
    /// new one.
    pub fn set_state(&mut self, next: AutoplayState, now: Duration)
        ensures
            final(self)@ == entered(old(self)@, next, now),
            old(self).wf() ==> final(self).wf(),
    {
        if next == self.state {
            return ;
        }
        match self.state {
            AutoplayState::Recording => stop_recording(),
            AutoplayState::Playing => stop_playing(),
            AutoplayState::Stopped => {},
        }
        match next {
            AutoplayState::Recording => start_recording(
                &mut self.session,
                now,
                &mut self.start_time,
            ),
            AutoplayState::Playing => start_playing(now, &mut self.start_time),
            AutoplayState::Stopped => {},
        }
        self.state = next;
    }

    /// The record toggle, given at time `now`.
    pub fn toggle_record(&mut self, now: Duration)
        ensures
            final(self)@ == entered(old(self)@, after_toggle_record(old(self)@.state), now),
            old(self).wf() ==> final(self).wf(),
    {
        let next = toggle_record(self.state);
        self.set_state(next, now);
    }

    /// The play toggle, given at time `now`.
    pub fn toggle_play(&mut self, now: Duration)
        ensures
            final(self)@ == entered(old(self)@, after_toggle_play(old(self)@.state), now),
            old(self).wf() ==> final(self).wf(),
    {
        let next = toggle_play(self.state);
        self.set_state(next, now);
    }

    /// One tick at time `now`.
    pub fn tick(&mut self, keyboard_input: &mut ButtonInput<KeyId>, now: Duration)
        ensures
            ticked(old(self)@, *old(keyboard_input), final(self)@, *final(keyboard_input), now),
            old(self).wf() ==> final(self).wf(),
    {
        match self.state {
            AutoplayState::Stopped => {},
            AutoplayState::Recording => {
                try_record(&*keyboard_input, &mut self.session, now, self.start_time);
            },
            AutoplayState::Playing => {
                let next = play(keyboard_input, &mut self.session, now, self.start_time);
                match next {
                    Some(state) => {
                        self.state = state;
                    },
                    None => {},
                }
            },
        }
    }

    /// Replaces the session by the one that `bytes` hold. If they hold none,
    /// nothing changes.
    pub fn load(&mut self, bytes: &[u8]) -> (result: Result<(), DecodeError>)
        ensures
            final(self)@.state == old(self)@.state,
            final(self)@.start == old(self)@.start,
            match result {
                Ok(()) => parse_session(bytes@) == Ok::<Seq<Entry<KeyId>>, DecodeError>(
                    final(self)@.entries,
                ) && final(self).wf(),
                Err(error) => parse_session(bytes@) == Err::<Seq<Entry<KeyId>>, DecodeError>(error)
                    && final(self)@.entries == old(self)@.entries,
            },
    {
        match decode(bytes) {
            Ok(session) => {
                self.session = session;
                Ok(())
            },
            Err(error) => Err(error),
        }
    }

    /// Replaces the session by the one that `bytes` hold and enters
    /// `Playing` at time `now`. If the bytes hold no session, nothing
    /// changes.
    pub fn load_and_play(&mut self, bytes: &[u8], now: Duration) -> (result: Result<
        (),
        DecodeError,
    >)
        ensures
            match result {
                Ok(()) => parse_session(bytes@) is Ok && final(self)@ == entered(
                    EngineView {
                        state: old(self)@.state,
                        start: old(self)@.start,
                        entries: parse_session(bytes@).unwrap(),
                    },
                    AutoplayState::Playing,
                    now,
                ) && final(self).wf(),
                Err(error) => parse_session(bytes@) == Err::<Seq<Entry<KeyId>>, DecodeError>(error)
                    && final(self)@ == old(self)@,
            },
    {
        match self.load(bytes) {
            Ok(()) => {
                self.set_state(AutoplayState::Playing, now);
                Ok(())
            },
            Err(error) => Err(error),
        }
    }

    /// The file of the session. Loading it gives the session back.
    pub fn save(&self) -> (result: Result<Vec<u8>, EncodeError>)
        ensures
            match result {
                Ok(bytes) => encode_result(self@.entries) == Ok::<Seq<u8>, EncodeError>(bytes@),
                Err(error) => encode_result(self@.entries) == Err::<Seq<u8>, EncodeError>(error),
            },
            result is Ok && self.wf() ==> parse_session(result.unwrap()@) == Ok::<
                Seq<Entry<KeyId>>,
                DecodeError,
            >(self@.entries),
    {
        encode(&self.session)
    }
}

} // verus!
