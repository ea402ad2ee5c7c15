//! The player: on each tick, applies the earliest batch to the live key
//! state once its time has come.

use crate::clock::{reached, total_nanos};
use crate::keyboard::{key_state, press_key, release_key, KeyId, KeyState};
use crate::mode::AutoplayState;
use crate::record::{lemma_record_ticks_events, record_ticks, tick_events, Tick};
use crate::session::{all_events, chronological, ButtonEvent, Entry, InputLog, Session};
use bevy::input::ButtonInput;
use std::time::Duration;
use vstd::prelude::*;

verus! {

/// The key state after one transition.
pub open spec fn apply(keys: KeyState, event: ButtonEvent<KeyId>) -> KeyState {
    match event {
        ButtonEvent::Press(key) => keys.press(key),
        ButtonEvent::Release(key) => keys.release(key),
    }
}

/// The key state after the transitions of `events`, applied in order.
pub open spec fn replay(keys: KeyState, events: Seq<ButtonEvent<KeyId>>) -> KeyState
    decreases events.len(),
{
    if events.len() == 0 {
        keys
    } else {
        apply(replay(keys, events.drop_last()), events.last())
    }
}

/// What one tick of playback leaves behind: the batches still queued, the key
/// state, and the mode that the player asks for, if any.
pub struct Playback {
    pub entries: Seq<Entry<KeyId>>,
    pub keys: KeyState,
    pub next: Option<AutoplayState>,
}

/// One tick of playback at time `now` of a run that began at `start`.
///
/// With nothing queued, the player asks for `Stopped`. Otherwise it looks at
/// the earliest batch only: while that batch's offset has not been reached
/// nothing happens; once it has, the batch is applied and leaves the queue.
/// At most one batch is applied per tick.
pub open spec fn play_step(
    entries: Seq<Entry<KeyId>>,
    keys: KeyState,
    start: Duration,
    now: Duration,
) -> Playback {
    if entries.len() == 0 {
        Playback { entries, keys, next: Some(AutoplayState::Stopped) }
    } else if !reached(entries[0].offset, start, now) {
        Playback { entries, keys, next: None }
    } else {
        Playback { entries: entries.skip(1), keys: replay(keys, entries[0].events), next: None }
    }
}

/// What a run of ticks of playback leaves behind, the ticks taken at the
/// times of `ticks` in order.
pub open spec fn play_ticks(
    entries: Seq<Entry<KeyId>>,
    keys: KeyState,
    start: Duration,
    ticks: Seq<Duration>,
) -> Playback
    decreases ticks.len(),
{
    if ticks.len() == 0 {
        Playback { entries, keys, next: None }
    } else {
        let before = play_ticks(entries, keys, start, ticks.drop_last());
        play_step(before.entries, before.keys, start, ticks.last())
    }
}

/// Playing an empty session stops at once: the first tick asks for
/// `Stopped`, and neither the queue nor the key state changes.
pub proof fn lemma_empty_playback(keys: KeyState, start: Duration, now: Duration)
    ensures
        play_step(Seq::empty(), keys, start, now) == (Playback {
            entries: Seq::empty(),
            keys,
            next: Some(AutoplayState::Stopped),
        }),
{
}

/// No batch is applied before its time: a tick that changes the queue or the
/// key state found the earliest batch with its offset reached, and took
/// exactly that batch.
pub proof fn lemma_not_before_due(
    entries: Seq<Entry<KeyId>>,
    keys: KeyState,
    start: Duration,
    now: Duration,
)
    ensures
        ({
            let step = play_step(entries, keys, start, now);
            step.entries != entries || step.keys != keys ==> entries.len() > 0 && reached(
                entries[0].offset,
                start,
                now,
            ) && step.entries == entries.skip(1) && step.keys == replay(keys, entries[0].events)
        }),
{
}

/// Looking at the earliest batch only misses nothing: in a chronological
/// queue, while the earliest batch is not due, no batch is.
pub proof fn lemma_front_is_earliest(
    entries: Seq<Entry<KeyId>>,
    start: Duration,
    now: Duration,
    index: int,
)
    requires
        chronological(entries),
        0 <= index < entries.len(),
        !reached(entries[0].offset, start, now),
    ensures
        !reached(entries[index].offset, start, now),
{
    assert(entries[0].offset <= entries[index].offset);
}

/// Applying one run of transitions and then another is applying the two
/// runs joined.
pub proof fn lemma_replay_concat(
    keys: KeyState,
    first: Seq<ButtonEvent<KeyId>>,
    second: Seq<ButtonEvent<KeyId>>,
)
    ensures
        replay(keys, first + second) == replay(replay(keys, first), second),
    decreases second.len(),
{
    if second.len() == 0 {
        assert(first + second =~= first);
    } else {
        assert((first + second).drop_last() =~= first + second.drop_last());
        lemma_replay_concat(keys, first, second.drop_last());
    }
}

/// Playback keeps the order of the recording. After any run of ticks, the
/// batches that were applied are the first ones of the session, the batches
/// still queued are the others, and the key state is what the transitions of
/// the applied batches make of the key state before, taken in their recorded
/// order.
pub proof fn lemma_playback_in_order(
    entries: Seq<Entry<KeyId>>,
    keys: KeyState,
    start: Duration,
    ticks: Seq<Duration>,
)
    ensures
        ({
            let played = play_ticks(entries, keys, start, ticks);
            let applied = entries.len() - played.entries.len();
            &&& 0 <= applied <= entries.len()
            &&& applied <= ticks.len()
            &&& played.entries == entries.skip(applied)
            &&& played.keys == replay(keys, all_events(entries.take(applied)))
        }),
    decreases ticks.len(),
{
    if ticks.len() == 0 {
        assert(entries.skip(0) =~= entries);
        assert(entries.take(0) =~= Seq::<Entry<KeyId>>::empty());
    } else {
        lemma_playback_in_order(entries, keys, start, ticks.drop_last());
        let before = play_ticks(entries, keys, start, ticks.drop_last());
        let played = play_step(before.entries, before.keys, start, ticks.last());
        let applied = entries.len() - before.entries.len();
        if played.entries != before.entries || played.keys != before.keys {
            assert(before.entries[0] == entries[applied]);
            assert(before.entries.skip(1) =~= entries.skip(applied + 1));
            assert(entries.take(applied + 1).drop_last() =~= entries.take(applied));
            assert(entries.take(applied + 1).last() == entries[applied]);
            lemma_replay_concat(keys, all_events(entries.take(applied)), entries[applied].events);
        }
    }
}

/// Playback comes to its end. Given as many ticks as the session has
/// batches, each at a time at which every batch is due, the whole session is
/// applied in its recorded order, the queue is empty, and the next tick asks
/// for `Stopped`.
pub proof fn lemma_playback_completes(
    entries: Seq<Entry<KeyId>>,
    keys: KeyState,
    start: Duration,
    ticks: Seq<Duration>,
    now: Duration,
)
    requires
        ticks.len() == entries.len(),
        forall|tick: int, index: int|
            0 <= tick < ticks.len() && 0 <= index < entries.len() ==> reached(
                (#[trigger] entries[index]).offset,
                start,
                #[trigger] ticks[tick],
            ),
    ensures
        ({
            let played = play_ticks(entries, keys, start, ticks);
            &&& played.entries == Seq::<Entry<KeyId>>::empty()
            &&& played.keys == replay(keys, all_events(entries))
            &&& play_step(played.entries, played.keys, start, now).next == Some(
                AutoplayState::Stopped,
            )
        }),
{
    lemma_all_due_applied(entries, keys, start, ticks);
    lemma_playback_in_order(entries, keys, start, ticks);
    assert(entries.take(entries.len() as int) =~= entries);
}

/// What was recorded is what is played. A session recorded from nothing over
/// any run of ticks, then played to its end, makes of the key state what
/// the transitions that the recording ticks saw make of it, taken in the
/// order in which they were seen.
pub proof fn lemma_record_then_play(
    recording_start: Duration,
    recorded_ticks: Seq<Tick>,
    keys: KeyState,
    playback_start: Duration,
    playback_ticks: Seq<Duration>,
)
    requires
        playback_ticks.len() == record_ticks(
            Seq::empty(),
            recording_start,
            recorded_ticks,
        ).len(),
        forall|tick: int, index: int|
            0 <= tick < playback_ticks.len() && 0 <= index < playback_ticks.len() ==> reached(
                (#[trigger] record_ticks(Seq::empty(), recording_start, recorded_ticks)[index]).offset,
                playback_start,
                #[trigger] playback_ticks[tick],
            ),
    ensures
        ({
            let session = record_ticks(Seq::empty(), recording_start, recorded_ticks);
            let played = play_ticks(session, keys, playback_start, playback_ticks);
            &&& played.entries == Seq::<Entry<KeyId>>::empty()
            &&& played.keys == replay(keys, tick_events(recorded_ticks))
        }),
{
    let session = record_ticks(Seq::empty(), recording_start, recorded_ticks);
    lemma_record_ticks_events(Seq::empty(), recording_start, recorded_ticks);
    assert(all_events(Seq::<Entry<KeyId>>::empty()) + tick_events(recorded_ticks) =~= tick_events(
        recorded_ticks,
    ));
    lemma_playback_completes(session, keys, playback_start, playback_ticks, playback_start);
}

/// While every batch is due at every tick, each tick applies one batch.
proof fn lemma_all_due_applied(
    entries: Seq<Entry<KeyId>>,
    keys: KeyState,
    start: Duration,
    ticks: Seq<Duration>,
)
    requires
        ticks.len() <= entries.len(),
        forall|tick: int, index: int|
            0 <= tick < ticks.len() && 0 <= index < entries.len() ==> reached(
                (#[trigger] entries[index]).offset,
                start,
                #[trigger] ticks[tick],
            ),
    ensures
        play_ticks(entries, keys, start, ticks).entries == entries.skip(ticks.len() as int),
    decreases ticks.len(),
{
    if ticks.len() == 0 {
        assert(entries.skip(0) =~= entries);
    } else {
        let earlier = ticks.drop_last();
        assert forall|tick: int, index: int|
            0 <= tick < earlier.len() && 0 <= index < entries.len() implies reached(
            (#[trigger] entries[index]).offset,
            start,
            #[trigger] earlier[tick],
        ) by {
            assert(earlier[tick] == ticks[tick]);
        }
        lemma_all_due_applied(entries, keys, start, earlier);
        let before = play_ticks(entries, keys, start, earlier);
        let done = earlier.len() as int;
        assert(before.entries[0] == entries[done]);
        assert(reached(entries[done].offset, start, ticks[ticks.len() - 1]));
        assert(before.entries.skip(1) =~= entries.skip(done + 1));
    }
}

/// Entering playback: the run begins now. The queue is left as it is.
pub fn start_playing(now: Duration, start_time: &mut Duration)
    ensures
        *final(start_time) == now,
{
    *start_time = now;
}

/// Applies the transitions of a batch to the key state, in order.
pub fn apply_events(keyboard_input: &mut ButtonInput<KeyId>, log: &InputLog<KeyId>)
    ensures
        key_state(*final(keyboard_input)) == replay(key_state(*old(keyboard_input)), log@.events),
{
    let events = log.events();
    let mut i: usize = 0;
    assert(events@.take(0) =~= Seq::<ButtonEvent<KeyId>>::empty());
    while i < events.len()
        invariant
            i <= events.len(),
            events@ == log@.events,
            key_state(*keyboard_input) == replay(
                key_state(*old(keyboard_input)),
                events@.take(i as int),
            ),
        decreases events.len() - i,
    {
        assert(events@.take(i + 1).drop_last() =~= events@.take(i as int));
        match &events[i] {
            ButtonEvent::Press(key) => press_key(keyboard_input, *key),
            ButtonEvent::Release(key) => release_key(keyboard_input, *key),
        }
        i += 1;
    }
    assert(events@.take(i as int) =~= events@);
}

/// One tick of playback.
pub fn play(
    keyboard_input: &mut ButtonInput<KeyId>,
    session: &mut Session,
    now: Duration,
    start_time: Duration,
) -> (next: Option<AutoplayState>)
    ensures
        final(session)@ == play_step(
            old(session)@,
            key_state(*old(keyboard_input)),
            start_time,
            now,
        ).entries,
        key_state(*final(keyboard_input)) == play_step(
            old(session)@,
            key_state(*old(keyboard_input)),
            start_time,
            now,
        ).keys,
        next == play_step(old(session)@, key_state(*old(keyboard_input)), start_time, now).next,
        final(session)@ == old(session)@ ==> *final(keyboard_input) == *old(keyboard_input),
        old(session).wf() ==> final(session).wf(),
{
    let due = match session.front() {
        None => {
            return Some(AutoplayState::Stopped);
        },
        Some(entry) => total_nanos(start_time) + total_nanos(entry.timestamp()) <= total_nanos(
            now,
        ),
    };
    if !due {
        return None;
    }
    match session.pop_front() {
        Some(entry) => {
            apply_events(keyboard_input, &entry);
        },
        None => {},
    }
    None
}

/// Leaving playback: nothing to do.
pub fn stop_playing() {
}

} // verus!
