//! The recorder: on each tick that saw a key change, appends one batch to
//! the session.

use crate::clock::{elapsed_since, nanos_of, total_nanos};
use crate::keyboard::{
    just_pressed_keys, just_pressed_list, just_released_keys, just_released_list, KeyId,
};
use crate::session::{
    all_events, chronological, snapshot_of, transitions, ButtonEvent, Entry, InputLog, Session,
};
use bevy::input::ButtonInput;
use std::time::Duration;
use vstd::prelude::*;

verus! {

/// Whether no key changed in the tick that `input` describes.
pub open spec fn idle(input: ButtonInput<KeyId>) -> bool {
    just_pressed_keys(input) == Set::<KeyId>::empty() && just_released_keys(input) == Set::<
        KeyId,
    >::empty()
}

/// The offset of a batch recorded at `now` in a run that began at `start`.
pub open spec fn offset_at(start: Duration, now: Duration) -> nat {
    (nanos_of(now) - nanos_of(start)) as nat
}

/// Whether a tick at `now` can be recorded behind `entries` in a run that
/// began at `start`: the clock has not run backwards, so that `now` is
/// neither before the start of the run nor before the last batch recorded.
pub open spec fn can_record(entries: Seq<Entry<KeyId>>, start: Duration, now: Duration) -> bool {
    &&& nanos_of(start) <= nanos_of(now)
    &&& entries.len() > 0 ==> entries.last().offset + nanos_of(start) <= nanos_of(now)
}

/// The queue after a tick at `now` in which the keys of `pressed` went down
/// and those of `released` went up. A tick without a change leaves no trace.
pub open spec fn recorded(
    entries: Seq<Entry<KeyId>>,
    pressed: Seq<KeyId>,
    released: Seq<KeyId>,
    start: Duration,
    now: Duration,
) -> Seq<Entry<KeyId>> {
    if pressed.len() == 0 && released.len() == 0 {
        entries
    } else {
        entries.push(
            Entry { offset: offset_at(start, now), events: transitions(pressed, released) },
        )
    }
}

/// Entering recording: whatever was recorded before is discarded, and the
/// run begins now.
pub fn start_recording(session: &mut Session, now: Duration, start_time: &mut Duration)
    ensures
        final(session)@ == Seq::<Entry<KeyId>>::empty(),
        final(session).wf(),
        *final(start_time) == now,
{
    session.clear();
    *start_time = now;
}

/// One tick of recording, given the keys that went down and those that went
/// up in it. The caller sees to it that the clock has not run backwards.
pub fn record_transitions(
    pressed: &Vec<KeyId>,
    released: &Vec<KeyId>,
    session: &mut Session,
    now: Duration,
    start_time: Duration,
)
    requires
        can_record(old(session)@, start_time, now),
    ensures
        final(session)@ == recorded(old(session)@, pressed@, released@, start_time, now),
        old(session).wf() ==> final(session).wf(),
{
    if pressed.len() == 0 && released.len() == 0 {
        return ;
    }
    let mut key_event: InputLog<KeyId> = InputLog::new(elapsed_since(now, start_time));
    key_event.push_transitions(pressed, released);
    assert(key_event@.events =~= transitions(pressed@, released@));
    session.push_back(key_event);
}

/// What one tick of recording makes of the queue. If no key changed, the
/// queue stays as it is. Otherwise it gains one batch, at the time that has
/// passed since the start of the run, with a press of every key that went
/// down and then a release of every key that went up.
pub open spec fn records(
    before: Seq<Entry<KeyId>>,
    after: Seq<Entry<KeyId>>,
    input: ButtonInput<KeyId>,
    start: Duration,
    now: Duration,
) -> bool {
    if idle(input) {
        after == before
    } else {
        exists|added: Seq<ButtonEvent<KeyId>>|
            #![trigger snapshot_of(added, input)]
            snapshot_of(added, input) && after == before.push(
                Entry { offset: offset_at(start, now), events: added },
            )
    }
}

/// One tick of recording. The caller sees to it that the clock has not run
/// backwards.
pub fn record(
    keyboard_input: &ButtonInput<KeyId>,
    session: &mut Session,
    now: Duration,
    start_time: Duration,
)
    requires
        can_record(old(session)@, start_time, now),
    ensures
        records(old(session)@, final(session)@, *keyboard_input, start_time, now),
        old(session).wf() ==> final(session).wf(),
{
    let pressed = just_pressed_list(keyboard_input);
    let released = just_released_list(keyboard_input);
    proof {
        if pressed@.len() == 0 {
            assert(just_pressed_keys(*keyboard_input) =~= Set::<KeyId>::empty());
        } else {
            assert(pressed@.contains(pressed@[0]));
            assert(just_pressed_keys(*keyboard_input).contains(pressed@[0]));
        }
        if released@.len() == 0 {
            assert(just_released_keys(*keyboard_input) =~= Set::<KeyId>::empty());
        } else {
            assert(released@.contains(released@[0]));
            assert(just_released_keys(*keyboard_input).contains(released@[0]));
        }
    }
    record_transitions(&pressed, &released, session, now, start_time);
    assert(snapshot_of(transitions(pressed@, released@), *keyboard_input));
}

/// One tick of recording, if the clock has not run backwards; else nothing
/// is recorded, and the queue stays as it is.
pub fn try_record(
    keyboard_input: &ButtonInput<KeyId>,
    session: &mut Session,
    now: Duration,
    start_time: Duration,
) -> (ran: bool)
    ensures
        ran == can_record(old(session)@, start_time, now),
        ran ==> records(old(session)@, final(session)@, *keyboard_input, start_time, now),
        !ran ==> final(session)@ == old(session)@,
        old(session).wf() ==> final(session).wf(),
{
    let start = total_nanos(start_time);
    let time = total_nanos(now);
    if time < start {
        return false;
    }
    let in_order = match session.back() {
        Some(last) => total_nanos(last.timestamp()) + start <= time,
        None => true,
    };
    if !in_order {
        return false;
    }
    record(keyboard_input, session, now, start_time);
    true
}

/// Recording keeps the order of what happened: the transitions of the queue
/// after a tick are those before it, followed by the presses and then the
/// releases of the tick. A tick without a change adds none.
pub proof fn lemma_recorded_events(
    entries: Seq<Entry<KeyId>>,
    pressed: Seq<KeyId>,
    released: Seq<KeyId>,
    start: Duration,
    now: Duration,
)
    ensures
        all_events(recorded(entries, pressed, released, start, now)) == all_events(entries)
            + transitions(pressed, released),
{
    let after = recorded(entries, pressed, released, start, now);
    if pressed.len() == 0 && released.len() == 0 {
        assert(transitions(pressed, released) =~= Seq::<ButtonEvent<KeyId>>::empty());
        assert(all_events(entries) + transitions(pressed, released) =~= all_events(entries));
    } else {
        assert(after.drop_last() =~= entries);
    }
}

/// What one tick of recording saw: the keys that went down, those that
/// went up, and the time.
pub struct Tick {
    pub pressed: Seq<KeyId>,
    pub released: Seq<KeyId>,
    pub now: Duration,
}

/// The queue after a run of ticks of recording, in a run that began at
/// `start`.
pub open spec fn record_ticks(entries: Seq<Entry<KeyId>>, start: Duration, ticks: Seq<Tick>) -> Seq<
    Entry<KeyId>,
>
    decreases ticks.len(),
{
    if ticks.len() == 0 {
        entries
    } else {
        recorded(
            record_ticks(entries, start, ticks.drop_last()),
            ticks.last().pressed,
            ticks.last().released,
            start,
            ticks.last().now,
        )
    }
}

/// The transitions that a run of ticks saw, tick after tick, in each tick
/// the presses before the releases.
pub open spec fn tick_events(ticks: Seq<Tick>) -> Seq<ButtonEvent<KeyId>>
    decreases ticks.len(),
{
    if ticks.len() == 0 {
        Seq::empty()
    } else {
        tick_events(ticks.drop_last()) + transitions(ticks.last().pressed, ticks.last().released)
    }
}

/// Over any number of ticks, the recorded session holds what the ticks saw,
/// in the order in which they saw it, behind what it held before.
pub proof fn lemma_record_ticks_events(
    entries: Seq<Entry<KeyId>>,
    start: Duration,
    ticks: Seq<Tick>,
)
    ensures
        all_events(record_ticks(entries, start, ticks)) == all_events(entries) + tick_events(ticks),
    decreases ticks.len(),
{
    if ticks.len() == 0 {
        assert(all_events(entries) + tick_events(ticks) =~= all_events(entries));
    } else {
        let before = record_ticks(entries, start, ticks.drop_last());
        lemma_record_ticks_events(entries, start, ticks.drop_last());
        lemma_recorded_events(
            before,
            ticks.last().pressed,
            ticks.last().released,
            start,
            ticks.last().now,
        );
        assert((all_events(entries) + tick_events(ticks.drop_last())) + transitions(
            ticks.last().pressed,
            ticks.last().released,
        ) =~= all_events(entries) + tick_events(ticks));
    }
}

/// Recording keeps the queue in chronological order, as long as the clock
/// does not run backwards.
pub proof fn lemma_recorded_chronological(
    entries: Seq<Entry<KeyId>>,
    pressed: Seq<KeyId>,
    released: Seq<KeyId>,
    start: Duration,
    now: Duration,
)
    requires
        chronological(entries),
        can_record(entries, start, now),
    ensures
        chronological(recorded(entries, pressed, released, start, now)),
        can_record(recorded(entries, pressed, released, start, now), start, now),
{
    let after = recorded(entries, pressed, released, start, now);
    assert forall|i: int, j: int| 0 <= i <= j < after.len() implies (#[trigger] after[i]).offset
        <= (#[trigger] after[j]).offset by {
        if j < entries.len() {
            assert(entries[i].offset <= entries[j].offset);
        } else if i < entries.len() {
            assert(entries[i].offset <= entries[entries.len() - 1].offset);
        }
    }
}

/// Recording never touches the batches that are in the queue: they stay, in
/// their places, before the new one.
pub proof fn lemma_recorded_extends(
    entries: Seq<Entry<KeyId>>,
    pressed: Seq<KeyId>,
    released: Seq<KeyId>,
    start: Duration,
    now: Duration,
)
    ensures
        entries.len() <= recorded(entries, pressed, released, start, now).len() <= entries.len()
            + 1,
        recorded(entries, pressed, released, start, now).take(entries.len() as int) == entries,
{
    let after = recorded(entries, pressed, released, start, now);
    assert(after.take(entries.len() as int) =~= entries);
}

/// Leaving recording: the session stays as it is, complete and ready to be
/// stored.
pub fn stop_recording() {
}

} // verus!
