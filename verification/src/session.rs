//! The recorded data: key transitions, timestamped batches of them, and the
//! queue of batches that makes a session.

use crate::clock::nanos_of;
use crate::keyboard::{
    enumerates, just_pressed_keys, just_pressed_list, just_released_keys, just_released_list,
    KeyId,
};
use bevy::input::ButtonInput;
use std::collections::VecDeque;
use std::hash::Hash;
use std::time::Duration;
use vstd::prelude::*;

verus! {

/// One key transition: the key went down, or it went up.
#[derive(Debug, PartialEq, Eq)]
pub enum ButtonEvent<T> {
    Press(T),
    Release(T),
}

/// What a batch of transitions is, mathematically: how long after the start
/// of the run it happened, in nanoseconds, and the transitions in order.
pub struct Entry<T> {
    pub offset: nat,
    pub events: Seq<ButtonEvent<T>>,
}

/// The presses of `keys`, in order.
pub open spec fn presses<T>(keys: Seq<T>) -> Seq<ButtonEvent<T>> {
    keys.map_values(|key: T| ButtonEvent::Press(key))
}

/// The releases of `keys`, in order.
pub open spec fn releases<T>(keys: Seq<T>) -> Seq<ButtonEvent<T>> {
    keys.map_values(|key: T| ButtonEvent::Release(key))
}

/// The transitions of one tick: every press, then every release.
pub open spec fn transitions<T>(pressed: Seq<T>, released: Seq<T>) -> Seq<ButtonEvent<T>> {
    presses(pressed) + releases(released)
}

/// Whether `added` is what one tick of `input` records: a press of every
/// just-pressed key, each once, then a release of every just-released key,
/// each once. The order within the presses and within the releases is the
/// host's.
pub open spec fn snapshot_of(added: Seq<ButtonEvent<KeyId>>, input: ButtonInput<KeyId>) -> bool {
    exists|pressed: Seq<KeyId>, released: Seq<KeyId>|
        #![trigger transitions(pressed, released)]
        enumerates(pressed, just_pressed_keys(input)) && enumerates(
            released,
            just_released_keys(input),
        ) && added == transitions(pressed, released)
}

/// The transitions of a run of batches, one batch after another.
pub open spec fn all_events<T>(entries: Seq<Entry<T>>) -> Seq<ButtonEvent<T>>
    decreases entries.len(),
{
    if entries.len() == 0 {
        Seq::empty()
    } else {
        all_events(entries.drop_last()) + entries.last().events
    }
}

/// Whether the offsets of `entries` never decrease.
pub open spec fn chronological<T>(entries: Seq<Entry<T>>) -> bool {
    forall|i: int, j: int|
        0 <= i <= j < entries.len() ==> (#[trigger] entries[i]).offset <= (
        #[trigger] entries[j]).offset
}

/// One timestamped batch of transitions.
#[derive(Debug, PartialEq, Eq)]
pub struct InputLog<T> where T: Copy + Eq + Hash + Send + Sync + 'static {
    timestamp: Duration,
    events: Vec<ButtonEvent<T>>,
}

impl<T> View for InputLog<T> where T: Copy + Eq + Hash + Send + Sync + 'static {
    type V = Entry<T>;

    closed spec fn view(&self) -> Entry<T> {
        Entry { offset: nanos_of(self.timestamp), events: self.events@ }
    }
}

impl<T> InputLog<T> where T: Copy + Eq + Hash + Send + Sync + 'static {
    /// An empty batch at the given offset.
    pub fn new(timestamp: Duration) -> (log: Self)
        ensures
            log@.offset == nanos_of(timestamp),
            log@.events == Seq::<ButtonEvent<T>>::empty(),
    {
        Self { timestamp, events: Vec::new() }
    }

    /// The offset of the batch.
    pub fn timestamp(&self) -> (timestamp: Duration)
        ensures
            nanos_of(timestamp) == self@.offset,
    {
        self.timestamp
    }

    /// The transitions of the batch, in order.
    pub fn events(&self) -> (events: &Vec<ButtonEvent<T>>)
        ensures
            events@ == self@.events,
    {
        &self.events
    }

    /// Appends one transition.
    pub fn push(&mut self, event: ButtonEvent<T>)
        ensures
            final(self)@.offset == old(self)@.offset,
            final(self)@.events == old(self)@.events.push(event),
    {
        self.events.push(event);
    }

    /// Appends a press of each key in `pressed`, then a release of each key
    /// in `released`.
    pub fn push_transitions(&mut self, pressed: &Vec<T>, released: &Vec<T>)
        ensures
            final(self)@.offset == old(self)@.offset,
            final(self)@.events == old(self)@.events + transitions(pressed@, released@),
    {
        let mut i: usize = 0;
        while i < pressed.len()
            invariant
                i <= pressed.len(),
                self.timestamp == old(self).timestamp,
                self.events@ == old(self).events@ + presses(pressed@.take(i as int)),
            decreases pressed.len() - i,
        {
            self.events.push(ButtonEvent::Press(pressed[i]));
            i += 1;
        }
        assert(pressed@.take(i as int) == pressed@);
        let mut j: usize = 0;
        while j < released.len()
            invariant
                j <= released.len(),
                self.timestamp == old(self).timestamp,
                self.events@ == old(self).events@ + presses(pressed@) + releases(
                    released@.take(j as int),
                ),
            decreases released.len() - j,
        {
            self.events.push(ButtonEvent::Release(released[j]));
            j += 1;
        }
        assert(released@.take(j as int) == released@);
    }
}

impl InputLog<KeyId> {
    /// Appends what the tick of `button_input` saw: a press of each
    /// just-pressed key, then a release of each just-released key.
    pub fn load_button_input_events(&mut self, button_input: ButtonInput<KeyId>)
        ensures
            final(self)@.offset == old(self)@.offset,
            exists|added: Seq<ButtonEvent<KeyId>>|
                #![trigger snapshot_of(added, button_input)]
                snapshot_of(added, button_input) && final(self)@.events == old(self)@.events
                    + added,
    {
        let pressed = just_pressed_list(&button_input);
        let released = just_released_list(&button_input);
        self.push_transitions(&pressed, &released);
        assert(snapshot_of(transitions(pressed@, released@), button_input));
    }
}

/// The queue of recorded batches, earliest first.
#[derive(Debug, PartialEq, Eq)]
pub struct Session {
    key_inputs: VecDeque<InputLog<KeyId>>,
}

impl View for Session {
    type V = Seq<Entry<KeyId>>;

    closed spec fn view(&self) -> Seq<Entry<KeyId>> {
        self.key_inputs@.map_values(|log: InputLog<KeyId>| log@)
    }
}

impl Session {
    /// The invariant of a session: its batches are in chronological order.
    pub open spec fn wf(&self) -> bool {
        chronological(self@)
    }

    /// An empty session.
    pub fn new() -> (session: Self)
        ensures
            session@ == Seq::<Entry<KeyId>>::empty(),
            session.wf(),
    {
        Session { key_inputs: VecDeque::new() }
    }

    /// Discards every batch.
    pub fn clear(&mut self)
        ensures
            final(self)@ == Seq::<Entry<KeyId>>::empty(),
            final(self).wf(),
    {
        self.key_inputs.clear();
    }

    /// Appends a batch. The caller sees to it that the batch is not earlier
    /// than the last one in the queue.
    pub fn push_back(&mut self, event: InputLog<KeyId>)
        requires
            old(self)@.len() > 0 ==> old(self)@.last().offset <= event@.offset,
        ensures
            final(self)@ == old(self)@.push(event@),
            old(self).wf() ==> final(self).wf(),
    {
        self.key_inputs.push_back(event);
        proof {
            if old(self).wf() {
                let before = old(self)@;
                let after = self@;
                assert forall|i: int, j: int| 0 <= i <= j < after.len() implies (
                #[trigger] after[i]).offset <= (#[trigger] after[j]).offset by {
                    if j < before.len() {
                        assert(before[i].offset <= before[j].offset);
                    } else if i < before.len() {
                        assert(before[i].offset <= before[before.len() - 1].offset);
                    }
                }
            }
        }
    }

    /// Removes and returns the earliest batch, if there is one.
    pub fn pop_front(&mut self) -> (popped: Option<InputLog<KeyId>>)
        ensures
            match popped {
                Some(log) => old(self)@.len() > 0 && log@ == old(self)@[0] && final(self)@ == old(
                    self,
                )@.skip(1),
                None => old(self)@.len() == 0 && final(self)@ == old(self)@,
            },
            old(self).wf() ==> final(self).wf(),
    {
        let popped = self.key_inputs.pop_front();
        proof {
            if old(self).wf() && popped is Some {
                let before = old(self)@;
                let after = self@;
                assert(after == before.skip(1));
                assert forall|i: int, j: int| 0 <= i <= j < after.len() implies (
                #[trigger] after[i]).offset <= (#[trigger] after[j]).offset by {
                    assert(before[i + 1].offset <= before[j + 1].offset);
                }
            }
        }
        popped
    }

    /// The earliest batch, if there is one.
    pub fn front(&self) -> (first: Option<&InputLog<KeyId>>)
        ensures
            match first {
                Some(log) => self@.len() > 0 && log@ == self@[0],
                None => self@.len() == 0,
            },
    {
        if self.key_inputs.len() > 0 {
            Some(&self.key_inputs[0])
        } else {
            None
        }
    }

    /// The latest batch, if there is one.
    pub fn back(&self) -> (last: Option<&InputLog<KeyId>>)
        ensures
            match last {
                Some(log) => self@.len() > 0 && log@ == self@.last(),
                None => self@.len() == 0,
            },
    {
        let len = self.key_inputs.len();
        if len > 0 {
            Some(&self.key_inputs[len - 1])
        } else {
            None
        }
    }

    /// The number of batches in the queue.
    pub fn len(&self) -> (len: usize)
        ensures
            len == self@.len(),
    {
        self.key_inputs.len()
    }

    /// The batch at position `index`, counted from the earliest.
    pub fn get(&self, index: usize) -> (log: &InputLog<KeyId>)
        requires
            index < self@.len(),
        ensures
            log@ == self@[index as int],
    {
        &self.key_inputs[index]
    }
}

impl Default for Session {
    fn default() -> (session: Self)
        ensures
            session@ == Seq::<Entry<KeyId>>::empty(),
            session.wf(),
    {
        Session::new()
    }
}

} // verus!
