//! The live key state of the host: bevy's `ButtonInput`, keyed by key
//! identifiers.
//!
//! The verifier does not read bevy. What the engine needs of a `ButtonInput`
//! is named here as three sets of keys, and each method that the engine calls
//! has one wrapper whose contract says what the method does to those sets.
//! These contracts are believed, not proved.

use bevy::input::ButtonInput;
use std::hash::Hash;
use vstd::prelude::*;

verus! {

/// A stable small integer that identifies one physical key.
pub type KeyId = u32;

/// bevy's `ButtonInput`, taken as it is: the verifier sees nothing inside it.
#[verifier::external_type_specification]
#[verifier::external_body]
#[verifier::reject_recursive_types(T)]
pub struct ExButtonInput<T: Copy + Eq + Hash + Send + Sync + 'static>(ButtonInput<T>);

/// The keys that are held down.
pub uninterp spec fn held_keys(input: ButtonInput<KeyId>) -> Set<KeyId>;

/// The keys that went down since the state was last cleared.
pub uninterp spec fn just_pressed_keys(input: ButtonInput<KeyId>) -> Set<KeyId>;

/// The keys that went up since the state was last cleared.
pub uninterp spec fn just_released_keys(input: ButtonInput<KeyId>) -> Set<KeyId>;

/// The key state as three plain sets.
pub struct KeyState {
    pub held: Set<KeyId>,
    pub just_pressed: Set<KeyId>,
    pub just_released: Set<KeyId>,
}

impl KeyState {
    /// The state after a press of `key`: the key is held, and it counts as
    /// just pressed unless it was held already.
    pub open spec fn press(self, key: KeyId) -> KeyState {
        KeyState {
            held: self.held.insert(key),
            just_pressed: if self.held.contains(key) {
                self.just_pressed
            } else {
                self.just_pressed.insert(key)
            },
            just_released: self.just_released,
        }
    }

    /// The state after a release of `key`: the key is up, and it counts as
    /// just released if it was held.
    pub open spec fn release(self, key: KeyId) -> KeyState {
        KeyState {
            held: self.held.remove(key),
            just_pressed: self.just_pressed,
            just_released: if self.held.contains(key) {
                self.just_released.insert(key)
            } else {
                self.just_released
            },
        }
    }
}

/// The three sets of a `ButtonInput`.
pub open spec fn key_state(input: ButtonInput<KeyId>) -> KeyState {
    KeyState {
        held: held_keys(input),
        just_pressed: just_pressed_keys(input),
        just_released: just_released_keys(input),
    }
}

/// Whether `keys` lists every member of `set` exactly once.
pub open spec fn enumerates(keys: Seq<KeyId>, set: Set<KeyId>) -> bool {
    keys.no_duplicates() && keys.to_set() == set
}

/// Calls `ButtonInput::press`, which inserts the key into the held set and,
/// if it was not there before, into the just-pressed set.
#[verifier::external_body]
pub(crate) fn press_key(input: &mut ButtonInput<KeyId>, key: KeyId)
    ensures
        held_keys(*final(input)) == held_keys(*old(input)).insert(key),
        just_pressed_keys(*final(input)) == if held_keys(*old(input)).contains(key) {
            just_pressed_keys(*old(input))
        } else {
            just_pressed_keys(*old(input)).insert(key)
        },
        just_released_keys(*final(input)) == just_released_keys(*old(input)),
{
    input.press(key)
}

/// Calls `ButtonInput::release`, which removes the key from the held set and,
/// if it was there, inserts it into the just-released set.
#[verifier::external_body]
pub(crate) fn release_key(input: &mut ButtonInput<KeyId>, key: KeyId)
    ensures
        held_keys(*final(input)) == held_keys(*old(input)).remove(key),
        just_pressed_keys(*final(input)) == just_pressed_keys(*old(input)),
        just_released_keys(*final(input)) == if held_keys(*old(input)).contains(key) {
            just_released_keys(*old(input)).insert(key)
        } else {
            just_released_keys(*old(input))
        },
{
    input.release(key)
}

/// Collects what `ButtonInput::get_just_pressed` yields: every just-pressed
/// key once, in the arbitrary order in which the underlying hash set is
/// walked.
#[verifier::external_body]
pub(crate) fn just_pressed_list(input: &ButtonInput<KeyId>) -> (keys: Vec<KeyId>)
    ensures
        keys@.no_duplicates(),
        keys@.to_set() == just_pressed_keys(*input),
{
    input.get_just_pressed().copied().collect()
}

/// Collects what `ButtonInput::get_just_released` yields: every just-released
/// key once, in the arbitrary order in which the underlying hash set is
/// walked.
#[verifier::external_body]
pub(crate) fn just_released_list(input: &ButtonInput<KeyId>) -> (keys: Vec<KeyId>)
    ensures
        keys@.no_duplicates(),
        keys@.to_set() == just_released_keys(*input),
{
    input.get_just_released().copied().collect()
}

} // verus!
