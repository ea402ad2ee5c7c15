//! Recording and replaying keyboard input sessions.
//!
//! A recording is a queue of timestamped batches of key presses and releases.
//! While recording, each tick that saw a key change appends one batch; while
//! playing, each tick applies at most one batch whose time has come to the
//! live input state. A session is stored as a compact binary file image.

pub mod clock;
pub mod codec;
pub mod engine;
pub mod keyboard;
pub mod mode;
pub mod play;
pub mod record;
pub mod session;
pub mod storable;
pub mod wire;
