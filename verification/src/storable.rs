//! Storing a session under a file name.
//!
//! Reading and writing files is the host's business. This module fixes what
//! the host is asked for and which errors it reports; the bytes themselves
//! are the codec's.

use crate::codec::{DecodeError, EncodeError};
use vstd::prelude::*;

verus! {

/// Why the file system refused.
#[derive(Debug, Clone, Copy, PartialEq, Eq, Structural)]
pub enum IoError {
    /// There is no such file.
    NotFound,
    /// The file or a directory on the way may not be read or written.
    PermissionDenied,
    /// Anything else, a directory that could not be created included.
    Other,
}

/// Why a session could not be stored or loaded.
#[derive(Debug, Clone, Copy, PartialEq, Eq, Structural)]
pub enum StoreError {
    /// The file could not be read or written.
    Io(IoError),
    /// The file was read, and does not hold a session.
    Decode(DecodeError),
    /// The session does not fit the format.
    Encode(EncodeError),
}

/// Something that can be written to a file and read back from one.
pub trait Storable {
    /// Writes `self` to the file `filename`, creating the directories on the
    /// way and replacing what was there.
    fn save(&self, filename: &str) -> Result<(), StoreError>;

    /// Replaces `self` by what the file `filename` holds. On an error `self`
    /// stays as it was.
    fn load(&mut self, filename: &str) -> Result<(), StoreError>;
}

} // verus!
