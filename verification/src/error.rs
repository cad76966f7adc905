//! The ways in which a note cannot be had.

use vstd::prelude::*;

verus! {

/// Why a note could not be resolved, read or updated.
#[derive(Clone, Copy, Debug, PartialEq, Eq, Structural)]
pub enum NoteError {
    /// A relative path was given without a vault directory.
    InvalidInput,
    /// Nothing stands where the note should be.
    NotFound,
    /// Something stands there, but its text could not be read.
    Io,
}

/// What a caller is told about an error.
pub open spec fn message_of(error: NoteError) -> Seq<char> {
    match error {
        NoteError::InvalidInput => "Vault directory must be provided with relative path"@,
        NoteError::NotFound => "Note file not found or invalid path provided"@,
        NoteError::Io => "Note file could not be read"@,
    }
}

impl NoteError {
    /// What a caller is told about the error.
    pub fn message(&self) -> (r: String)
        ensures
            r@ == message_of(*self),
    {
        match self {
            NoteError::InvalidInput => "Vault directory must be provided with relative path".to_owned(),
            NoteError::NotFound => "Note file not found or invalid path provided".to_owned(),
            NoteError::Io => "Note file could not be read".to_owned(),
        }
    }
}

} // verus!
