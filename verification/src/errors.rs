//! Typed failures surfaced by the notebook core and its stores.
//!
//! The core itself never performs I/O; the `Io` kind exists so that a
//! storage backend implementing the store traits can report its
//! failures through the same type.
use vstd::prelude::*;

verus! {

/// Why a notebook operation failed.
#[derive(Debug)]
pub enum NotebookError {
    /// An I/O failure from the storage backend (directory creation,
    /// file read or write).
    Io(std::io::Error),
    /// The search pattern is not a valid regular expression; carries the
    /// regex engine's own error value.
    Pattern(regex::Error),
    /// Stored notebook data is corrupt or foreign and did not parse.
    Corrupt,
}

#[verifier::external_type_specification]
#[verifier::external_body]
pub struct ExRegexError(regex::Error);

#[verifier::external_type_specification]
#[verifier::external_body]
pub struct ExIoError(std::io::Error);

} // verus!
