//! The errors of the store.

use vstd::prelude::*;

verus! {

/// `sled::Error`, carried through to the caller as it came.
#[verifier::external_type_specification]
#[verifier::external_body]
pub struct ExSledError(sled::Error);

/// Why an operation of the store failed.
#[derive(Debug, PartialEq, Eq)]
pub enum KvsError {
    /// The file system or the socket failed; the text says how.
    Io(String),
    /// A record of the log did not decode, or was of a kind that a log never
    /// holds, or a stored value was not UTF-8.
    Corruption,
    /// `remove` of a key that has no value.
    KeyNotFound,
    /// A request or a response was malformed.
    Protocol,
    /// One engine was asked for, and the directory holds the state of the
    /// other.
    EngineMismatch,
    /// The name given is no engine's name.
    InvalidEngineType,
    /// The log cannot grow by another record: its length would no longer fit
    /// the position counter.
    LogTooLarge,
    /// The embedded store failed.
    Sled(sled::Error),
}

} // verus!
