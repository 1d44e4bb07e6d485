//! The error taxonomy and the engine capability.

use vstd::prelude::*;

verus! {

/// The single error kind carried by every fallible operation of the store,
/// the wire layer and the server.
///
/// The variants are kinds, not messages. The verified store itself only ever
/// produces `Codec` (a malformed log), `KeyNotFound`, and the three
/// path-validation kinds; the remaining kinds exist for the unverified shell
/// around the library: `Io` for failed reads and writes, `InvalidAddress` for
/// a malformed `IP:PORT` string, `EngineBackend` for a failure reported by an
/// alternative engine, and `Lock` for a poisoned shared state.
#[derive(Debug, Clone, Copy, PartialEq, Eq, Structural)]
pub enum KvError {
    /// An underlying read or write failed.
    Io,
    /// A record or frame could not be decoded.
    Codec,
    /// `remove` was asked for a key that is not present.
    KeyNotFound,
    /// The storage path exists and is a regular file, not a directory.
    DirPathExpected,
    /// The storage directory holds more entries than the single log file.
    UnexpectedFilesInPath,
    /// The storage directory holds a single file that is not the log file.
    UnexpectedLogFile,
    /// An address string could not be parsed.
    InvalidAddress,
    /// An alternative engine backend reported a failure.
    EngineBackend,
    /// The shared state is unavailable because a holder panicked.
    Lock,
}

/// The message each kind renders to.
pub open spec fn spec_message(e: KvError) -> Seq<char> {
    match e {
        KvError::Io => "IO failure"@,
        KvError::Codec => "malformed record"@,
        KvError::KeyNotFound => "Key not found"@,
        KvError::DirPathExpected => "path is a file, expected a directory"@,
        KvError::UnexpectedFilesInPath => "directory contains unexpected files"@,
        KvError::UnexpectedLogFile => "directory contains an unexpected log file"@,
        KvError::InvalidAddress => "invalid address"@,
        KvError::EngineBackend => "engine backend failure"@,
        KvError::Lock => "shared state unavailable"@,
    }
}

impl KvError {
    /// A human-readable rendering of the kind, for callers that display
    /// errors.
    pub fn message(&self) -> (m: String)
        ensures
            m@ == spec_message(*self),
    {
        match self {
            KvError::Io => String::from_str("IO failure"),
            KvError::Codec => String::from_str("malformed record"),
            KvError::KeyNotFound => String::from_str("Key not found"),
            KvError::DirPathExpected => String::from_str("path is a file, expected a directory"),
            KvError::UnexpectedFilesInPath => String::from_str("directory contains unexpected files"),
            KvError::UnexpectedLogFile => String::from_str("directory contains an unexpected log file"),
            KvError::InvalidAddress => String::from_str("invalid address"),
            KvError::EngineBackend => String::from_str("engine backend failure"),
            KvError::Lock => String::from_str("shared state unavailable"),
        }
    }
}

/// The storage capability: what a server needs from an engine.
///
/// An engine is shared by cloning handles; every clone operates on the same
/// underlying store. `set` durably records an assignment, `get` returns the
/// most recent value for a key or `None`, and `remove` deletes a present key
/// and reports `KeyNotFound` for an absent one. The trait carries no
/// contracts of its own: each implementation states what it guarantees.
pub trait KvsEngine: Sized + Clone + Send + 'static {
    /// Set the value of a string key to a string.
    fn set(&self, key: String, value: String) -> Result<(), KvError>;

    /// Get the string value of a string key, or `None` if it is absent.
    fn get(&self, key: String) -> Result<Option<String>, KvError>;

    /// Remove a given string key; err with `KeyNotFound` if it is absent.
    fn remove(&self, key: String) -> Result<(), KvError>;
}

} // verus!
