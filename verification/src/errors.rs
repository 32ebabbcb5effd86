//! Errors surfaced by the local storage side, and the conversion from the
//! index database's own error type.

use vstd::prelude::*;

verus! {

/// Declares redb::Error, the index database's error type, so that values
/// of it can be held and passed through; nothing inside it is relied on.
#[verifier::external_type_specification]
#[verifier::external_body]
pub struct ExRedbError(redb::Error);

/// Declares std::io::Error so that file-system faults can be held and
/// passed through; nothing inside it is relied on.
#[verifier::external_type_specification]
#[verifier::external_body]
pub struct ExIoError(std::io::Error);

/// An error from the local storage layer: the index database, the file
/// system, or a semantic refusal.
#[derive(Debug)]
pub enum StorageError {
    /// The index database failed; boxed to keep the value small.
    Database(Box<redb::Error>),
    /// The file system failed.
    Io(std::io::Error),
    /// The data cannot be served right now.
    Unavailable,
    /// The path is not there.
    NotFound,
    /// The path should name a directory and does not.
    NotADirectory,
    /// The path names a directory.
    IsADirectory,
    /// The rolling-checksum signature cannot be read.
    InvalidRsyncSignature,
}

/// Relies on redb::Error: its `Io` variant carries the underlying
/// `std::io::Error`; this splits that variant off, moving fields only.
#[verifier::external_body]
fn split_redb_error(e: redb::Error) -> (r: Result<std::io::Error, Box<redb::Error>>) {
    match e {
        redb::Error::Io(err) => Ok(err),
        other => Err(Box::new(other)),
    }
}

impl StorageError {
    /// Fold an index database error in: an I/O fault surfaces as `Io`,
    /// anything else as `Database`.
    pub fn from_redb(err: redb::Error) -> (r: StorageError)
        ensures
            r is Io || r is Database,
    {
        match split_redb_error(err) {
            Ok(io) => StorageError::Io(io),
            Err(boxed) => StorageError::Database(boxed),
        }
    }
}

} // verus!
