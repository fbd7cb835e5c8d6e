//! The closed set of store errors.
use vstd::prelude::*;

verus! {

/// The kind of a store error, for contracts.
#[derive(PartialEq, Eq, Structural, Clone, Copy, Debug)]
pub enum ErrorKind {
    NotFound,
    Corrupt,
    Io,
}

/// A failed store operation.
#[derive(Clone, Debug)]
pub enum StoreError {
    /// No entry holds the hash: a plain miss, not damage.
    NotFound,
    /// The index and the pack disagree, or the bytes do not hash to their key.
    Corrupt(String),
    /// The storage medium failed, or cannot hold what was asked of it.
    Io(String),
}

impl StoreError {
    pub open spec fn kind(&self) -> ErrorKind {
        match self {
            StoreError::NotFound => ErrorKind::NotFound,
            StoreError::Corrupt(_) => ErrorKind::Corrupt,
            StoreError::Io(_) => ErrorKind::Io,
        }
    }
}

} // verus!
