//! Common error trait and kind for all implementations of the store
use vstd::prelude::*;

use crate::file::FileId;

verus! {

/// The generic kind of a TBF error. This abstracts the most common error possibilities for
/// implementations. Some implementations may never produce errors with a specific kind, so if
/// you know the implementation, it's better to work with its error directly.
#[derive(Debug, Clone, Copy, PartialEq, Eq, Structural)]
#[non_exhaustive]
pub enum ErrorKind {
    /// Error was for a file ID that doesn't exist
    FileNotFound(FileId),
    /// Error was caused by an error of the underlying storage
    Source,
    /// Error was due to an invalid state in the filesystem
    State,
    /// Error was caused by something else
    Other,
}

/// A common trait for all tag-based filesystem errors
pub trait Error: Sized {
    /// The kind this error falls under.
    spec fn kind(&self) -> ErrorKind;

    /// Create an instance of this error for a file that wasn't found
    fn file_not_found(id: FileId) -> (r: Self)
        ensures
            r.kind() == ErrorKind::FileNotFound(id),
    ;

    /// Get the generic kind of this error
    fn generic_kind(&self) -> (r: ErrorKind)
        ensures
            r == self.kind(),
    ;
}

} // verus!
