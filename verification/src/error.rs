//! The error kinds that filesystem operations report.

use vstd::prelude::*;

verus! {

/// The logical failure kinds of the filesystem.
///
/// Every operation either fully completes its stated effect or returns one
/// of these and leaves the filesystem unchanged.
#[derive(Clone, Copy, PartialEq, Eq, Structural, Debug)]
pub enum FsError {
    /// A path component or a final name was not found.
    NotFound,
    /// The final name of a creating operation is already taken.
    AlreadyExists,
    /// A path component, or the target of a directory operation, is a file.
    NotADirectory,
    /// The target of a file operation is a directory.
    IsADirectory,
    /// A directory to be removed still has children.
    NotEmpty,
    /// The operation is forbidden for the node kind, e.g. hard-linking a
    /// directory.
    PermissionDenied,
    /// A capability handed in does not belong to this capability kind.
    NotCapable,
    /// An operation spans two distinct filesystem instances.
    NotSupported,
    /// An access-mode or append-mode violation on an open file handle.
    BadDescriptor,
    /// An arithmetic overflow in a size or position computation.
    Overflow,
    /// A declared but intentionally unimplemented placeholder operation.
    Unimplemented,
}

} // verus!
