//! Error taxonomy of the file-store engine.

use vstd::prelude::*;

verus! {

/// Outcome kinds for every engine operation.
///
/// `InvalidPath` and `InvalidArgument` reject malformed client input,
/// `NotFound` a missing file or directory, `AlreadyExists` a directory-create
/// collision, `FailedPrecondition` a type or emptiness mismatch (for example
/// deleting a non-empty directory without `recursive`), and `Internal` an
/// operating-system failure surfaced by the I/O layer.
#[derive(Clone, Copy, Debug, PartialEq, Eq, Structural)]
pub enum FsError {
    InvalidPath,
    InvalidArgument,
    NotFound,
    AlreadyExists,
    FailedPrecondition,
    Internal,
}

} // verus!
