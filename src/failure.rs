//! What went wrong when the caller tried to read the filesystem.
use vstd::prelude::*;

verus! {

/// The kind of a failed read, as the caller observed it.
#[derive(Clone, Debug, PartialEq, Eq)]
pub enum IoFailure {
    /// The path does not exist (any more).
    NotFound,
    /// The path exists but may not be read by this process.
    PermissionDenied,
    /// Any other failure, with its description.
    Other(String),
}

} // verus!
