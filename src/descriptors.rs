//! Counting the descriptors a process holds open.
use vstd::prelude::*;
use crate::failure::IoFailure;

verus! {

/// Why a process's descriptors could not be counted.
#[derive(Clone, Debug, PartialEq, Eq)]
pub enum CountError {
    /// The process exited: its directory is gone. Resolving again may help.
    Vanished(u32),
    /// The process exists, but its descriptor directory may not be read.
    AccessDenied(u32),
    /// Any other failure, with the identifier and the failure's description.
    Io(u32, String),
}

/// The error that a failed read of the descriptor directory of `pid` means.
pub open spec fn count_error_of(pid: u32, failure: IoFailure) -> CountError {
    match failure {
        IoFailure::NotFound => CountError::Vanished(pid),
        IoFailure::PermissionDenied => CountError::AccessDenied(pid),
        IoFailure::Other(cause) => CountError::Io(pid, cause),
    }
}

/// Counts the descriptors of process `pid` from a listing of its descriptor
/// directory: one per entry, whatever the entry names. A failed listing is
/// told apart as a vanished process, a denied access or another failure.
pub fn count_descriptors(pid: u32, listing: Result<Vec<Vec<u8>>, IoFailure>) -> (r: Result<
    usize,
    CountError,
>)
    ensures
        match listing {
            Ok(entries) => r == Ok::<usize, CountError>(entries.len()),
            Err(failure) => r == Err::<usize, CountError>(count_error_of(pid, failure)),
        },
{
    match listing {
        Ok(entries) => Ok(entries.len()),
        Err(IoFailure::NotFound) => Err(CountError::Vanished(pid)),
        Err(IoFailure::PermissionDenied) => Err(CountError::AccessDenied(pid)),
        Err(IoFailure::Other(cause)) => Err(CountError::Io(pid, cause)),
    }
}

} // verus!
