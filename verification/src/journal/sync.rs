//! Flushing the journal to stable storage.
//!
//! A plan, the journal directory and a commit sentinel are each flushed once;
//! the progress cursor never is. Some platforms cannot flush a directory: there
//! the flush of the file has already made the name durable.

use crate::io_failure::IoFailure;
use crate::io_failure::IoKind;
use vstd::prelude::*;

verus! {

/// The number that Windows gives when a directory is opened as a file.
const ACCESS_DENIED_WINDOWS: i32 = 5;

/// Whether a failed flush of a directory only says that the platform cannot
/// flush directories.
pub open spec fn cannot_sync_directories(failure: IoFailure) -> bool {
    failure.kind is PermissionDenied || failure.kind is Unsupported || failure.os_code == Some(5i32)
}

/// Whether a failed flush of a directory only says that the platform cannot
/// flush directories, rather than that something went wrong.
pub fn is_unsupported_dir_sync(failure: &IoFailure) -> (r: bool)
    ensures
        r == cannot_sync_directories(*failure),
{
    match failure.kind {
        IoKind::PermissionDenied => true,
        IoKind::Unsupported => true,
        _ => failure.has_code(ACCESS_DENIED_WINDOWS),
    }
}

/// Flushes files and directories of the operating system.
#[derive(Debug, Clone, Copy, Default)]
pub struct OsSyncer;

impl OsSyncer {
    /// What a directory flush comes to: success, also where the platform cannot
    /// flush directories, and otherwise the failure.
    pub fn settle_dir(&self, outcome: Result<(), IoFailure>) -> (r: Result<(), IoFailure>)
        ensures
            outcome is Ok ==> r is Ok,
            outcome matches Err(e) ==> r == (if cannot_sync_directories(e) {
                Ok::<(), IoFailure>(())
            } else {
                Err::<(), IoFailure>(e)
            }),
    {
        match outcome {
            Ok(()) => Ok(()),
            Err(e) => {
                if is_unsupported_dir_sync(&e) {
                    Ok(())
                } else {
                    Err(e)
                }
            },
        }
    }
}

} // verus!
