//! Backups of what is about to be overwritten.

use crate::journal::mirror_backup_path;
use crate::journal::probe::mirror;
use crate::text::opt_view;
use vstd::prelude::*;

verus! {

/// Errors of backups.
#[derive(Debug, Clone, PartialEq, Eq)]
#[non_exhaustive]
pub enum BackupError {
    /// A copy, a listing or a removal failed.
    Filesystem {
        /// What went wrong.
        message: String,
    },
}

impl BackupError {
    /// The error in words.
    pub fn message(&self) -> (r: String)
        ensures
            r@ == "backup filesystem operation failed"@,
    {
        "backup filesystem operation failed".to_owned()
    }
}

/// Where what stands at `target` is copied before the run `timestamp` overwrites
/// it, or nothing if there is nothing to copy. Recovery looks for it at the same
/// place, and takes its absence to mean that the run made the target.
pub fn backup_before_overwrite(
    backups_dir: &str,
    timestamp: &str,
    target: &str,
    present: bool,
) -> (r: Option<String>)
    ensures
        opt_view(r) == if present {
            Some(mirror(backups_dir@, timestamp@, target@))
        } else {
            None
        },
{
    if present {
        Some(mirror_backup_path(backups_dir, timestamp, target))
    } else {
        None
    }
}

} // verus!
