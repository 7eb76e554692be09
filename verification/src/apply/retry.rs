//! When a failed write is tried again.
//!
//! On Windows a scanner, an indexer or a sync client may hold a file open for a
//! moment, and a write to it then fails as a sharing violation. Such a write is
//! tried again after a growing pause. Anything else, and everything on other
//! platforms, fails at once.

use crate::io_failure::IoFailure;
use vstd::prelude::*;

verus! {

/// The number that Windows gives for a sharing violation.
pub const ERROR_SHARING_VIOLATION: i32 = 32;

/// How often a write is tried again.
pub const RETRIES: usize = 6;

/// The pause before the try that comes after `failures` failed ones, in
/// milliseconds: 50 at first, and each one twice the one before.
pub open spec fn pause(failures: nat) -> nat
    decreases failures,
{
    if failures == 0 {
        50
    } else {
        2 * pause((failures - 1) as nat)
    }
}

/// Whether a write that failed with a number is tried again, after `failures`
/// earlier failures.
pub open spec fn retries(windows: bool, failures: nat, code: Option<i32>) -> bool {
    windows && code == Some(ERROR_SHARING_VIOLATION) && failures < RETRIES
}

/// The pause, in milliseconds, after which a write that failed is tried again, or
/// none if the failure stands. `failures` counts the earlier failures of this
/// write.
pub fn retry_delay(windows: bool, failures: usize, failure: &IoFailure) -> (r: Option<u64>)
    ensures
        r == if retries(windows, failures as nat, failure.os_code) {
            Some(pause(failures as nat) as u64)
        } else {
            None
        },
{
    if !windows || !failure.has_code(ERROR_SHARING_VIOLATION) || failures >= RETRIES {
        return None;
    }
    proof {
        reveal_with_fuel(pause, 7);
    }
    match failures {
        0 => Some(50),
        1 => Some(100),
        2 => Some(200),
        3 => Some(400),
        4 => Some(800),
        _ => Some(1600),
    }
}

/// All pauses before the try that comes after `failures` failed ones, in
/// milliseconds.
pub open spec fn total_pause(failures: nat) -> nat
    decreases failures,
{
    if failures == 0 {
        0
    } else {
        total_pause((failures - 1) as nat) + pause((failures - 1) as nat)
    }
}

/// A write is never held up for more than 3150 milliseconds, and its seventh
/// failure stands whatever it is.
pub proof fn patience_is_bounded(windows: bool, failures: nat, code: Option<i32>)
    ensures
        retries(windows, failures, code) ==> total_pause(failures + 1) <= 3150,
        failures >= 6 ==> !retries(windows, failures, code),
{
    reveal_with_fuel(pause, 7);
    reveal_with_fuel(total_pause, 8);
}

/// Off Windows no write is tried twice.
pub proof fn other_platforms_try_once(failures: nat, code: Option<i32>)
    ensures
        !retries(false, failures, code),
{
}

} // verus!
