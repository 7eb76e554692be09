//! Waiting for the lock, and trying a write again.

use crate::apply::retry::pause;
use crate::apply::retry::retry_delay;
use crate::io_failure::IoFailure;
use crate::lock::LockAttempt;
use crate::lock::LockError;
use crate::lock::LockKind;
use crate::lock::LockStep;
use crate::lock::acquire_step;
use crate::lock::attempt_of;
use crate::lock::exclusive_timeout;
use crate::lock::has_contended_code;
use crate::lock::try_acquire_step;
use crate::number::decimal;
use crate::number::decimal_reads_back;
use crate::number::is_digit;
use vstd::prelude::*;

verus! {

/// A run that is granted the lock has it. One that finds it held waits until its time is
/// over, and then says how long it was ready to wait. Any other failure ends the wait.
pub proof fn waits_end_with_the_lock_or_in_time(
    path: &str,
    kind: LockKind,
    timeout: u64,
    elapsed: u128,
    attempt: LockAttempt,
    r: LockStep,
)
    requires
        call_ensures(acquire_step, (path, kind, timeout, elapsed, &attempt), r),
    ensures
        r is Held <==> attempt is Granted,
        r is Wait <==> attempt is Contended && elapsed < timeout * 1000000,
        r matches LockStep::Wait { nanos } ==> 0 < nanos <= 25000000 && elapsed + nanos <= timeout
            * 1000000,
        attempt is Contended && elapsed >= timeout * 1000000 ==> (r matches LockStep::GiveUp {
            error: LockError::Timeout { kind: k, path: p, waited },
        } && k == kind && p@ == path@ && waited == timeout),
        attempt is Failed ==> (r matches LockStep::GiveUp { error: LockError::Io { path: p, message } }
            && p@ == path@ && message@ == attempt->message@),
{
}

/// A pause is 25 milliseconds, or what is left of the time if that is less.
pub proof fn pauses_are_even(
    path: &str,
    kind: LockKind,
    timeout: u64,
    elapsed: u128,
    attempt: LockAttempt,
    nanos: u64,
)
    requires
        call_ensures(
            acquire_step,
            (path, kind, timeout, elapsed, &attempt),
            (LockStep::Wait { nanos }),
        ),
    ensures
        elapsed + 25000000 <= timeout * 1000000 ==> nanos == 25000000,
        elapsed + 25000000 > timeout * 1000000 ==> elapsed + nanos == timeout * 1000000,
{
}

/// A run that does not wait has the lock or is told at once that it is held.
pub proof fn single_tries_are_answered_at_once(
    path: &str,
    kind: LockKind,
    attempt: LockAttempt,
    r: Result<(), LockError>,
)
    requires
        call_ensures(try_acquire_step, (path, kind, &attempt), r),
    ensures
        r is Ok <==> attempt is Granted,
        attempt is Contended ==> (r matches Err(LockError::Contended { kind: k, path: p }) && k
            == kind && p@ == path@),
        attempt is Failed ==> (r matches Err(LockError::Io { path: p, message }) && p@ == path@
            && message@ == attempt->message@),
{
}

/// A failure means that the lock is held exactly where it has the number for that.
pub proof fn held_locks_are_told_by_their_number(
    failure: IoFailure,
    code: Option<i32>,
    contended: bool,
    attempt: LockAttempt,
)
    requires
        call_ensures(has_contended_code, (&failure, code), contended),
        call_ensures(attempt_of, (failure, contended), attempt),
    ensures
        attempt is Contended <==> failure.os_code == code,
        failure.os_code != code ==> attempt is Failed && attempt->message@ == failure.message@,
{
}

/// A run that changes anything waits for a minute, or for as many milliseconds as the
/// environment says in digits.
pub proof fn patience_is_a_minute_or_as_given(raw: Option<String>, ms: u64, given: u64)
    requires
        call_ensures(exclusive_timeout, (&raw,), ms),
    ensures
        raw is None ==> ms == 60000,
        raw is Some && raw->0@ == decimal(given as nat) ==> ms == given,
        raw is Some && raw->0@.len() == 0 ==> ms == 60000,
        raw is Some && raw->0@.len() > 0 && !('0' as int <= raw->0@.last() as int <= '9' as int)
            ==> ms == 60000,
{
    decimal_reads_back(given as nat);
    if let Some(text) = raw {
        let t = text@;
        if t == decimal(given as nat) {
            assert(is_digit(t[0]));
            assert(t[0] != '+');
        }
        if t.len() > 0 && !('0' as int <= t.last() as int <= '9' as int) {
            let digits = if t[0] == '+' {
                t.skip(1)
            } else {
                t
            };
            if digits.len() > 0 {
                assert(digits[digits.len() - 1] == t.last());
            }
        }
    }
}

/// A write is tried again exactly where another program held the file on Windows, at most
/// six times, first after 50 milliseconds and then after twice as long each time.
pub proof fn held_files_are_tried_again(
    windows: bool,
    failures: usize,
    failure: IoFailure,
    r: Option<u64>,
    next: Option<u64>,
)
    requires
        call_ensures(retry_delay, (windows, failures, &failure), r),
        failures < usize::MAX,
        call_ensures(retry_delay, (windows, (failures + 1) as usize, &failure), next),
    ensures
        r is Some <==> windows && failure.os_code == Some(32i32) && failures < 6,
        r is Some && failures == 0 ==> r == Some(50u64),
        next is Some ==> r is Some && next->0 == 2 * r->0,
{
    reveal_with_fuel(pause, 7);
}

} // verus!
