//! The lock that keeps runs apart.
//!
//! A run that changes anything holds the lock file exclusively; one that only
//! reads shares it with others of its kind. The operating system releases the
//! lock when the file is closed, so that a run that dies does not keep it. A
//! waiting run asks again and again, with short pauses, and gives up when its
//! time is over.

use crate::io_failure::IoFailure;
use crate::number::all_digits;
use crate::number::digits_value;
use crate::number::only_digits;
use crate::number::parse_digits;
use crate::text::around;
use crate::text::chars_of;
use crate::text::joined;
use crate::text::opt_view;
use crate::text::put_around;
use vstd::prelude::*;

verus! {

/// How long a run that changes anything waits for the lock, in milliseconds.
pub const EXCLUSIVE_TIMEOUT: u64 = 60000;

/// How long a run that only reads waits for the lock, in milliseconds.
pub const SHARED_TIMEOUT: u64 = 5000;

/// The environment variable that overrides [`EXCLUSIVE_TIMEOUT`].
pub const EXCLUSIVE_TIMEOUT_ENV: &'static str = "PATINA_LOCK_TIMEOUT_MS";

/// The pause between two tries, in nanoseconds.
pub const POLL_INTERVAL: u64 = 25000000;

/// The number that a text reads as: decimal digits, behind a `+` or not.
pub open spec fn unsigned_value(text: Seq<char>) -> Option<int> {
    let digits = if text.len() > 0 && text[0] == '+' {
        text.skip(1)
    } else {
        text
    };
    if digits.len() > 0 && all_digits(digits) && digits_value(digits) <= u64::MAX {
        Some(digits_value(digits))
    } else {
        None
    }
}

/// The number that `text` reads as.
pub fn parse_unsigned(text: &str) -> (r: Option<u64>)
    ensures
        match unsigned_value(text@) {
            Some(n) => r matches Some(m) && m == n,
            None => r is None,
        },
{
    let mut digits: Vec<char> = chars_of(text);
    if digits.len() > 0 && digits[0] == '+' {
        digits.remove(0);
        assert(digits@ =~= text@.skip(1));
    }
    if digits.len() == 0 || !only_digits(&digits) {
        return None;
    }
    parse_digits(&digits)
}

/// How long a run that changes anything waits, by the text of the variable that
/// overrides it.
pub open spec fn exclusive_wait(raw: Option<Seq<char>>) -> int {
    match raw {
        Some(text) => match unsigned_value(text) {
            Some(ms) => ms,
            None => EXCLUSIVE_TIMEOUT as int,
        },
        None => EXCLUSIVE_TIMEOUT as int,
    }
}

/// How long a run that changes anything waits, in milliseconds. `raw` is the text
/// of [`EXCLUSIVE_TIMEOUT_ENV`], if it is set. A text that is no number changes
/// nothing.
pub fn exclusive_timeout(raw: &Option<String>) -> (ms: u64)
    ensures
        ms == exclusive_wait(opt_view(*raw)),
{
    match raw {
        Some(text) => match parse_unsigned(text.as_str()) {
            Some(ms) => ms,
            None => EXCLUSIVE_TIMEOUT,
        },
        None => EXCLUSIVE_TIMEOUT,
    }
}

/// How the lock is held.
#[derive(Debug, Clone, Copy, PartialEq, Eq, Structural)]
pub enum LockKind {
    /// By one run alone.
    Exclusive,
    /// By any number of runs that only read.
    Shared,
}

impl LockKind {
    /// The word for the kind.
    pub open spec fn word(self) -> Seq<char> {
        match self {
            LockKind::Exclusive => "exclusive"@,
            LockKind::Shared => "shared"@,
        }
    }

    /// The word for the kind.
    #[must_use]
    pub fn label(self) -> (r: &'static str)
        ensures
            r@ == self.word(),
    {
        match self {
            LockKind::Exclusive => "exclusive",
            LockKind::Shared => "shared",
        }
    }
}

/// How a number of milliseconds is spelled as a duration.
pub uninterp spec fn duration_words(ms: u64) -> Seq<char>;

/// The duration of `ms` milliseconds as `Debug` for `std::time::Duration` spells
/// it. The contract only gives the spelling a name.
#[verifier::external_body]
fn spell_duration(ms: u64) -> (text: String)
    ensures
        text@ == duration_words(ms),
{
    format!("{:?}", std::time::Duration::from_millis(ms))
}

/// Errors of the lock.
#[derive(Debug, Clone, PartialEq, Eq)]
#[non_exhaustive]
pub enum LockError {
    /// Others held the lock for the whole time.
    Timeout {
        /// How the lock was to be held.
        kind: LockKind,
        /// The lock file.
        path: String,
        /// How long the run was ready to wait, in milliseconds.
        waited: u64,
    },
    /// The lock was held, and the run does not wait.
    Contended {
        /// How the lock was to be held.
        kind: LockKind,
        /// The lock file.
        path: String,
    },
    /// The lock file could not be opened or locked.
    Io {
        /// The lock file.
        path: String,
        /// What went wrong.
        message: String,
    },
}

/// An error with its texts as sequences of characters.
#[verifier::ext_equal]
pub ghost enum LockFault {
    /// Others held the lock for the whole time.
    Timeout {
        /// How the lock was to be held.
        kind: LockKind,
        /// The lock file.
        path: Seq<char>,
        /// How long the run was ready to wait, in milliseconds.
        waited: u64,
    },
    /// The lock was held, and the run does not wait.
    Contended {
        /// How the lock was to be held.
        kind: LockKind,
        /// The lock file.
        path: Seq<char>,
    },
    /// The lock file could not be opened or locked.
    Io {
        /// The lock file.
        path: Seq<char>,
        /// What went wrong.
        message: Seq<char>,
    },
}

impl View for LockError {
    type V = LockFault;

    open spec fn view(&self) -> LockFault {
        match *self {
            LockError::Timeout { kind, path, waited } => LockFault::Timeout {
                kind,
                path: path@,
                waited,
            },
            LockError::Contended { kind, path } => LockFault::Contended { kind, path: path@ },
            LockError::Io { path, message } => LockFault::Io { path: path@, message: message@ },
        }
    }
}

impl LockFault {
    /// The error in words. `spelled` is the spelling of the time that a run waited.
    pub open spec fn words(self, spelled: Seq<char>) -> Seq<char> {
        match self {
            LockFault::Timeout { kind, path, waited } => around(
                "timed out acquiring "@,
                kind.word(),
                around(" lock on `"@, path, "` after "@) + spelled,
            ),
            LockFault::Contended { kind, path } => kind.word() + around(
                " lock on `"@,
                path,
                "` is held by another holder"@,
            ),
            LockFault::Io { path, message } => around(
                "failed to acquire lock on `"@,
                path,
                "`: "@,
            ) + message,
        }
    }

    /// The time that a run waited, and none for the errors that have no such time.
    pub open spec fn waited_ms(self) -> u64 {
        match self {
            LockFault::Timeout { kind, path, waited } => waited,
            _ => 0,
        }
    }
}

impl LockError {
    /// The error in words. `spelled` is the spelling of the time that the run
    /// waited.
    pub fn message_with(&self, spelled: &str) -> (r: String)
        ensures
            r@ == self@.words(spelled@),
    {
        match self {
            LockError::Timeout { kind, path, waited: _ } => {
                let head: String = put_around(" lock on `", path.as_str(), "` after ");
                let tail: String = joined(head.as_str(), spelled);
                put_around("timed out acquiring ", kind.label(), tail.as_str())
            },
            LockError::Contended { kind, path } => {
                let tail: String = put_around(
                    " lock on `",
                    path.as_str(),
                    "` is held by another holder",
                );
                joined(kind.label(), tail.as_str())
            },
            LockError::Io { path, message } => {
                let head: String = put_around(
                    "failed to acquire lock on `",
                    path.as_str(),
                    "`: ",
                );
                joined(head.as_str(), message.as_str())
            },
        }
    }

    /// The error in words.
    pub fn message(&self) -> (r: String)
        ensures
            r@ == self@.words(duration_words(self@.waited_ms())),
    {
        let ms: u64 = match self {
            LockError::Timeout { kind: _, path: _, waited } => *waited,
            _ => 0,
        };
        let spelled: String = spell_duration(ms);
        self.message_with(spelled.as_str())
    }
}

/// How one try to take the lock ended.
#[derive(Debug, Clone, PartialEq, Eq)]
pub enum LockAttempt {
    /// The lock is held now.
    Granted,
    /// Another run holds it.
    Contended,
    /// The try itself failed.
    Failed {
        /// What went wrong.
        message: String,
    },
}

/// The number that the operating system gives where a lock is held by another, by
/// `raw_os_error` of what `fs2::lock_contended_error` returns. Which number it is
/// depends on the platform; the contract says that there is one.
#[verifier::external_body]
fn contended_code() -> (code: Option<i32>)
    ensures
        code is Some,
{
    fs2::lock_contended_error().raw_os_error()
}

/// Whether a failure is that of a lock that another holds, on a platform that gives
/// such failures the number `contended`.
pub fn has_contended_code(failure: &IoFailure, contended: Option<i32>) -> (r: bool)
    ensures
        r == (failure.os_code == contended),
{
    match (failure.os_code, contended) {
        (Some(a), Some(b)) => a == b,
        (None, None) => true,
        _ => false,
    }
}

/// Whether a failure is that of a lock that another holds. One without a number is
/// not. Which number means it depends on the platform, so the contract leaves that
/// open; [`has_contended_code`] says what follows for each number.
pub fn is_contended(failure: &IoFailure) -> (r: bool)
    ensures
        r ==> failure.os_code is Some,
{
    let contended: Option<i32> = contended_code();
    has_contended_code(failure, contended)
}

/// How a try ended that failed with `failure`, given whether this is contention.
pub fn attempt_of(failure: IoFailure, contended: bool) -> (r: LockAttempt)
    ensures
        contended ==> r is Contended,
        !contended ==> r is Failed && r->message@ == failure.message@,
{
    if contended {
        LockAttempt::Contended
    } else {
        LockAttempt::Failed { message: failure.message }
    }
}

/// What a waiting run does after a try.
#[derive(Debug, Clone, PartialEq, Eq)]
pub enum LockStep {
    /// It has the lock and goes on.
    Held,
    /// It pauses and tries again.
    Wait {
        /// How long it pauses, in nanoseconds.
        nanos: u64,
    },
    /// It gives up.
    GiveUp {
        /// Why.
        error: LockError,
    },
}

/// The pause of a run that has waited `elapsed` of `limit` nanoseconds: the usual
/// one, or what is left if that is less.
pub open spec fn pause_of(elapsed: int, limit: int) -> int {
    if limit - elapsed < POLL_INTERVAL {
        limit - elapsed
    } else {
        POLL_INTERVAL as int
    }
}

/// A number of milliseconds in nanoseconds.
pub open spec fn nanos_of(ms: u64) -> int {
    ms * 1000000
}

/// What a run does after a try to take the lock, when it has waited for `elapsed`
/// nanoseconds and is ready to wait for `timeout` milliseconds. It asks at least
/// once, and the last pause does not go beyond its time.
pub fn acquire_step(
    path: &str,
    kind: LockKind,
    timeout: u64,
    elapsed: u128,
    attempt: &LockAttempt,
) -> (r: LockStep)
    ensures
        match *attempt {
            LockAttempt::Granted => r is Held,
            LockAttempt::Contended => if elapsed >= nanos_of(timeout) {
                r is GiveUp && r->error@ == (LockFault::Timeout {
                    kind,
                    path: path@,
                    waited: timeout,
                })
            } else {
                r is Wait && r->nanos == pause_of(elapsed as int, nanos_of(timeout))
            },
            LockAttempt::Failed { message } => r is GiveUp && r->error@ == (LockFault::Io {
                path: path@,
                message: message@,
            }),
        },
{
    match attempt {
        LockAttempt::Granted => LockStep::Held,
        LockAttempt::Contended => {
            let limit: u128 = timeout as u128 * 1000000;
            if elapsed >= limit {
                LockStep::GiveUp {
                    error: LockError::Timeout { kind, path: path.to_owned(), waited: timeout },
                }
            } else if limit - elapsed < POLL_INTERVAL as u128 {
                LockStep::Wait { nanos: (limit - elapsed) as u64 }
            } else {
                LockStep::Wait { nanos: POLL_INTERVAL }
            }
        },
        LockAttempt::Failed { message } => LockStep::GiveUp {
            error: LockError::Io { path: path.to_owned(), message: message.clone() },
        },
    }
}

/// What a run that does not wait makes of its one try.
pub fn try_acquire_step(path: &str, kind: LockKind, attempt: &LockAttempt) -> (r: Result<
    (),
    LockError,
>)
    ensures
        match *attempt {
            LockAttempt::Granted => r is Ok,
            LockAttempt::Contended => r is Err && r->Err_0@ == (LockFault::Contended {
                kind,
                path: path@,
            }),
            LockAttempt::Failed { message } => r is Err && r->Err_0@ == (LockFault::Io {
                path: path@,
                message: message@,
            }),
        },
{
    match attempt {
        LockAttempt::Granted => Ok(()),
        LockAttempt::Contended => Err(LockError::Contended { kind, path: path.to_owned() }),
        LockAttempt::Failed { message } => Err(
            LockError::Io { path: path.to_owned(), message: message.clone() },
        ),
    }
}

/// A pause takes some time, and ends no later than the time of the run.
pub proof fn pauses_end_in_time(elapsed: int, limit: int)
    requires
        0 <= elapsed < limit,
    ensures
        0 < pause_of(elapsed, limit),
        elapsed + pause_of(elapsed, limit) <= limit,
{
}

} // verus!
