//! When a write is tried again, and how long a run waits for the lock.

use patina_core::apply::retry::retry_delay;
use patina_core::apply::retry::ERROR_SHARING_VIOLATION;
use patina_core::io_failure::IoFailure;
use patina_core::io_failure::IoKind;
use patina_core::lock::acquire_step;
use patina_core::lock::attempt_of;
use patina_core::lock::exclusive_timeout;
use patina_core::lock::is_contended;
use patina_core::lock::parse_unsigned;
use patina_core::lock::try_acquire_step;
use patina_core::lock::LockAttempt;
use patina_core::lock::LockError;
use patina_core::lock::LockKind;
use patina_core::lock::LockStep;
use patina_core::lock::EXCLUSIVE_TIMEOUT;
use patina_core::lock::SHARED_TIMEOUT;

fn failure(os_code: Option<i32>) -> IoFailure {
    IoFailure {
        kind: IoKind::Other,
        os_code,
        message: "failed".to_owned(),
    }
}

/// How often an operation runs whose tries come to `results`, with the last result.
fn tries(windows: bool, results: &[Result<u8, IoFailure>]) -> (usize, Result<u8, IoFailure>) {
    let mut calls = 0;
    loop {
        let result = results[calls.min(results.len() - 1)].clone();
        let failures = calls;
        calls += 1;
        match &result {
            Ok(_) => return (calls, result),
            Err(e) => {
                if retry_delay(windows, failures, e).is_none() {
                    return (calls, result);
                }
            }
        }
    }
}

#[test]
fn non_windows_runs_op_exactly_once_on_success() {
    let (calls, result) = tries(false, &[Ok(7)]);
    assert_eq!(result.expect("ok"), 7);
    assert_eq!(calls, 1, "pass-through must not retry");
}

#[test]
fn non_windows_surfaces_first_error_without_retry() {
    let (calls, result) = tries(false, &[Err(failure(Some(32)))]);
    assert!(result.is_err(), "error must surface");
    assert_eq!(calls, 1, "pass-through must not retry");
}

#[test]
fn windows_non_violation_error_is_not_retried() {
    let (calls, result) = tries(true, &[Err(failure(None))]);
    assert!(result.is_err(), "error must surface");
    assert_eq!(calls, 1, "non-violation error must not retry");
}

#[test]
fn windows_violation_then_success_retries_until_clear() {
    let violation = failure(Some(ERROR_SHARING_VIOLATION));
    let (calls, result) = tries(true, &[Err(violation.clone()), Err(violation), Ok(0)]);
    assert!(result.is_ok(), "should succeed once the violation clears");
    assert_eq!(calls, 3, "two retries then success");
}

#[test]
fn windows_persistent_violation_exhausts_budget_then_reraises() {
    let (calls, result) = tries(true, &[Err(failure(Some(ERROR_SHARING_VIOLATION)))]);
    let err = result.expect_err("budget exhausted");
    assert_eq!(err.os_code, Some(ERROR_SHARING_VIOLATION));
    assert_eq!(calls, 7, "initial attempt plus six retries");
}

#[test]
fn pauses_double_from_fifty_milliseconds() {
    let violation = failure(Some(ERROR_SHARING_VIOLATION));
    let delays: Vec<Option<u64>> = (0..7).map(|n| retry_delay(true, n, &violation)).collect();
    assert_eq!(
        delays,
        vec![
            Some(50),
            Some(100),
            Some(200),
            Some(400),
            Some(800),
            Some(1600),
            None
        ]
    );
}

#[test]
fn lock_kinds_have_their_words() {
    assert_eq!(LockKind::Exclusive.label(), "exclusive");
    assert_eq!(LockKind::Shared.label(), "shared");
    assert_eq!(EXCLUSIVE_TIMEOUT, 60_000);
    assert_eq!(SHARED_TIMEOUT, 5_000);
}

#[test]
fn exclusive_wait_is_overridden_by_a_number_alone() {
    assert_eq!(exclusive_timeout(&None), 60_000);
    assert_eq!(exclusive_timeout(&Some("250".to_owned())), 250);
    assert_eq!(exclusive_timeout(&Some("+40".to_owned())), 40);
    assert_eq!(exclusive_timeout(&Some("-1".to_owned())), 60_000);
    assert_eq!(exclusive_timeout(&Some("soon".to_owned())), 60_000);
    assert_eq!(exclusive_timeout(&Some(String::new())), 60_000);
    for text in ["0", "007", "18446744073709551615", "18446744073709551616", "+", "++1", " 1"] {
        assert_eq!(parse_unsigned(text), text.parse::<u64>().ok(), "`{text}`");
    }
}

#[test]
fn shared_blocks_exclusive() {
    let step = acquire_step(
        "/s/lock",
        LockKind::Exclusive,
        50,
        50_000_000,
        &LockAttempt::Contended,
    );
    assert!(
        matches!(
            &step,
            LockStep::GiveUp {
                error: LockError::Timeout {
                    kind: LockKind::Exclusive,
                    ..
                }
            }
        ),
        "exclusive acquire should time out against a held shared lock, got {step:?}"
    );
}

#[test]
fn exclusive_then_shared_blocks_until_drop_then_succeeds() {
    let wait = |elapsed| {
        acquire_step(
            "/s/lock",
            LockKind::Shared,
            50,
            elapsed,
            &LockAttempt::Contended,
        )
    };
    assert_eq!(wait(0), LockStep::Wait { nanos: 25_000_000 });
    assert_eq!(wait(40_000_000), LockStep::Wait { nanos: 10_000_000 });
    let blocked = wait(50_000_000);
    assert!(
        matches!(
            &blocked,
            LockStep::GiveUp {
                error: LockError::Timeout {
                    kind: LockKind::Shared,
                    ..
                }
            }
        ),
        "shared acquire should time out against a held exclusive lock, got {blocked:?}"
    );
    assert_eq!(
        acquire_step(
            "/s/lock",
            LockKind::Shared,
            5_000,
            60_000_000,
            &LockAttempt::Granted
        ),
        LockStep::Held
    );
}

#[test]
fn timeout_error_names_the_path_and_waited_duration() {
    let step = acquire_step(
        "/s/lock",
        LockKind::Exclusive,
        40,
        40_000_000,
        &LockAttempt::Contended,
    );
    let LockStep::GiveUp { error } = step else {
        panic!("must time out")
    };
    assert!(
        matches!(
            &error,
            LockError::Timeout {
                kind: LockKind::Exclusive,
                path,
                waited,
            } if path == "/s/lock" && *waited == 40
        ),
        "expected an exclusive Timeout naming the path and the cap, got {error:?}"
    );
    assert_eq!(
        error.message(),
        "timed out acquiring exclusive lock on `/s/lock` after 40ms"
    );
    assert_eq!(
        LockError::Timeout {
            kind: LockKind::Shared,
            path: "/s/lock".to_owned(),
            waited: 1_500
        }
        .message(),
        "timed out acquiring shared lock on `/s/lock` after 1.5s"
    );
}

#[test]
fn one_try_is_granted_contended_or_failed() {
    assert_eq!(
        try_acquire_step("/s/lock", LockKind::Exclusive, &LockAttempt::Granted),
        Ok(())
    );
    let err = try_acquire_step("/s/lock", LockKind::Exclusive, &LockAttempt::Contended)
        .expect_err("contended");
    assert_eq!(
        err.message(),
        "exclusive lock on `/s/lock` is held by another holder"
    );
    let attempt = attempt_of(failure(Some(13)), false);
    let err = try_acquire_step("/s/lock", LockKind::Shared, &attempt).expect_err("failed");
    assert_eq!(
        err.message(),
        "failed to acquire lock on `/s/lock`: failed"
    );
    assert_eq!(attempt_of(failure(None), true), LockAttempt::Contended);
}

#[test]
fn contention_is_told_by_the_number_of_the_platform() {
    let contended = fs2::lock_contended_error();
    assert!(is_contended(&failure(contended.raw_os_error())));
    assert!(!is_contended(&failure(Some(-1))));
    assert!(!is_contended(&failure(None)));
}

#[test]
fn two_shared_holders_coexist() {
    let named = tempfile::NamedTempFile::new().expect("temp file");
    let other = named.reopen().expect("second handle");
    for file in [named.as_file(), &other] {
        let attempt = match fs2::FileExt::try_lock_shared(file) {
            Ok(()) => LockAttempt::Granted,
            Err(err) => LockAttempt::Failed { message: err.to_string() },
        };
        assert_eq!(acquire_step("/l", LockKind::Shared, 200, 0, &attempt), LockStep::Held);
    }
    let third = named.reopen().expect("third handle");
    let err = fs2::FileExt::try_lock_exclusive(&third).expect_err("shared blocks exclusive");
    let refused = IoFailure {
        kind: IoKind::Other,
        os_code: err.raw_os_error(),
        message: err.to_string(),
    };
    assert!(is_contended(&refused));
}
