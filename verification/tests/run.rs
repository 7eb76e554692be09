//! The course of an apply.

use patina_core::apply::executors::CompletionRecord;
use patina_core::apply::executors::Materialization;
use patina_core::apply::planning::ResolvedOperation;
use patina_core::apply::planning::TargetDisposition;
use patina_core::apply::run::ApplyRequest;
use patina_core::apply::run::ApplyResult;
use patina_core::apply::run::GateDecision;
use patina_core::apply::run::LockPolicy;
use patina_core::apply::run::Run;
use patina_core::apply::run::RunAction;
use patina_core::apply::run::RunEnd;
use patina_core::apply::run::RunEvent;
use patina_core::config::FileMode;
use patina_core::config::HookEvent;
use patina_core::error::EngineError;
use patina_core::journal::Disposition;
use patina_core::lock::LockError;
use patina_core::lock::LockKind;
use patina_core::options::ApplyOptions;

fn operation(targets: &[&str]) -> ResolvedOperation {
    ResolvedOperation {
        mode: FileMode::Copy,
        source: "/s".to_owned(),
        targets: targets.iter().map(|t| (*t).to_owned()).collect(),
        dispositions: targets
            .iter()
            .map(|_| TargetDisposition {
                aggregate: Disposition::Create,
                leaves: vec![],
            })
            .collect(),
        entry_index: 0,
    }
}

fn record(target: &str) -> CompletionRecord {
    CompletionRecord {
        source: "/s".to_owned(),
        target: target.to_owned(),
        materialization: Materialization::Copy,
    }
}

/// The events of a run in which everything goes well.
fn well(action: RunAction, ops: &[ResolvedOperation]) -> RunEvent {
    match action {
        RunAction::CheckGate => RunEvent::Gate {
            decision: GateDecision::Proceed,
        },
        RunAction::CheckUpToDate { .. } => RunEvent::UpToDate { up_to_date: false },
        RunAction::RunHooks { .. } => RunEvent::Hooks {
            warnings: vec![],
            failed: None,
        },
        RunAction::WriteTarget { op, target } => RunEvent::Written {
            records: vec![record(&ops[op].targets[target])],
        },
        RunAction::Retain { .. } => RunEvent::Retained {
            pruned: vec!["OLD".to_owned()],
        },
        _ => RunEvent::Done,
    }
}

/// The actions of a run, where `event` says what each comes to.
fn course(
    policy: LockPolicy,
    ops: &Vec<ResolvedOperation>,
    mut event: impl FnMut(RunAction) -> RunEvent,
) -> (Vec<RunAction>, Run) {
    let mut run = Run::begin(policy);
    let mut actions = vec![];
    loop {
        let action = run.next_action();
        actions.push(action);
        if action == RunAction::Return {
            return (actions, run);
        }
        run.advance(ops, event(action));
    }
}

fn contended() -> EngineError {
    EngineError::Lock(LockError::Contended {
        kind: LockKind::Exclusive,
        path: "/state/lock".to_owned(),
    })
}

#[test]
fn a_run_takes_every_step_in_order() {
    let ops = vec![operation(&["/h/a", "/h/b"]), operation(&[]), operation(&["/h/c"])];
    let (actions, run) = course(LockPolicy::Blocking, &ops, |a| well(a, &ops));
    assert_eq!(
        actions,
        vec![
            RunAction::Lock { wait: true },
            RunAction::Recover,
            RunAction::CheckGate,
            RunAction::CheckUpToDate { reap: true },
            RunAction::ResolveShells,
            RunAction::RunHooks {
                event: HookEvent::PreApply
            },
            RunAction::FlushPlan,
            RunAction::BackUp { op: 0, target: 0 },
            RunAction::WriteTarget { op: 0, target: 0 },
            RunAction::RecordProgress { index: 0 },
            RunAction::BackUp { op: 0, target: 1 },
            RunAction::WriteTarget { op: 0, target: 1 },
            RunAction::RecordProgress { index: 1 },
            RunAction::BackUp { op: 2, target: 0 },
            RunAction::WriteTarget { op: 2, target: 0 },
            RunAction::RecordProgress { index: 2 },
            RunAction::RunHooks {
                event: HookEvent::PostApply
            },
            RunAction::Reap,
            RunAction::Commit,
            RunAction::Retain { keep: 10 },
            RunAction::PruneCycles,
            RunAction::PruneRemotes,
            RunAction::Return,
        ]
    );
    let targets: Vec<&str> = run.completed.iter().map(|r| r.target.as_str()).collect();
    assert_eq!(targets, vec!["/h/a", "/h/b", "/h/c"]);
    assert_eq!(run.pruned, vec!["OLD"]);
    assert_eq!(
        run.end,
        Some(RunEnd::Settled {
            result: ApplyResult::Applied {
                warnings: vec![],
                up_to_date: false
            }
        })
    );
}

#[test]
fn non_blocking_apply_on_contended_lock_errors_and_writes_no_journal() {
    let ops = vec![operation(&["/h/a"])];
    let (actions, run) = course(LockPolicy::NonBlocking, &ops, |_| RunEvent::Failed {
        error: contended(),
    });
    assert_eq!(
        actions,
        vec![RunAction::Lock { wait: false }, RunAction::Return]
    );
    assert!(
        matches!(
            &run.end,
            Some(RunEnd::Failed {
                error: EngineError::Lock(LockError::Contended {
                    kind: LockKind::Exclusive,
                    ..
                })
            })
        ),
        "a NonBlocking apply against a held lock must return the typed contention error, got {run:?}"
    );
    assert!(
        !actions.contains(&RunAction::FlushPlan),
        "contended NonBlocking apply must not write a plan file"
    );
    assert!(
        !actions.contains(&RunAction::Commit),
        "contended NonBlocking apply must not write a COMMIT file"
    );
}

#[test]
fn held_policy_applies_with_callers_guard_and_commits() {
    let ops = vec![];
    let (actions, run) = course(LockPolicy::Held, &ops, |a| well(a, &ops));
    assert!(!actions
        .iter()
        .any(|a| matches!(a, RunAction::Lock { .. } | RunAction::Reap)));
    assert!(actions.contains(&RunAction::CheckUpToDate { reap: false }));
    assert!(
        matches!(
            &run.end,
            Some(RunEnd::Settled {
                result: ApplyResult::Applied { .. }
            })
        ),
        "the Held-policy apply committed, got {run:?}"
    );
    assert!(
        actions.contains(&RunAction::Commit),
        "a committed apply leaves a `<ts>.COMMIT` record"
    );
}

#[test]
fn non_blocking_contention_leaves_pending_orphan_untouched() {
    let ops = vec![operation(&["/h/a"])];
    let (actions, run) = course(LockPolicy::NonBlocking, &ops, |_| RunEvent::Failed {
        error: contended(),
    });
    assert!(
        matches!(
            &run.end,
            Some(RunEnd::Failed {
                error: EngineError::Lock(LockError::Contended {
                    kind: LockKind::Exclusive,
                    ..
                })
            })
        ),
        "a NonBlocking apply against a held lock must return the typed contention error, got {run:?}"
    );
    assert!(
        !actions.contains(&RunAction::Recover),
        "recovery never runs because the lock is resolved first"
    );
    assert!(
        !actions.contains(&RunAction::FlushPlan),
        "contended NonBlocking apply must not write a new plan file"
    );
    assert!(
        !actions.contains(&RunAction::Commit),
        "contended NonBlocking apply must not write a COMMIT file"
    );
    assert!(
        !actions.iter().any(|action| matches!(action, RunAction::BackUp { .. } | RunAction::Reap)),
        "contended NonBlocking apply must not write any backup"
    );
    assert!(run.completed.is_empty());
}

#[test]
fn nothing_to_do_writes_nothing() {
    let ops = vec![operation(&["/h/a"])];
    let (actions, run) = course(LockPolicy::Blocking, &ops, |a| match a {
        RunAction::CheckUpToDate { .. } => RunEvent::UpToDate { up_to_date: true },
        other => well(other, &ops),
    });
    assert!(!actions.contains(&RunAction::FlushPlan));
    assert_eq!(
        run.end,
        Some(RunEnd::Settled {
            result: ApplyResult::Applied {
                warnings: vec![],
                up_to_date: true
            }
        })
    );
}

#[test]
fn a_failed_hook_beforehand_aborts_before_the_plan_is_flushed() {
    let ops = vec![operation(&["/h/a"])];
    let (actions, run) = course(LockPolicy::Blocking, &ops, |a| match a {
        RunAction::RunHooks {
            event: HookEvent::PreApply,
        } => RunEvent::Hooks {
            warnings: vec![],
            failed: Some("lint".to_owned()),
        },
        other => well(other, &ops),
    });
    assert!(!actions.contains(&RunAction::FlushPlan));
    assert_eq!(
        run.end,
        Some(RunEnd::Settled {
            result: ApplyResult::Aborted {
                failed_hook: "lint".to_owned()
            }
        })
    );
}

#[test]
fn a_failed_hook_afterwards_takes_everything_back() {
    let ops = vec![operation(&["/h/a"])];
    let (actions, run) = course(LockPolicy::Blocking, &ops, |a| match a {
        RunAction::RunHooks {
            event: HookEvent::PostApply,
        } => RunEvent::Hooks {
            warnings: vec!["w".to_owned()],
            failed: Some("reload".to_owned()),
        },
        other => well(other, &ops),
    });
    assert!(actions.contains(&RunAction::Reverse));
    assert!(!actions.contains(&RunAction::Commit));
    assert!(!actions.contains(&RunAction::Reap));
    assert_eq!(
        run.end,
        Some(RunEnd::Settled {
            result: ApplyResult::RolledBack {
                failed_hook: "reload".to_owned()
            }
        })
    );
}

#[test]
fn warnings_of_hooks_afterwards_reach_the_result() {
    let ops = vec![];
    let (_, run) = course(LockPolicy::Blocking, &ops, |a| match a {
        RunAction::RunHooks { event } => RunEvent::Hooks {
            warnings: vec![format!("{event:?}")],
            failed: None,
        },
        // A failed sweep of checkouts does not undo a commit.
        RunAction::PruneRemotes => RunEvent::Failed { error: contended() },
        other => well(other, &ops),
    });
    assert_eq!(
        run.end,
        Some(RunEnd::Settled {
            result: ApplyResult::Applied {
                warnings: vec!["PostApply".to_owned()],
                up_to_date: false
            }
        })
    );
}

#[test]
fn a_host_without_developer_mode_is_refused() {
    let ops = vec![operation(&["/h/a"])];
    let (actions, run) = course(LockPolicy::Blocking, &ops, |a| match a {
        RunAction::CheckGate => RunEvent::Gate {
            decision: GateDecision::RequireElevation,
        },
        other => well(other, &ops),
    });
    assert!(!actions.contains(&RunAction::FlushPlan));
    let Some(RunEnd::Failed { error }) = run.end else {
        panic!("the run must fail")
    };
    assert_eq!(
        error.message(),
        "Developer Mode is disabled; creating symbolic links requires it. Run `patina doctor \
         --fix` to enable Developer Mode, or re-run `patina apply` and accept the elevation prompt"
    );
}

#[test]
fn a_failed_write_ends_the_run_without_a_commit() {
    let ops = vec![operation(&["/h/a", "/h/b"])];
    let (actions, run) = course(LockPolicy::Blocking, &ops, |a| match a {
        RunAction::WriteTarget { target: 1, .. } => RunEvent::Failed { error: contended() },
        other => well(other, &ops),
    });
    assert!(!actions.contains(&RunAction::Commit));
    assert!(matches!(run.end, Some(RunEnd::Failed { .. })));
    assert_eq!(run.completed.len(), 1);
}

#[test]
fn defaults_force_nothing_and_wait_for_the_lock() {
    assert!(ApplyRequest::default().cli_overrides.is_empty());
    assert!(!format!("{:?}", ApplyRequest::default()).contains("Yes"));
    assert_eq!(LockPolicy::default(), LockPolicy::Blocking);
    assert_eq!(ApplyOptions::default().timestamp, "");
}

#[test]
fn a_target_is_written_only_behind_its_backup() {
    let ops = vec![operation(&["/h/a"])];
    let (actions, run) = course(LockPolicy::Blocking, &ops, |a| match a {
        RunAction::BackUp { .. } => RunEvent::Failed { error: contended() },
        other => well(other, &ops),
    });
    assert!(actions.contains(&RunAction::BackUp { op: 0, target: 0 }));
    assert!(!actions.contains(&RunAction::WriteTarget { op: 0, target: 0 }));
    assert!(run.completed.is_empty());
}
