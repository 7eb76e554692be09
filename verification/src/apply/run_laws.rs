//! What holds of every course of an apply, whatever its actions come to.

use crate::error::EngineError;
use super::run::EndModel;
use super::run::EventModel;
use super::run::LockPolicy;
use super::run::ResultModel;
use super::run::RunAction;
use super::run::RunModel;
use super::run::Stage;
use super::run::action_of;
use super::run::advanced;
use super::run::begun;
use super::run::run_after;
use vstd::prelude::*;

verus! {

/// Whether an event is the success of what a run does at a stage.
pub open spec fn went_well(stage: Stage, e: EventModel) -> bool {
    match stage {
        Stage::Gate => e matches EventModel::Gate { decision } && !(decision is RequireElevation),
        Stage::UpToDate => e is UpToDate,
        Stage::PreHooks | Stage::PostHooks => e matches EventModel::Hooks { failed, .. }
            && failed is None,
        Stage::Write => e is Written,
        Stage::Retain => e is Retained,
        _ => e is Done,
    }
}

/// Whether a run has been at a stage, and what it did there succeeded.
pub open spec fn passed(
    policy: LockPolicy,
    shape: Seq<nat>,
    events: Seq<EventModel>,
    stage: Stage,
) -> bool {
    exists|i: int|
        0 <= i < events.len() && #[trigger] run_after(policy, shape, events.take(i)).stage == stage
            && went_well(stage, events[i])
}

/// What a run has passed after one more event.
pub(crate) proof fn passed_step(policy: LockPolicy, shape: Seq<nat>, events: Seq<EventModel>, stage: Stage)
    requires
        events.len() > 0,
    ensures
        passed(policy, shape, events, stage) == (passed(policy, shape, events.drop_last(), stage)
            || (run_after(policy, shape, events.drop_last()).stage == stage && went_well(
            stage,
            events.last(),
        ))),
{
    let front = events.drop_last();
    assert(events.take(events.len() - 1) =~= front);
    if passed(policy, shape, events, stage) {
        let i = choose|i: int|
            0 <= i < events.len() && #[trigger] run_after(policy, shape, events.take(i)).stage
                == stage && went_well(stage, events[i]);
        if i < front.len() {
            assert(front.take(i) =~= events.take(i));
            assert(run_after(policy, shape, front.take(i)).stage == stage);
            assert(front[i] == events[i]);
        }
    }
    if passed(policy, shape, front, stage) {
        let i = choose|i: int|
            0 <= i < front.len() && #[trigger] run_after(policy, shape, front.take(i)).stage
                == stage && went_well(stage, front[i]);
        assert(front.take(i) =~= events.take(i));
        assert(run_after(policy, shape, events.take(i)).stage == stage);
        assert(front[i] == events[i]);
    }
    if run_after(policy, shape, front).stage == stage && went_well(stage, events.last()) {
        assert(run_after(policy, shape, events.take(events.len() - 1)).stage == stage);
        assert(events[events.len() - 1] == events.last());
    }
}

/// Whether a stage comes behind the flush of the plan.
pub open spec fn behind_flush(stage: Stage) -> bool {
    stage is BackUp || stage is Write || stage is Progress || behind_writes(stage)
}

/// Whether a stage comes behind the last target.
pub open spec fn behind_writes(stage: Stage) -> bool {
    stage is PostHooks || stage is Reverse || stage is Reap || at_commit(stage)
}

/// Whether a stage is that of the commit or comes behind it.
pub open spec fn at_commit(stage: Stage) -> bool {
    stage is Commit || behind_commit(stage)
}

/// Whether a stage comes behind the commit.
pub open spec fn behind_commit(stage: Stage) -> bool {
    stage is Retain || stage is PruneCycles || stage is PruneRemotes
}

/// Whether a run was stopped by a hook before the plan was flushed.
pub open spec fn was_aborted(m: RunModel) -> bool {
    m.end matches Some(EndModel::Settled { result }) && result is Aborted
}

/// Whether a run was rolled back.
pub open spec fn was_rolled_back(m: RunModel) -> bool {
    m.end matches Some(EndModel::Settled { result }) && result is RolledBack
}

/// Whether a run settled with everything applied, and whether there was anything to
/// do.
pub open spec fn was_applied(m: RunModel, up_to_date: bool) -> bool {
    m.end matches Some(EndModel::Settled { result }) && result matches ResultModel::Applied {
        warnings,
        up_to_date: u,
    } && u == up_to_date
}

/// What holds of a run at every point.
pub(crate) open spec fn in_order(policy: LockPolicy, shape: Seq<nat>, events: Seq<EventModel>) -> bool {
    let m = run_after(policy, shape, events);
    let locked = policy is Held || passed(policy, shape, events, Stage::Lock);
    let flushed = passed(policy, shape, events, Stage::Flush);
    let hooked = passed(policy, shape, events, Stage::PostHooks);
    let reversed = passed(policy, shape, events, Stage::Reverse);
    let reaped = passed(policy, shape, events, Stage::Reap);
    let committed = passed(policy, shape, events, Stage::Commit);
    &&& m.policy == policy
    &&& m.stage is Finished <==> m.end is Some
    &&& !(m.stage is Lock) && !(m.stage is Finished) ==> locked
    &&& policy is Held ==> !(m.stage is Lock) && !(m.stage is Reap) && !reaped
    &&& behind_flush(m.stage) ==> flushed
    &&& flushed ==> behind_flush(m.stage) || (m.stage is Finished && !was_aborted(m)
        && !was_applied(m, true))
    &&& behind_writes(m.stage) ==> m.op >= shape.len() && m.pending.len() == 0
    &&& m.stage is Reap || at_commit(m.stage) ==> hooked
    &&& hooked ==> m.stage is Reap || at_commit(m.stage) || (m.stage is Finished
        && !was_rolled_back(m))
    &&& at_commit(m.stage) ==> policy is Held || reaped
    &&& reaped ==> at_commit(m.stage) || (m.stage is Finished && !was_rolled_back(m))
    &&& m.stage is Reverse ==> m.failed_hook is Some
    &&& behind_commit(m.stage) ==> committed
    &&& committed ==> behind_commit(m.stage) || (m.stage is Finished && !was_rolled_back(m)
        && !was_aborted(m) && !was_applied(m, true))
    &&& was_applied(m, false) ==> committed && hooked && flushed && locked && m.op >= shape.len()
        && (policy is Held || reaped)
    &&& was_rolled_back(m) ==> reversed && flushed && !committed
}

#[verifier::spinoff_prover]
#[verifier::rlimit(60)]
pub(crate) proof fn always_in_order(policy: LockPolicy, shape: Seq<nat>, events: Seq<EventModel>)
    ensures
        in_order(policy, shape, events),
    decreases events.len(),
{
    if events.len() > 0 {
        let front = events.drop_last();
        always_in_order(policy, shape, front);
        passed_step(policy, shape, events, Stage::Lock);
        passed_step(policy, shape, events, Stage::Flush);
        passed_step(policy, shape, events, Stage::PostHooks);
        passed_step(policy, shape, events, Stage::Reverse);
        passed_step(policy, shape, events, Stage::Reap);
        passed_step(policy, shape, events, Stage::Commit);
        let m = run_after(policy, shape, front);
        let e = events.last();
        assert(run_after(policy, shape, events) == advanced(m, shape, e));
    }
}

/// Whether an action does more than take the lock or return.
pub open spec fn acts(action: RunAction) -> bool {
    !(action is Lock) && !(action is Return)
}

/// Nothing is done without the lock: every action but taking it comes when the
/// caller holds it or it has been granted.
pub proof fn nothing_is_done_without_the_lock(
    policy: LockPolicy,
    shape: Seq<nat>,
    events: Seq<EventModel>,
)
    requires
        acts(action_of(run_after(policy, shape, events))),
    ensures
        policy is Held || passed(policy, shape, events, Stage::Lock),
{
    always_in_order(policy, shape, events);
}

/// A run that is refused the lock does nothing at all: from then on it only returns
/// the refusal.
pub proof fn refused_run_does_nothing(
    policy: LockPolicy,
    shape: Seq<nat>,
    events: Seq<EventModel>,
    error: EngineError,
)
    requires
        !(policy is Held),
        events.len() > 0,
        events[0] == (EventModel::Failed { error }),
    ensures
        action_of(run_after(policy, shape, events)) is Return,
        run_after(policy, shape, events).end == Some(EndModel::Failed { error }),
    decreases events.len(),
{
    if events.len() == 1 {
        assert(events.drop_last() =~= Seq::<EventModel>::empty());
        assert(run_after(policy, shape, events.drop_last()) == begun(policy));
    } else {
        refused_run_does_nothing(policy, shape, events.drop_last(), error);
    }
}

/// No target is backed up or written and no orphan removed before the plan is flushed.
pub proof fn plan_is_flushed_first(policy: LockPolicy, shape: Seq<nat>, events: Seq<EventModel>)
    requires
        ({
            let action = action_of(run_after(policy, shape, events));
            action is BackUp || action is WriteTarget || action is Reap || action is Reverse || action is Commit
        }),
    ensures
        passed(policy, shape, events, Stage::Flush),
{
    always_in_order(policy, shape, events);
}

/// A target is written only when what stands there was backed up, right before.
pub proof fn backup_comes_first(policy: LockPolicy, shape: Seq<nat>, events: Seq<EventModel>)
    requires
        run_after(policy, shape, events).stage is Write,
    ensures
        exists|i: int|
            0 <= i < events.len() && events[i] is Done && #[trigger] run_after(
                policy,
                shape,
                events.take(i),
            ) == (RunModel { stage: Stage::BackUp, ..run_after(policy, shape, events) }),
    decreases events.len(),
{
    let front = events.drop_last();
    let m = run_after(policy, shape, front);
    let now = run_after(policy, shape, events);
    if m.stage is Write {
        backup_comes_first(policy, shape, front);
        let i = choose|i: int|
            0 <= i < front.len() && front[i] is Done && #[trigger] run_after(
                policy,
                shape,
                front.take(i),
            ) == (RunModel { stage: Stage::BackUp, ..m });
        assert(front.take(i) =~= events.take(i));
        assert(front[i] == events[i]);
        assert(run_after(policy, shape, events.take(i)) == (RunModel {
            stage: Stage::BackUp,
            ..now
        }));
    } else {
        assert(events.take(events.len() - 1) =~= front);
        assert(run_after(policy, shape, events.take(events.len() - 1)) == (RunModel {
            stage: Stage::BackUp,
            ..now
        }));
    }
}

/// The commit comes when every target of the plan is written and noted and no hook
/// has failed.
pub proof fn commit_comes_last(policy: LockPolicy, shape: Seq<nat>, events: Seq<EventModel>)
    requires
        action_of(run_after(policy, shape, events)) is Commit,
    ensures
        run_after(policy, shape, events).op >= shape.len(),
        run_after(policy, shape, events).pending.len() == 0,
        passed(policy, shape, events, Stage::PostHooks),
        policy is Held || passed(policy, shape, events, Stage::Reap),
{
    always_in_order(policy, shape, events);
}

/// A run whose caller holds the lock neither takes it nor removes an orphan.
pub proof fn held_run_never_reaps(policy: LockPolicy, shape: Seq<nat>, events: Seq<EventModel>)
    requires
        policy is Held,
    ensures
        !(action_of(run_after(policy, shape, events)) is Lock),
        !(action_of(run_after(policy, shape, events)) is Reap),
{
    always_in_order(policy, shape, events);
}

/// A run that says there was nothing to do has not flushed a plan, nor has one that a
/// hook stopped beforehand: neither has changed a target.
pub proof fn untouched_where_nothing_was_done(
    policy: LockPolicy,
    shape: Seq<nat>,
    events: Seq<EventModel>,
)
    requires
        was_applied(run_after(policy, shape, events), true) || was_aborted(
            run_after(policy, shape, events),
        ),
    ensures
        !passed(policy, shape, events, Stage::Flush),
        !passed(policy, shape, events, Stage::Commit),
{
    always_in_order(policy, shape, events);
}

/// A run that says it has applied something has committed it.
pub proof fn applied_means_committed(policy: LockPolicy, shape: Seq<nat>, events: Seq<EventModel>)
    requires
        was_applied(run_after(policy, shape, events), false),
    ensures
        passed(policy, shape, events, Stage::Commit),
        passed(policy, shape, events, Stage::PostHooks),
        passed(policy, shape, events, Stage::Flush),
{
    always_in_order(policy, shape, events);
}

/// A run that was rolled back has taken back what it wrote, and committed nothing.
pub proof fn rolled_back_means_uncommitted(
    policy: LockPolicy,
    shape: Seq<nat>,
    events: Seq<EventModel>,
)
    requires
        was_rolled_back(run_after(policy, shape, events)),
    ensures
        passed(policy, shape, events, Stage::Reverse),
        !passed(policy, shape, events, Stage::Commit),
{
    always_in_order(policy, shape, events);
}

} // verus!
