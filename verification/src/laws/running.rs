//! The course of an apply.

use crate::apply::executors::CompletionModel;
use crate::apply::run::EndModel;
use crate::apply::run::EventModel;
use crate::apply::run::GateDecision;
use crate::apply::run::LockPolicy;
use crate::apply::run::ResultModel;
use crate::apply::run::Run;
use crate::apply::run::RunAction;
use crate::apply::run::Stage;
use crate::apply::run::advanced;
use crate::apply::run::begun;
use crate::apply::run::next_place;
use crate::apply::run::run_after;
use crate::config::HookEvent;
use crate::error::EngineError;
use vstd::prelude::*;

verus! {

/// Whether an event came while a run stood at a stage.
pub open spec fn came(
    policy: LockPolicy,
    shape: Seq<nat>,
    events: Seq<EventModel>,
    stage: Stage,
    e: EventModel,
) -> bool {
    exists|i: int|
        0 <= i < events.len() && #[trigger] run_after(policy, shape, events.take(i)).stage == stage
            && events[i] == e
}

/// Whether the hooks of a stage ran and none failed that must not.
pub open spec fn hooks_passed(
    policy: LockPolicy,
    shape: Seq<nat>,
    events: Seq<EventModel>,
    stage: Stage,
) -> bool {
    exists|warnings: Seq<Seq<char>>| #[trigger]
        came(policy, shape, events, stage, EventModel::Hooks { warnings, failed: None })
}

proof fn came_earlier(
    policy: LockPolicy,
    shape: Seq<nat>,
    events: Seq<EventModel>,
    stage: Stage,
    e: EventModel,
)
    requires
        events.len() > 0,
    ensures
        came(policy, shape, events.drop_last(), stage, e) ==> came(policy, shape, events, stage, e),
        run_after(policy, shape, events.drop_last()).stage == stage && events.last() == e ==> came(
            policy,
            shape,
            events,
            stage,
            e,
        ),
{
    let front = events.drop_last();
    if came(policy, shape, front, stage, e) {
        let i = choose|i: int|
            0 <= i < front.len() && #[trigger] run_after(policy, shape, front.take(i)).stage
                == stage && front[i] == e;
        assert(front.take(i) =~= events.take(i));
        assert(run_after(policy, shape, events.take(i)).stage == stage);
        assert(events[i] == e);
    }
    if run_after(policy, shape, front).stage == stage && events.last() == e {
        assert(events.take(events.len() - 1) =~= front);
        assert(run_after(policy, shape, events.take(events.len() - 1)).stage == stage);
    }
}

/// Whether a run has come as far as a stage that changes anything: its plan is to be
/// flushed, or was.
pub open spec fn changes_things(stage: Stage) -> bool {
    stage is Flush || stage is BackUp || stage is Write || stage is Progress || stage is PostHooks
        || stage is Reverse || stage is Reap || stage is Commit || stage is Retain
        || stage is PruneCycles || stage is PruneRemotes
}

/// Whether a run has been through everything that comes before it changes anything.
pub open spec fn is_cleared(policy: LockPolicy, shape: Seq<nat>, events: Seq<EventModel>) -> bool {
    &&& policy is Held || came(policy, shape, events, Stage::Lock, EventModel::Done)
    &&& came(policy, shape, events, Stage::Recover, EventModel::Done)
    &&& exists|decision: GateDecision|
        decision != GateDecision::RequireElevation && #[trigger] came(
            policy,
            shape,
            events,
            Stage::Gate,
            EventModel::Gate { decision },
        )
    &&& came(policy, shape, events, Stage::UpToDate, EventModel::UpToDate { up_to_date: false })
    &&& came(policy, shape, events, Stage::Shells, EventModel::Done)
    &&& hooks_passed(policy, shape, events, Stage::PreHooks)
}

/// What a run has been through, by where it stands.
spec fn cleared_so_far(
    policy: LockPolicy,
    shape: Seq<nat>,
    events: Seq<EventModel>,
    stage: Stage,
) -> bool {
    let locked = policy is Held || came(policy, shape, events, Stage::Lock, EventModel::Done);
    let recovered = came(policy, shape, events, Stage::Recover, EventModel::Done);
    let gated = exists|decision: GateDecision|
        decision != GateDecision::RequireElevation && #[trigger] came(
            policy,
            shape,
            events,
            Stage::Gate,
            EventModel::Gate { decision },
        );
    let differs = came(
        policy,
        shape,
        events,
        Stage::UpToDate,
        EventModel::UpToDate { up_to_date: false },
    );
    let shelled = came(policy, shape, events, Stage::Shells, EventModel::Done);
    match stage {
        Stage::Lock => true,
        Stage::Recover => locked,
        Stage::Gate => locked && recovered,
        Stage::UpToDate => locked && recovered && gated,
        Stage::Shells => locked && recovered && gated && differs,
        Stage::PreHooks => locked && recovered && gated && differs && shelled,
        Stage::Finished => true,
        _ => is_cleared(policy, shape, events),
    }
}

proof fn keeps_cleared(
    policy: LockPolicy,
    shape: Seq<nat>,
    events: Seq<EventModel>,
    stage: Stage,
)
    requires
        events.len() > 0,
        cleared_so_far(policy, shape, events.drop_last(), stage),
    ensures
        cleared_so_far(policy, shape, events, stage),
{
    let front = events.drop_last();
    came_earlier(policy, shape, events, Stage::Lock, EventModel::Done);
    came_earlier(policy, shape, events, Stage::Recover, EventModel::Done);
    came_earlier(policy, shape, events, Stage::Shells, EventModel::Done);
    came_earlier(
        policy,
        shape,
        events,
        Stage::UpToDate,
        EventModel::UpToDate { up_to_date: false },
    );
    if exists|decision: GateDecision|
        decision != GateDecision::RequireElevation && #[trigger] came(
            policy,
            shape,
            front,
            Stage::Gate,
            EventModel::Gate { decision },
        ) {
        let decision = choose|decision: GateDecision|
            decision != GateDecision::RequireElevation && #[trigger] came(
                policy,
                shape,
                front,
                Stage::Gate,
                EventModel::Gate { decision },
            );
        came_earlier(policy, shape, events, Stage::Gate, EventModel::Gate { decision });
    }
    if hooks_passed(policy, shape, front, Stage::PreHooks) {
        let warnings = choose|warnings: Seq<Seq<char>>| #[trigger]
            came(
                policy,
                shape,
                front,
                Stage::PreHooks,
                EventModel::Hooks { warnings, failed: None },
            );
        came_earlier(
            policy,
            shape,
            events,
            Stage::PreHooks,
            EventModel::Hooks { warnings, failed: None },
        );
    }
}

proof fn always_cleared(policy: LockPolicy, shape: Seq<nat>, events: Seq<EventModel>)
    ensures
        cleared_so_far(policy, shape, events, run_after(policy, shape, events).stage),
    decreases events.len(),
{
    if events.len() > 0 {
        let front = events.drop_last();
        let m = run_after(policy, shape, front);
        let e = events.last();
        always_cleared(policy, shape, front);
        keeps_cleared(policy, shape, events, m.stage);
        came_earlier(policy, shape, events, m.stage, e);
        assert(run_after(policy, shape, events) == advanced(m, shape, e));
        match (m.stage, e) {
            (Stage::Gate, EventModel::Gate { decision }) => {
                came_earlier(policy, shape, events, Stage::Gate, EventModel::Gate { decision });
            },
            (Stage::UpToDate, EventModel::UpToDate { up_to_date }) => {
                came_earlier(
                    policy,
                    shape,
                    events,
                    Stage::UpToDate,
                    EventModel::UpToDate { up_to_date },
                );
            },
            (Stage::PreHooks, EventModel::Hooks { warnings, failed }) => {
                came_earlier(
                    policy,
                    shape,
                    events,
                    Stage::PreHooks,
                    EventModel::Hooks { warnings, failed },
                );
            },
            (_, EventModel::Done) => {
                came_earlier(policy, shape, events, m.stage, EventModel::Done);
            },
            _ => {},
        }
    }
}

/// A run changes nothing before it has the lock, has recovered what was cut off, has been
/// allowed to go on, has found something to do, has found its shells, and has run the
/// hooks beforehand without one failing that must not.
pub proof fn runs_are_cleared_before_they_change_anything(
    policy: LockPolicy,
    shape: Seq<nat>,
    events: Seq<EventModel>,
)
    requires
        changes_things(run_after(policy, shape, events).stage),
    ensures
        is_cleared(policy, shape, events),
{
    always_cleared(policy, shape, events);
}

/// A failure ends a run with that failure, wherever it stands: only the last clearing up
/// may fail.
pub proof fn failures_end_a_run(
    policy: LockPolicy,
    shape: Seq<nat>,
    events: Seq<EventModel>,
    error: EngineError,
)
    requires
        !(run_after(policy, shape, events).stage is Finished),
        !(run_after(policy, shape, events).stage is PruneRemotes),
    ensures
        run_after(policy, shape, events.push(EventModel::Failed { error })).end == Some(
            EndModel::Failed { error },
        ),
        run_after(policy, shape, events.push(EventModel::Failed { error })).stage is Finished,
{
    let e = EventModel::Failed { error };
    assert(events.push(e).drop_last() =~= events);
}

/// A gate that asks for elevation, a hook that fails beforehand and must not, and a run
/// that has nothing to do each end the run there, and say so.
pub proof fn runs_are_stopped_early(
    policy: LockPolicy,
    shape: Seq<nat>,
    events: Seq<EventModel>,
    e: EventModel,
    warnings: Seq<Seq<char>>,
    command: Seq<char>,
)
    ensures
        ({
            let m = run_after(policy, shape, events);
            let next = run_after(policy, shape, events.push(e));
            &&& m.stage is Gate && e == (EventModel::Gate {
                decision: GateDecision::RequireElevation,
            }) ==> next.end == Some(EndModel::Failed { error: EngineError::DevModeRequired })
            &&& m.stage is UpToDate && e == (EventModel::UpToDate { up_to_date: true }) ==> next.end
                == Some(
                EndModel::Settled {
                    result: ResultModel::Applied { warnings: Seq::empty(), up_to_date: true },
                },
            )
            &&& m.stage is PreHooks && e == (EventModel::Hooks { warnings, failed: Some(command) })
                ==> next.end == Some(
                EndModel::Settled { result: ResultModel::Aborted { failed_hook: command } },
            )
        }),
{
    assert(events.push(e).drop_last() =~= events);
}

/// A hook that fails afterwards and must not has what was written taken back, and nothing
/// is committed: the run ends with the command of the hook.
pub proof fn failed_hooks_take_everything_back(
    policy: LockPolicy,
    shape: Seq<nat>,
    events: Seq<EventModel>,
    warnings: Seq<Seq<char>>,
    command: Seq<char>,
)
    requires
        run_after(policy, shape, events).stage is PostHooks,
    ensures
        ({
            let failed = events.push(EventModel::Hooks { warnings, failed: Some(command) });
            &&& run_after(policy, shape, failed).stage is Reverse
            &&& run_after(policy, shape, failed.push(EventModel::Done)).end == Some(
                EndModel::Settled { result: ResultModel::RolledBack { failed_hook: command } },
            )
        }),
{
    let e = EventModel::Hooks { warnings, failed: Some(command) };
    let failed = events.push(e);
    assert(failed.drop_last() =~= events);
    assert(failed.push(EventModel::Done).drop_last() =~= failed);
}

/// What succeeds leads on: from the lock over recovery, the consent, the comparison, the
/// shells and the hooks to the flush of the plan, and from the hooks afterwards over the
/// orphans, the commit and the clearing up to the end. A run whose caller holds the lock
/// does not remove orphans.
pub proof fn success_leads_on(policy: LockPolicy, shape: Seq<nat>, events: Seq<EventModel>, e: EventModel)
    ensures
        ({
            let m = run_after(policy, shape, events);
            let next = run_after(policy, shape, events.push(e)).stage;
            let done = e is Done;
            let hooks = e matches EventModel::Hooks { failed, .. } && failed is None;
            &&& m.stage is Lock && done ==> next is Recover
            &&& m.stage is Recover && done ==> next is Gate
            &&& m.stage is Gate && (e matches EventModel::Gate { decision } && decision
                != GateDecision::RequireElevation) ==> next is UpToDate
            &&& m.stage is UpToDate && e == (EventModel::UpToDate { up_to_date: false })
                ==> next is Shells
            &&& m.stage is Shells && done ==> next is PreHooks
            &&& m.stage is PreHooks && hooks ==> next is Flush
            &&& m.stage is BackUp && done ==> next is Write
            &&& m.stage is PostHooks && hooks ==> next == (if policy is Held {
                Stage::Commit
            } else {
                Stage::Reap
            })
            &&& m.stage is Reap && done ==> next is Commit
            &&& m.stage is Commit && done ==> next is Retain
            &&& m.stage is Retain && e is Retained ==> next is PruneCycles
            &&& m.stage is PruneCycles && done ==> next is PruneRemotes
            &&& m.stage is PruneRemotes && (done || e is Failed) ==> next is Finished
        }),
{
    keeps_its_policy(policy, shape, events);
    assert(events.push(e).drop_last() =~= events);
}

proof fn keeps_its_policy(policy: LockPolicy, shape: Seq<nat>, events: Seq<EventModel>)
    ensures
        run_after(policy, shape, events).policy == policy,
    decreases events.len(),
{
    if events.len() > 0 {
        keeps_its_policy(policy, shape, events.drop_last());
    }
}

/// The warnings of a run are those of the hooks afterwards, and it ends with them.
pub proof fn runs_end_with_their_warnings(
    policy: LockPolicy,
    shape: Seq<nat>,
    events: Seq<EventModel>,
    warnings: Seq<Seq<char>>,
)
    ensures
        run_after(policy, shape, events).stage is PostHooks ==> run_after(
            policy,
            shape,
            events.push(EventModel::Hooks { warnings, failed: None }),
        ).warnings == warnings,
        run_after(policy, shape, events).stage is PruneRemotes ==> run_after(
            policy,
            shape,
            events.push(EventModel::Done),
        ).end == Some(
            EndModel::Settled {
                result: ResultModel::Applied {
                    warnings: run_after(policy, shape, events).warnings,
                    up_to_date: false,
                },
            },
        ),
{
    assert(events.push(EventModel::Hooks { warnings, failed: None }).drop_last() =~= events);
    assert(events.push(EventModel::Done).drop_last() =~= events);
}

proof fn next_places_exist(shape: Seq<nat>, op: int, target: int)
    requires
        0 <= op,
        0 <= target,
    ensures
        ({
            let (o, t) = next_place(shape, op, target);
            &&& op <= o && 0 <= t
            &&& o < shape.len() ==> t < shape[o]
            &&& forall|k: int| op < k < o && k < shape.len() ==> #[trigger] shape[k] == 0
            &&& o > op && op < shape.len() ==> target >= shape[op]
            &&& o == op ==> t == target
            &&& o > op ==> t == 0
        }),
    decreases shape.len() - op,
{
    if op < shape.len() && target >= shape[op] {
        next_places_exist(shape, op + 1, 0);
    }
}

/// A run backs up and writes only at a target that there is.
pub proof fn runs_write_at_targets_that_there_are(
    policy: LockPolicy,
    shape: Seq<nat>,
    events: Seq<EventModel>,
)
    ensures
        ({
            let m = run_after(policy, shape, events);
            &&& 0 <= m.op && 0 <= m.target
            &&& m.stage is BackUp || m.stage is Write ==> m.op < shape.len() && m.target
                < shape[m.op]
        }),
    decreases events.len(),
{
    if events.len() > 0 {
        let front = events.drop_last();
        runs_write_at_targets_that_there_are(policy, shape, front);
        let m = run_after(policy, shape, front);
        next_places_exist(shape, m.op, m.target);
        next_places_exist(shape, m.op, m.target + 1);
    }
}

/// Behind a target that is written without an object to note, the run goes on at the next
/// target of the same operation, if there is one, and else at the first of the next operation
/// that has any. Where there is none it goes on to the hooks.
pub proof fn runs_go_on_at_the_next_target(
    policy: LockPolicy,
    shape: Seq<nat>,
    events: Seq<EventModel>,
    records: Seq<CompletionModel>,
    o: int,
)
    requires
        run_after(policy, shape, events).stage is Write,
        records.len() == 0,
        ({
            let m = run_after(policy, shape, events);
            &&& m.op < o <= shape.len()
            &&& forall|k: int| m.op < k < o ==> #[trigger] shape[k] == 0
            &&& o < shape.len() ==> shape[o] > 0
        }),
    ensures
        ({
            let m = run_after(policy, shape, events);
            let next = run_after(policy, shape, events.push(EventModel::Written { records }));
            if m.target + 1 < shape[m.op] {
                next.stage is BackUp && next.op == m.op && next.target == m.target + 1
            } else if o < shape.len() {
                next.stage is BackUp && next.op == o && next.target == 0
            } else {
                next.stage is PostHooks
            }
        }),
{
    runs_write_at_targets_that_there_are(policy, shape, events);
    let m = run_after(policy, shape, events);
    let e = EventModel::Written { records };
    assert(events.push(e).drop_last() =~= events);
    next_places_exist(shape, m.op, m.target + 1);
    let (at, target) = next_place(shape, m.op, m.target + 1);
    if m.target + 1 >= shape[m.op] {
        if at < o {
            assert(shape[at] == 0 || at == m.op);
        }
        if at > o && o < shape.len() {
            assert(shape[o] == 0);
        }
    }
}

/// Objects are noted one by one: the number of the next is how many were noted.
pub proof fn objects_are_numbered_in_order(
    policy: LockPolicy,
    shape: Seq<nat>,
    events: Seq<EventModel>,
)
    ensures
        ({
            let m = run_after(policy, shape, events);
            m.completed.len() <= u32::MAX ==> m.progress == m.completed.len()
        }),
    decreases events.len(),
{
    if events.len() > 0 {
        objects_are_numbered_in_order(policy, shape, events.drop_last());
    }
}

/// What a run does is told by where it stands: it takes the lock, recovers, writes the
/// target at its place, notes the next object, commits, and so on. It waits for the lock
/// only where it may, and keeps ten cycles.
pub proof fn runs_do_what_their_stage_asks(run: Run, action: RunAction)
    requires
        call_ensures(Run::next_action, (&run,), action),
    ensures
        action is Lock <==> run.stage is Lock,
        action matches RunAction::Lock { wait } ==> (wait <==> run.policy is Blocking),
        action is Recover <==> run.stage is Recover,
        action is CheckGate <==> run.stage is Gate,
        action is CheckUpToDate <==> run.stage is UpToDate,
        action matches RunAction::CheckUpToDate { reap } ==> (reap <==> !(run.policy is Held)),
        action is ResolveShells <==> run.stage is Shells,
        run.stage is PreHooks ==> action == (RunAction::RunHooks { event: HookEvent::PreApply }),
        run.stage is PostHooks ==> action == (RunAction::RunHooks { event: HookEvent::PostApply }),
        action is FlushPlan <==> run.stage is Flush,
        run.stage is BackUp ==> action == (RunAction::BackUp { op: run.op, target: run.target }),
        run.stage is Write ==> action == (RunAction::WriteTarget {
            op: run.op,
            target: run.target,
        }),
        run.stage is Progress ==> action == (RunAction::RecordProgress { index: run.progress }),
        action is Reverse <==> run.stage is Reverse,
        action is Reap <==> run.stage is Reap,
        action is Commit <==> run.stage is Commit,
        run.stage is Retain ==> action == (RunAction::Retain { keep: 10 }),
        action is PruneCycles <==> run.stage is PruneCycles,
        action is PruneRemotes <==> run.stage is PruneRemotes,
        action is Return <==> run.stage is Finished,
{
}

/// A run begins with the lock, or, where its caller holds it, with recovery.
pub proof fn runs_begin_with_the_lock(policy: LockPolicy, run: Run)
    requires
        call_ensures(Run::begin, (policy,), run),
    ensures
        run.policy == policy,
        policy is Held ==> run.stage is Recover,
        !(policy is Held) ==> run.stage is Lock,
        run.completed@.len() == 0,
        run.end is None,
{
    assert(run@ == begun(policy));
    assert(run@.completed.len() == run.completed@.len());
}

} // verus!
