//! The course of an apply.
//!
//! A run is a row of actions, each decided by what the actions before it came to.
//! The lock comes first, and nothing is touched without it. A run that was cut off
//! is recovered before fresh work is begun. Where there is nothing to do, nothing is
//! written. The plan is flushed to the journal before the first target changes, and
//! the commit is written only when every target is and every hook has passed. When a
//! hook fails afterwards, what was written is taken back and nothing is committed.

use crate::backups::RETENTION_COUNT;
use crate::config::HookEvent;
use crate::error::EngineError;
use crate::text::opt_view;
use crate::text::views;
use super::commit_record::pairs;
use super::executors::CompletionModel;
use super::executors::CompletionRecord;
use super::executors::completion_models;
use super::hooks::ForceDeploy;
use super::planning::ResolvedModel;
use super::planning::ResolvedOperation;
use super::planning::resolved_models;
use vstd::prelude::*;

verus! {

/// What a run is asked to do.
#[derive(Debug, Clone)]
pub struct ApplyRequest {
    /// Whether hooks may fail whatever they declare.
    pub force_deploy: ForceDeploy,
    /// Variables given on the command line, in order.
    pub cli_overrides: Vec<(String, String)>,
}

impl Default for ApplyRequest {
    fn default() -> (r: Self)
        ensures
            r.force_deploy is No,
            r.cli_overrides@.len() == 0,
    {
        ApplyRequest { force_deploy: ForceDeploy::No, cli_overrides: Vec::new() }
    }
}

/// How a run comes by the lock.
#[derive(Debug, Clone, Copy, PartialEq, Eq, Structural)]
#[non_exhaustive]
pub enum LockPolicy {
    /// It waits for it.
    Blocking,
    /// It asks once, and is refused where another holds it.
    NonBlocking,
    /// Its caller holds it.
    Held,
}

impl Default for LockPolicy {
    fn default() -> (r: Self)
        ensures
            r is Blocking,
    {
        LockPolicy::Blocking
    }
}

/// Whether a run may make symbolic links on this host.
#[derive(Debug, Clone, Copy, PartialEq, Eq, Structural)]
pub enum GateDecision {
    /// It may.
    Proceed,
    /// It may, because it is elevated, which is discouraged.
    ProceedElevatedWarning,
    /// It may not.
    RequireElevation,
}

/// How a run settled.
#[derive(Debug, Clone, PartialEq, Eq)]
pub enum ApplyResult {
    /// Everything succeeded.
    Applied {
        /// What is to be said of hooks that failed and may.
        warnings: Vec<String>,
        /// Whether there was nothing to do.
        up_to_date: bool,
    },
    /// A hook failed after the targets were written, and they were taken back.
    RolledBack {
        /// The command of the hook.
        failed_hook: String,
    },
    /// A hook failed before any target was written.
    Aborted {
        /// The command of the hook.
        failed_hook: String,
    },
}

/// How a run settled, with its texts as sequences of characters.
#[verifier::ext_equal]
pub ghost enum ResultModel {
    /// Everything succeeded.
    Applied {
        /// What is to be said of hooks that failed and may.
        warnings: Seq<Seq<char>>,
        /// Whether there was nothing to do.
        up_to_date: bool,
    },
    /// A hook failed after the targets were written.
    RolledBack {
        /// The command of the hook.
        failed_hook: Seq<char>,
    },
    /// A hook failed before any target was written.
    Aborted {
        /// The command of the hook.
        failed_hook: Seq<char>,
    },
}

impl View for ApplyResult {
    type V = ResultModel;

    open spec fn view(&self) -> ResultModel {
        match *self {
            ApplyResult::Applied { warnings, up_to_date } => ResultModel::Applied {
                warnings: views(warnings@),
                up_to_date,
            },
            ApplyResult::RolledBack { failed_hook } => ResultModel::RolledBack {
                failed_hook: failed_hook@,
            },
            ApplyResult::Aborted { failed_hook } => ResultModel::Aborted {
                failed_hook: failed_hook@,
            },
        }
    }
}

/// How a run ended.
#[derive(Debug, Clone, PartialEq, Eq)]
pub enum RunEnd {
    /// It settled.
    Settled {
        /// How.
        result: ApplyResult,
    },
    /// It failed.
    Failed {
        /// Why.
        error: EngineError,
    },
}

/// How a run ended, with its texts as sequences of characters.
#[verifier::ext_equal]
pub ghost enum EndModel {
    /// It settled.
    Settled {
        /// How.
        result: ResultModel,
    },
    /// It failed.
    Failed {
        /// Why.
        error: EngineError,
    },
}

/// The model of the end of a run, if it has come.
pub open spec fn end_view(end: Option<RunEnd>) -> Option<EndModel> {
    match end {
        Some(RunEnd::Settled { result }) => Some(EndModel::Settled { result: result@ }),
        Some(RunEnd::Failed { error }) => Some(EndModel::Failed { error }),
        None => None,
    }
}

/// Where a run stands.
#[derive(Debug, Clone, Copy, PartialEq, Eq, Structural)]
pub enum Stage {
    /// It needs the lock.
    Lock,
    /// Runs that were cut off are to be recovered.
    Recover,
    /// It is to be seen whether links can be made.
    Gate,
    /// It is to be seen whether there is anything to do.
    UpToDate,
    /// The shells of the hooks are to be found.
    Shells,
    /// The hooks before the targets are to run.
    PreHooks,
    /// The plan is to be flushed.
    Flush,
    /// What stands at a target is to be backed up.
    BackUp,
    /// A target is to be written.
    Write,
    /// A written object is to be noted in the cursor.
    Progress,
    /// The hooks after the targets are to run.
    PostHooks,
    /// What was written is to be taken back.
    Reverse,
    /// Orphans are to be removed.
    Reap,
    /// The commit is to be written.
    Commit,
    /// Old backups are to be removed.
    Retain,
    /// The sentinels of removed backups are to be removed.
    PruneCycles,
    /// Checkouts that nothing needs are to be removed.
    PruneRemotes,
    /// It has ended.
    Finished,
}

/// What is to be done next.
#[derive(Debug, Clone, Copy, PartialEq, Eq, Structural)]
pub enum RunAction {
    /// Take the lock.
    Lock {
        /// Whether to wait for it.
        wait: bool,
    },
    /// Recover the runs that were cut off.
    Recover,
    /// Say whether links can be made.
    CheckGate,
    /// Say whether there is nothing to do.
    CheckUpToDate {
        /// Whether the run removes orphans.
        reap: bool,
    },
    /// Find the shells of the hooks.
    ResolveShells,
    /// Run the hooks of an event.
    RunHooks {
        /// The event.
        event: HookEvent,
    },
    /// Flush the plan to the journal.
    FlushPlan,
    /// Back up what stands at a target, if it is not unchanged.
    BackUp {
        /// The place of the operation.
        op: usize,
        /// The place of the target.
        target: usize,
    },
    /// Write a target, if it is not unchanged.
    WriteTarget {
        /// The place of the operation.
        op: usize,
        /// The place of the target.
        target: usize,
    },
    /// Note a written object in the cursor.
    RecordProgress {
        /// The number of the object.
        index: u32,
    },
    /// Take back what was written.
    Reverse,
    /// Back up and remove the orphans.
    Reap,
    /// Write the commit.
    Commit,
    /// Remove all but the newest backups.
    Retain {
        /// How many stay.
        keep: usize,
    },
    /// Remove the sentinels of the removed backups.
    PruneCycles,
    /// Remove the checkouts that nothing needs.
    PruneRemotes,
    /// Return.
    Return,
}

/// What an action came to.
#[derive(Debug, Clone, PartialEq, Eq)]
pub enum RunEvent {
    /// It is done.
    Done,
    /// It failed.
    Failed {
        /// Why.
        error: EngineError,
    },
    /// Whether links can be made.
    Gate {
        /// The decision.
        decision: GateDecision,
    },
    /// Whether there is nothing to do.
    UpToDate {
        /// Whether there is nothing to do.
        up_to_date: bool,
    },
    /// The hooks of an event have run.
    Hooks {
        /// What is to be said of those that failed and may.
        warnings: Vec<String>,
        /// The command of the one that failed and must not.
        failed: Option<String>,
    },
    /// A target was written.
    Written {
        /// The objects that were written.
        records: Vec<CompletionRecord>,
    },
    /// Old backups were removed.
    Retained {
        /// The cycles that went.
        pruned: Vec<String>,
    },
}

/// What an action came to, with its texts as sequences of characters.
#[verifier::ext_equal]
pub ghost enum EventModel {
    /// It is done.
    Done,
    /// It failed.
    Failed {
        /// Why.
        error: EngineError,
    },
    /// Whether links can be made.
    Gate {
        /// The decision.
        decision: GateDecision,
    },
    /// Whether there is nothing to do.
    UpToDate {
        /// Whether there is nothing to do.
        up_to_date: bool,
    },
    /// The hooks of an event have run.
    Hooks {
        /// What is to be said of those that failed and may.
        warnings: Seq<Seq<char>>,
        /// The command of the one that failed and must not.
        failed: Option<Seq<char>>,
    },
    /// A target was written.
    Written {
        /// The objects that were written.
        records: Seq<CompletionModel>,
    },
    /// Old backups were removed.
    Retained {
        /// The cycles that went.
        pruned: Seq<Seq<char>>,
    },
}

impl View for RunEvent {
    type V = EventModel;

    open spec fn view(&self) -> EventModel {
        match *self {
            RunEvent::Done => EventModel::Done,
            RunEvent::Failed { error } => EventModel::Failed { error },
            RunEvent::Gate { decision } => EventModel::Gate { decision },
            RunEvent::UpToDate { up_to_date } => EventModel::UpToDate { up_to_date },
            RunEvent::Hooks { warnings, failed } => EventModel::Hooks {
                warnings: views(warnings@),
                failed: opt_view(failed),
            },
            RunEvent::Written { records } => EventModel::Written {
                records: completion_models(records@),
            },
            RunEvent::Retained { pruned } => EventModel::Retained { pruned: views(pruned@) },
        }
    }
}

/// A run in its course.
#[derive(Debug, Clone, PartialEq, Eq)]
pub struct Run {
    /// How it comes by the lock.
    pub policy: LockPolicy,
    /// Where it stands.
    pub stage: Stage,
    /// The place of the operation to write next.
    pub op: usize,
    /// The place of the target to write next.
    pub target: usize,
    /// The number of the next object to note.
    pub progress: u32,
    /// The objects that were written and are not noted yet.
    pub pending: Vec<CompletionRecord>,
    /// The objects that were written and noted.
    pub completed: Vec<CompletionRecord>,
    /// What is to be said of hooks that failed and may.
    pub warnings: Vec<String>,
    /// The command of a hook that failed after the targets were written.
    pub failed_hook: Option<String>,
    /// The cycles whose backups were removed.
    pub pruned: Vec<String>,
    /// How it ended.
    pub end: Option<RunEnd>,
}

/// A run with its texts as sequences of characters.
#[verifier::ext_equal]
pub ghost struct RunModel {
    /// How it comes by the lock.
    pub policy: LockPolicy,
    /// Where it stands.
    pub stage: Stage,
    /// The place of the operation to write next.
    pub op: int,
    /// The place of the target to write next.
    pub target: int,
    /// The number of the next object to note.
    pub progress: int,
    /// The objects that were written and are not noted yet.
    pub pending: Seq<CompletionModel>,
    /// The objects that were written and noted.
    pub completed: Seq<CompletionModel>,
    /// What is to be said of hooks that failed and may.
    pub warnings: Seq<Seq<char>>,
    /// The command of a hook that failed after the targets were written.
    pub failed_hook: Option<Seq<char>>,
    /// The cycles whose backups were removed.
    pub pruned: Seq<Seq<char>>,
    /// How it ended.
    pub end: Option<EndModel>,
}

impl View for Run {
    type V = RunModel;

    open spec fn view(&self) -> RunModel {
        RunModel {
            policy: self.policy,
            stage: self.stage,
            op: self.op as int,
            target: self.target as int,
            progress: self.progress as int,
            pending: completion_models(self.pending@),
            completed: completion_models(self.completed@),
            warnings: views(self.warnings@),
            failed_hook: opt_view(self.failed_hook),
            pruned: views(self.pruned@),
            end: end_view(self.end),
        }
    }
}

/// The number of targets of each operation of a plan.
pub open spec fn shape(ops: Seq<ResolvedModel>) -> Seq<nat> {
    ops.map_values(|op: ResolvedModel| pairs(op))
}

/// The first place at or behind a place of a plan where there is a target, or the
/// end of the plan.
pub open spec fn next_place(shape: Seq<nat>, op: int, target: int) -> (int, int)
    decreases shape.len() - op,
{
    if op >= shape.len() {
        (op, target)
    } else if target < shape[op] {
        (op, target)
    } else {
        next_place(shape, op + 1, 0)
    }
}

/// A run that goes on writing: what was written is noted first, then the next target
/// is backed up and written, and behind the last one the hooks run.
pub open spec fn writing(m: RunModel, shape: Seq<nat>) -> RunModel {
    if m.pending.len() > 0 {
        RunModel { stage: Stage::Progress, ..m }
    } else {
        let (op, target) = next_place(shape, m.op, m.target);
        RunModel {
            stage: if op >= shape.len() {
                Stage::PostHooks
            } else {
                Stage::BackUp
            },
            op,
            target,
            ..m
        }
    }
}

/// A run that has settled.
pub open spec fn settled(m: RunModel, result: ResultModel) -> RunModel {
    RunModel { stage: Stage::Finished, end: Some(EndModel::Settled { result }), ..m }
}

/// A run that has failed.
pub open spec fn broken(m: RunModel, error: EngineError) -> RunModel {
    RunModel { stage: Stage::Finished, end: Some(EndModel::Failed { error }), ..m }
}

/// The number behind a number of an object, as far as the cursor can count.
pub open spec fn next_index(n: int) -> int {
    if n < u32::MAX {
        n + 1
    } else {
        n
    }
}

/// A run after an action came to something. What does not belong to where it stands
/// changes nothing.
pub open spec fn advanced(m: RunModel, shape: Seq<nat>, e: EventModel) -> RunModel {
    match (m.stage, e) {
        (Stage::Finished, _) => m,
        (Stage::PruneRemotes, EventModel::Done) | (
            Stage::PruneRemotes,
            EventModel::Failed { .. },
        ) => settled(m, ResultModel::Applied { warnings: m.warnings, up_to_date: false }),
        (_, EventModel::Failed { error }) => broken(m, error),
        (Stage::Lock, EventModel::Done) => RunModel { stage: Stage::Recover, ..m },
        (Stage::Recover, EventModel::Done) => RunModel { stage: Stage::Gate, ..m },
        (Stage::Gate, EventModel::Gate { decision }) => if decision is RequireElevation {
            broken(m, EngineError::DevModeRequired)
        } else {
            RunModel { stage: Stage::UpToDate, ..m }
        },
        (Stage::UpToDate, EventModel::UpToDate { up_to_date }) => if up_to_date {
            settled(m, ResultModel::Applied { warnings: Seq::empty(), up_to_date: true })
        } else {
            RunModel { stage: Stage::Shells, ..m }
        },
        (Stage::Shells, EventModel::Done) => RunModel { stage: Stage::PreHooks, ..m },
        (Stage::PreHooks, EventModel::Hooks { warnings, failed }) => match failed {
            Some(command) => settled(m, ResultModel::Aborted { failed_hook: command }),
            None => RunModel { stage: Stage::Flush, ..m },
        },
        (Stage::Flush, EventModel::Done) => writing(m, shape),
        (Stage::BackUp, EventModel::Done) => RunModel { stage: Stage::Write, ..m },
        (Stage::Write, EventModel::Written { records }) => writing(
            RunModel { target: m.target + 1, pending: records, ..m },
            shape,
        ),
        (Stage::Progress, EventModel::Done) => writing(
            RunModel {
                progress: next_index(m.progress),
                completed: m.completed.push(m.pending[0]),
                pending: m.pending.drop_first(),
                ..m
            },
            shape,
        ),
        (Stage::PostHooks, EventModel::Hooks { warnings, failed }) => RunModel {
            warnings,
            failed_hook: failed,
            stage: if failed is Some {
                Stage::Reverse
            } else if m.policy is Held {
                Stage::Commit
            } else {
                Stage::Reap
            },
            ..m
        },
        (Stage::Reverse, EventModel::Done) => match m.failed_hook {
            Some(command) => settled(m, ResultModel::RolledBack { failed_hook: command }),
            None => m,
        },
        (Stage::Reap, EventModel::Done) => RunModel { stage: Stage::Commit, ..m },
        (Stage::Commit, EventModel::Done) => RunModel { stage: Stage::Retain, ..m },
        (Stage::Retain, EventModel::Retained { pruned }) => RunModel {
            pruned,
            stage: Stage::PruneCycles,
            ..m
        },
        (Stage::PruneCycles, EventModel::Done) => RunModel { stage: Stage::PruneRemotes, ..m },
        _ => m,
    }
}

/// A run that begins. One whose caller holds the lock does not take it.
pub open spec fn begun(policy: LockPolicy) -> RunModel {
    RunModel {
        policy,
        stage: if policy is Held {
            Stage::Recover
        } else {
            Stage::Lock
        },
        op: 0,
        target: 0,
        progress: 0,
        pending: Seq::empty(),
        completed: Seq::empty(),
        warnings: Seq::empty(),
        failed_hook: None,
        pruned: Seq::empty(),
        end: None,
    }
}

/// What a run does next. One whose caller holds the lock removes no orphans: it was
/// made to record one target anew, and an orphan may be what its caller just made of
/// one.
pub open spec fn action_of(m: RunModel) -> RunAction {
    match m.stage {
        Stage::Lock => RunAction::Lock { wait: m.policy is Blocking },
        Stage::Recover => RunAction::Recover,
        Stage::Gate => RunAction::CheckGate,
        Stage::UpToDate => RunAction::CheckUpToDate { reap: !(m.policy is Held) },
        Stage::Shells => RunAction::ResolveShells,
        Stage::PreHooks => RunAction::RunHooks { event: HookEvent::PreApply },
        Stage::Flush => RunAction::FlushPlan,
        Stage::BackUp => RunAction::BackUp { op: m.op as usize, target: m.target as usize },
        Stage::Write => RunAction::WriteTarget { op: m.op as usize, target: m.target as usize },
        Stage::Progress => RunAction::RecordProgress { index: m.progress as u32 },
        Stage::PostHooks => RunAction::RunHooks { event: HookEvent::PostApply },
        Stage::Reverse => RunAction::Reverse,
        Stage::Reap => RunAction::Reap,
        Stage::Commit => RunAction::Commit,
        Stage::Retain => RunAction::Retain { keep: RETENTION_COUNT },
        Stage::PruneCycles => RunAction::PruneCycles,
        Stage::PruneRemotes => RunAction::PruneRemotes,
        Stage::Finished => RunAction::Return,
    }
}

/// A run after a row of events.
pub open spec fn run_after(policy: LockPolicy, shape: Seq<nat>, events: Seq<EventModel>) -> RunModel
    decreases events.len(),
{
    if events.len() == 0 {
        begun(policy)
    } else {
        advanced(run_after(policy, shape, events.drop_last()), shape, events.last())
    }
}

impl Run {
    /// Whether the places of a run lie in its plan.
    pub open spec fn fits(self, ops: Seq<ResolvedOperation>) -> bool {
        &&& self.stage is BackUp || self.stage is Write ==> self.op < ops.len() && self.target < shape(
            resolved_models(ops),
        )[self.op as int]
        &&& self.stage is Progress ==> self.pending@.len() > 0
    }

    /// The beginning of a run.
    pub fn begin(policy: LockPolicy) -> (r: Self)
        ensures
            r@ == begun(policy),
            forall|ops: Seq<ResolvedOperation>| #[trigger] r.fits(ops),
    {
        let stage: Stage = match policy {
            LockPolicy::Held => Stage::Recover,
            _ => Stage::Lock,
        };
        let r: Self = Run {
            policy,
            stage,
            op: 0,
            target: 0,
            progress: 0,
            pending: Vec::new(),
            completed: Vec::new(),
            warnings: Vec::new(),
            failed_hook: None,
            pruned: Vec::new(),
            end: None,
        };
        proof {
            assert(completion_models(r.pending@) =~= Seq::<CompletionModel>::empty());
            assert(completion_models(r.completed@) =~= Seq::<CompletionModel>::empty());
            assert(views(r.warnings@) =~= Seq::<Seq<char>>::empty());
            assert(views(r.pruned@) =~= Seq::<Seq<char>>::empty());
        }
        r
    }

    /// What the run does next.
    pub fn next_action(&self) -> (r: RunAction)
        ensures
            r == action_of(self@),
    {
        match self.stage {
            Stage::Lock => RunAction::Lock { wait: self.policy == LockPolicy::Blocking },
            Stage::Recover => RunAction::Recover,
            Stage::Gate => RunAction::CheckGate,
            Stage::UpToDate => RunAction::CheckUpToDate { reap: self.policy != LockPolicy::Held },
            Stage::Shells => RunAction::ResolveShells,
            Stage::PreHooks => RunAction::RunHooks { event: HookEvent::PreApply },
            Stage::Flush => RunAction::FlushPlan,
            Stage::BackUp => RunAction::BackUp { op: self.op, target: self.target },
            Stage::Write => RunAction::WriteTarget { op: self.op, target: self.target },
            Stage::Progress => RunAction::RecordProgress { index: self.progress },
            Stage::PostHooks => RunAction::RunHooks { event: HookEvent::PostApply },
            Stage::Reverse => RunAction::Reverse,
            Stage::Reap => RunAction::Reap,
            Stage::Commit => RunAction::Commit,
            Stage::Retain => RunAction::Retain { keep: RETENTION_COUNT },
            Stage::PruneCycles => RunAction::PruneCycles,
            Stage::PruneRemotes => RunAction::PruneRemotes,
            Stage::Finished => RunAction::Return,
        }
    }

    fn settle(&mut self, result: ApplyResult)
        ensures
            final(self)@ == settled(old(self)@, result@),
    {
        self.stage = Stage::Finished;
        self.end = Some(RunEnd::Settled { result });
    }

    fn fail(&mut self, error: EngineError)
        ensures
            final(self)@ == broken(old(self)@, error),
    {
        self.stage = Stage::Finished;
        self.end = Some(RunEnd::Failed { error });
    }

    fn go_on_writing(&mut self, ops: &Vec<ResolvedOperation>)
        ensures
            final(self)@ == writing(old(self)@, shape(resolved_models(ops@))),
            final(self).fits(ops@),
    {
        if self.pending.len() > 0 {
            self.stage = Stage::Progress;
            return;
        }
        let ghost places = shape(resolved_models(ops@));
        let ghost from = self@;
        while self.op < ops.len() && (self.target >= ops[self.op].targets.len() || self.target
            >= ops[self.op].dispositions.len())
            invariant
                places == shape(resolved_models(ops@)),
                next_place(places, self.op as int, self.target as int) == next_place(
                    places,
                    from.op,
                    from.target,
                ),
                self@ == (RunModel { op: self.op as int, target: self.target as int, ..from }),
            decreases ops@.len() - self.op,
        {
            assert(places[self.op as int] == pairs(ops@[self.op as int]@));
            self.op = self.op + 1;
            self.target = 0;
        }
        if self.op < ops.len() {
            assert(places[self.op as int] == pairs(ops@[self.op as int]@));
            self.stage = Stage::BackUp;
        } else {
            self.stage = Stage::PostHooks;
        }
    }

    /// Takes down what an action came to. What does not belong to where the run
    /// stands changes nothing.
    pub fn advance(&mut self, ops: &Vec<ResolvedOperation>, event: RunEvent)
        requires
            old(self).fits(ops@),
        ensures
            final(self)@ == advanced(old(self)@, shape(resolved_models(ops@)), event@),
            final(self).fits(ops@),
    {
        match (self.stage, event) {
            (Stage::Finished, _) => {},
            (Stage::PruneRemotes, RunEvent::Done) | (
                Stage::PruneRemotes,
                RunEvent::Failed { .. },
            ) => {
                let mut warnings: Vec<String> = Vec::new();
                let ghost all = views(self.warnings@);
                let mut i: usize = 0;
                while i < self.warnings.len()
                    invariant
                        i <= self.warnings@.len(),
                        warnings@.len() == i,
                        forall|k: int|
                            0 <= k < i ==> (#[trigger] warnings@[k])@ == self.warnings@[k]@,
                    decreases self.warnings@.len() - i,
                {
                    warnings.push(self.warnings[i].clone());
                    i = i + 1;
                }
                assert(views(warnings@) =~= views(self.warnings@));
                self.settle(ApplyResult::Applied { warnings, up_to_date: false });
            },
            (_, RunEvent::Failed { error }) => self.fail(error),
            (Stage::Lock, RunEvent::Done) => self.stage = Stage::Recover,
            (Stage::Recover, RunEvent::Done) => self.stage = Stage::Gate,
            (Stage::Gate, RunEvent::Gate { decision }) => {
                if decision == GateDecision::RequireElevation {
                    self.fail(EngineError::DevModeRequired);
                } else {
                    self.stage = Stage::UpToDate;
                }
            },
            (Stage::UpToDate, RunEvent::UpToDate { up_to_date }) => {
                if up_to_date {
                    let none: Vec<String> = Vec::new();
                    assert(views(none@) =~= Seq::<Seq<char>>::empty());
                    self.settle(ApplyResult::Applied { warnings: none, up_to_date: true });
                } else {
                    self.stage = Stage::Shells;
                }
            },
            (Stage::Shells, RunEvent::Done) => self.stage = Stage::PreHooks,
            (Stage::PreHooks, RunEvent::Hooks { warnings: _, failed }) => match failed {
                Some(command) => self.settle(ApplyResult::Aborted { failed_hook: command }),
                None => self.stage = Stage::Flush,
            },
            (Stage::Flush, RunEvent::Done) => self.go_on_writing(ops),
            (Stage::BackUp, RunEvent::Done) => self.stage = Stage::Write,
            (Stage::Write, RunEvent::Written { records }) => {
                assert(shape(resolved_models(ops@))[self.op as int] == pairs(
                    ops@[self.op as int]@,
                ));
                let count: usize = ops[self.op].targets.len();
                assert(self.target < count);
                self.target = self.target + 1;
                self.pending = records;
                self.go_on_writing(ops);
            },
            (Stage::Progress, RunEvent::Done) => {
                let ghost waiting = completion_models(self.pending@);
                let ghost noted = completion_models(self.completed@);
                let record: CompletionRecord = self.pending.remove(0);
                self.progress = if self.progress < u32::MAX {
                    self.progress + 1
                } else {
                    self.progress
                };
                self.completed.push(record);
                proof {
                    assert(completion_models(self.pending@) =~= waiting.drop_first());
                    assert(completion_models(self.completed@) =~= noted.push(waiting[0]));
                }
                self.go_on_writing(ops);
            },
            (Stage::PostHooks, RunEvent::Hooks { warnings, failed }) => {
                self.stage = if failed.is_some() {
                    Stage::Reverse
                } else if self.policy == LockPolicy::Held {
                    Stage::Commit
                } else {
                    Stage::Reap
                };
                self.warnings = warnings;
                self.failed_hook = failed;
            },
            (Stage::Reverse, RunEvent::Done) => match &self.failed_hook {
                Some(command) => {
                    let failed_hook: String = command.clone();
                    self.settle(ApplyResult::RolledBack { failed_hook });
                },
                None => {},
            },
            (Stage::Reap, RunEvent::Done) => self.stage = Stage::Commit,
            (Stage::Commit, RunEvent::Done) => self.stage = Stage::Retain,
            (Stage::Retain, RunEvent::Retained { pruned }) => {
                self.pruned = pruned;
                self.stage = Stage::PruneCycles;
            },
            (Stage::PruneCycles, RunEvent::Done) => self.stage = Stage::PruneRemotes,
            _ => {},
        }
    }
}

} // verus!
