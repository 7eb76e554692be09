//! Reversing a run that was cut off.
//!
//! A plan without a sentinel beside it is an orphan: the run that recorded it
//! never finished. Recovery takes every target of an orphan back to what it was,
//! never forward. The disposition in the plan decides, and after it the backup:
//!
//! - `Unchanged`: the run neither backed up nor wrote the target. It stays.
//! - A backup exists: it is restored.
//! - No backup and `Create`: the target was not there before. It is removed.
//! - No backup and `Update`: the backup is made before the write, so the write
//!   never started. The target stays.
//!
//! Only when every operation is reversed are the plan and the cursor deleted. A
//! recovery that is itself cut off is therefore repeated, which changes nothing
//! more.

use crate::text::views;
use super::Disposition;
use super::JournalError;
use super::Plan;
use super::PlannedOperation;
use super::history::NameStep;
use super::history::after_steps;
use super::history::commit_is_atomic;
use super::history::commit_steps;
use super::history::orphan;
use super::names::commit_name;
use super::names::names_are_apart;
use super::names::plan_name;
use super::names::progress_name;
use super::names::rolled_back_name;
use super::plan::OperationModel;
use super::plan::operation_models;
use super::plan::plan_file;
use super::probe::mirror;
use super::probe::mirror_backup_path;
use super::probe::operation_target;
use vstd::prelude::*;

verus! {

/// The runs that one recovery reversed.
#[derive(Debug, Clone, PartialEq, Eq)]
pub struct RecoveryReport {
    recovered: Vec<String>,
}

impl View for RecoveryReport {
    type V = Seq<Seq<char>>;

    closed spec fn view(&self) -> Seq<Seq<char>> {
        views(self.recovered@)
    }
}

impl Default for RecoveryReport {
    fn default() -> (r: Self)
        ensures
            r@.len() == 0,
    {
        RecoveryReport { recovered: Vec::new() }
    }
}

impl RecoveryReport {
    /// The report of a recovery that reversed the runs `recovered`.
    pub fn of(recovered: Vec<String>) -> (r: Self)
        ensures
            r@ == views(recovered@),
    {
        RecoveryReport { recovered }
    }

    /// The IDs of the runs that were reversed.
    pub fn recovered_timestamps(&self) -> (ids: &[String])
        ensures
            views(ids@) == self@,
    {
        self.recovered.as_slice()
    }

    /// Whether any run was reversed.
    pub fn recovered_any(&self) -> (r: bool)
        ensures
            r == (self@.len() > 0),
    {
        self.recovered.len() > 0
    }
}

/// What reversing an operation does to its target.
#[derive(Debug, Clone, Copy, PartialEq, Eq, Structural)]
pub enum Reversal {
    /// The target stays as it is.
    Leave,
    /// The backup replaces the target.
    Restore,
    /// The target is removed, if it is there.
    Delete,
}

/// What reversing an operation does, by its disposition and by whether its
/// target has a backup.
pub open spec fn reversal(disposition: Disposition, has_backup: bool) -> Reversal {
    if disposition is Unchanged {
        Reversal::Leave
    } else if has_backup {
        Reversal::Restore
    } else if disposition is Create {
        Reversal::Delete
    } else {
        Reversal::Leave
    }
}

/// What reversing an operation does, by its disposition and by whether its
/// target has a backup.
pub fn reverse_operation(disposition: Disposition, has_backup: bool) -> (r: Reversal)
    ensures
        r == reversal(disposition, has_backup),
{
    match disposition {
        Disposition::Unchanged => Reversal::Leave,
        Disposition::Create => {
            if has_backup {
                Reversal::Restore
            } else {
                Reversal::Delete
            }
        },
        Disposition::Update => {
            if has_backup {
                Reversal::Restore
            } else {
                Reversal::Leave
            }
        },
    }
}

/// One operation to reverse.
#[derive(Debug, Clone, PartialEq, Eq)]
pub struct ReverseStep {
    /// The target.
    pub target: String,
    /// Where its backup lies, if it has one.
    pub backup: String,
    /// How the target was classified at plan time.
    pub disposition: Disposition,
}

/// A step with its paths as sequences of characters.
#[verifier::ext_equal]
pub ghost struct StepModel {
    /// The target.
    pub target: Seq<char>,
    /// Where its backup lies.
    pub backup: Seq<char>,
    /// How the target was classified at plan time.
    pub disposition: Disposition,
}

impl View for ReverseStep {
    type V = StepModel;

    open spec fn view(&self) -> StepModel {
        StepModel {
            target: self.target@,
            backup: self.backup@,
            disposition: self.disposition,
        }
    }
}

/// The step that reverses an operation of the run `id`.
pub open spec fn reverse_step(backups: Seq<char>, id: Seq<char>, op: OperationModel) -> StepModel {
    StepModel {
        target: op.target(),
        backup: mirror(backups, id, op.target()),
        disposition: op.disposition(),
    }
}

/// The models of a row of steps.
pub open spec fn step_models(steps: Seq<ReverseStep>) -> Seq<StepModel> {
    steps.map_values(|s: ReverseStep| s@)
}

/// The steps that reverse the run `timestamp`, one for each operation of its plan
/// and in the order of the plan. `plan_bytes` is its plan file.
pub fn reverse_steps(backups_dir: &str, timestamp: &str, plan_bytes: &[u8]) -> (r: Result<
    Vec<ReverseStep>,
    JournalError,
>)
    ensures
        match plan_file(plan_bytes@) {
            Err(e) => r == Err::<Vec<ReverseStep>, JournalError>(e),
            Ok(plan) => r matches Ok(steps) && step_models(steps@) == plan_steps(
                backups_dir@,
                timestamp@,
                plan.operations,
            ),
        },
{
    let plan: Plan = match Plan::decode(plan_bytes) {
        Ok(plan) => plan,
        Err(e) => return Err(e),
    };
    let ops: &[PlannedOperation] = plan.operations();
    let ghost f = |op: OperationModel| reverse_step(backups_dir@, timestamp@, op);
    let ghost all = plan@.operations;
    let mut steps: Vec<ReverseStep> = Vec::new();
    let mut i: usize = 0;
    while i < ops.len()
        invariant
            i <= ops@.len(),
            f == (|op: OperationModel| reverse_step(backups_dir@, timestamp@, op)),
            all == operation_models(ops@),
            steps@.len() == i,
            forall|k: int| 0 <= k < i ==> (#[trigger] steps@[k])@ == f(all[k]),
        decreases ops@.len() - i,
    {
        let op: &PlannedOperation = &ops[i];
        let target: &str = operation_target(op);
        assert(all[i as int] == op@);
        steps.push(
            ReverseStep {
                target: target.to_owned(),
                backup: mirror_backup_path(backups_dir, timestamp, target),
                disposition: op.disposition(),
            },
        );
        i = i + 1;
    }
    assert(step_models(steps@) =~= plan_steps(backups_dir@, timestamp@, all));
    Ok(steps)
}

/// What stands at a place after a step, given what its backup holds and what
/// stood there.
pub open spec fn reversed<E>(
    disposition: Disposition,
    backup: Option<E>,
    live: Option<E>,
) -> Option<E> {
    match reversal(disposition, backup is Some) {
        Reversal::Leave => live,
        Reversal::Restore => backup,
        Reversal::Delete => None,
    }
}

/// Whether what stands at a target, and its backup, is what a run can have left
/// there when it was cut off: a target classified `Create` was not there, one
/// classified `Unchanged` was not touched, a backup holds what was there, and
/// without a backup a target that was there was not written.
pub open spec fn cut_off<E>(
    disposition: Disposition,
    before: Option<E>,
    backup: Option<E>,
    live: Option<E>,
) -> bool {
    &&& backup is Some ==> backup == before
    &&& disposition is Unchanged ==> live == before
    &&& disposition is Create && backup is None ==> before is None
    &&& disposition is Update && backup is None ==> live == before
}

/// Reversing an operation takes its target back to what it was before the run,
/// wherever the run was cut off.
pub proof fn reversal_restores<E>(
    disposition: Disposition,
    before: Option<E>,
    backup: Option<E>,
    live: Option<E>,
)
    requires
        cut_off(disposition, before, backup, live),
    ensures
        reversed(disposition, backup, live) == before,
{
}

/// Reversing an operation twice is the same as reversing it once.
pub proof fn reversal_is_idempotent<E>(
    disposition: Disposition,
    backup: Option<E>,
    live: Option<E>,
)
    ensures
        reversed(disposition, backup, reversed(disposition, backup, live)) == reversed(
            disposition,
            backup,
            live,
        ),
{
}

/// What stands at a place of a filesystem.
pub open spec fn at<E>(world: Map<Seq<char>, E>, path: Seq<char>) -> Option<E> {
    if world.contains_key(path) {
        Some(world[path])
    } else {
        None
    }
}

/// A filesystem with something, or nothing, at a place.
pub open spec fn with_at<E>(
    world: Map<Seq<char>, E>,
    path: Seq<char>,
    entry: Option<E>,
) -> Map<Seq<char>, E> {
    match entry {
        Some(e) => world.insert(path, e),
        None => world.remove(path),
    }
}

/// A filesystem after the operations of a plan are reversed, in order, from the
/// backups of their targets.
pub open spec fn reversed_world<E>(
    ops: Seq<OperationModel>,
    backups: Map<Seq<char>, E>,
    world: Map<Seq<char>, E>,
) -> Map<Seq<char>, E>
    decreases ops.len(),
{
    if ops.len() == 0 {
        world
    } else {
        let w = reversed_world(ops.drop_last(), backups, world);
        let op = ops.last();
        with_at(w, op.target(), reversed(op.disposition(), at(backups, op.target()), at(w, op.target())))
    }
}

/// Recovery takes every target of a plan back to what it was before the run,
/// wherever the run was cut off, and touches nothing else.
pub proof fn recovery_restores_every_target<E>(
    ops: Seq<OperationModel>,
    before: Map<Seq<char>, E>,
    backups: Map<Seq<char>, E>,
    live: Map<Seq<char>, E>,
    path: Seq<char>,
)
    requires
        forall|i: int|
            0 <= i < ops.len() ==> cut_off(
                (#[trigger] ops[i]).disposition(),
                at(before, ops[i].target()),
                at(backups, ops[i].target()),
                at(live, ops[i].target()),
            ),
    ensures
        (exists|i: int| 0 <= i < ops.len() && (#[trigger] ops[i]).target() == path) ==> at(
            reversed_world(ops, backups, live),
            path,
        ) == at(before, path),
        !(exists|i: int| 0 <= i < ops.len() && (#[trigger] ops[i]).target() == path) ==> at(
            reversed_world(ops, backups, live),
            path,
        ) == at(live, path),
    decreases ops.len(),
{
    if ops.len() > 0 {
        let front = ops.drop_last();
        let op = ops.last();
        assert(ops[ops.len() - 1] == op);
        assert forall|i: int| 0 <= i < front.len() implies cut_off(
            (#[trigger] front[i]).disposition(),
            at(before, front[i].target()),
            at(backups, front[i].target()),
            at(live, front[i].target()),
        ) by {
            assert(front[i] == ops[i]);
        }
        recovery_restores_every_target(front, before, backups, live, path);
        recovery_restores_every_target(front, before, backups, live, op.target());
        assert(forall|i: int| 0 <= i < front.len() ==> #[trigger] ops[i] == front[i]);
        if op.target() == path {
            assert(ops[ops.len() - 1].target() == path);
        } else if exists|i: int| 0 <= i < ops.len() && (#[trigger] ops[i]).target() == path {
            let i = choose|i: int| 0 <= i < ops.len() && (#[trigger] ops[i]).target() == path;
            assert(front[i].target() == path);
        }
    }
}

/// A filesystem after a row of steps is taken, one after the other. `files` says what
/// stands at each place of a backup.
pub open spec fn after_reverse_steps<E>(
    steps: Seq<StepModel>,
    files: Map<Seq<char>, E>,
    world: Map<Seq<char>, E>,
) -> Map<Seq<char>, E>
    decreases steps.len(),
{
    if steps.len() == 0 {
        world
    } else {
        let w = after_reverse_steps(steps.drop_last(), files, world);
        let step = steps.last();
        with_at(
            w,
            step.target,
            reversed(step.disposition, at(files, step.backup), at(w, step.target)),
        )
    }
}

/// The steps that reverse the operations of a plan, in order.
pub open spec fn plan_steps(
    backups_dir: Seq<char>,
    id: Seq<char>,
    ops: Seq<OperationModel>,
) -> Seq<StepModel> {
    ops.map_values(|op: OperationModel| reverse_step(backups_dir, id, op))
}

/// Taking the steps that reverse a plan reverses its operations, from backups that lie
/// where the steps look for them.
pub proof fn steps_reverse_the_plan<E>(
    backups_dir: Seq<char>,
    id: Seq<char>,
    ops: Seq<OperationModel>,
    files: Map<Seq<char>, E>,
    backups: Map<Seq<char>, E>,
    world: Map<Seq<char>, E>,
)
    requires
        forall|i: int|
            0 <= i < ops.len() ==> at(files, mirror(backups_dir, id, (#[trigger] ops[i]).target()))
                == at(backups, ops[i].target()),
    ensures
        after_reverse_steps(plan_steps(backups_dir, id, ops), files, world) == reversed_world(
            ops,
            backups,
            world,
        ),
    decreases ops.len(),
{
    if ops.len() > 0 {
        let front = ops.drop_last();
        let steps = plan_steps(backups_dir, id, ops);
        assert(steps.drop_last() =~= plan_steps(backups_dir, id, front));
        assert(ops[ops.len() - 1] == ops.last());
        assert forall|i: int| 0 <= i < front.len() implies at(
            files,
            mirror(backups_dir, id, (#[trigger] front[i]).target()),
        ) == at(backups, front[i].target()) by {
            assert(front[i] == ops[i]);
        }
        steps_reverse_the_plan(backups_dir, id, front, files, backups, world);
    }
}

/// A filesystem and its backups in the course of a run.
#[verifier::ext_equal]
pub ghost struct World<E> {
    /// What stands at each path.
    pub live: Map<Seq<char>, E>,
    /// What the backup of each path holds.
    pub backups: Map<Seq<char>, E>,
}

/// A filesystem after what stands at the target of an operation is backed up. An
/// unchanged target is not.
pub open spec fn backed_up<E>(op: OperationModel, w: World<E>) -> World<E> {
    if op.disposition() is Unchanged {
        w
    } else {
        World { backups: with_at(w.backups, op.target(), at(w.live, op.target())), ..w }
    }
}

/// A filesystem after the target of an operation is written. An unchanged target is
/// not.
pub open spec fn written_to<E>(op: OperationModel, written: Option<E>, w: World<E>) -> World<E> {
    if op.disposition() is Unchanged {
        w
    } else {
        World { live: with_at(w.live, op.target(), written), ..w }
    }
}

/// What the first `done` steps of an apply do. Each operation of the plan has two: what
/// stands at its target is backed up, and the target is written. Neither is done where
/// the target is unchanged. `written` says what stands at each target after its write,
/// which may be anything: a write that is cut off leaves what it leaves.
pub open spec fn after_apply_steps<E>(
    ops: Seq<OperationModel>,
    before: Map<Seq<char>, E>,
    written: Seq<Option<E>>,
    done: nat,
) -> World<E>
    decreases done,
{
    if done == 0 {
        World { live: before, backups: Map::empty() }
    } else {
        let w = after_apply_steps(ops, before, written, (done - 1) as nat);
        let i = (done - 1) as int / 2;
        if (done - 1) % 2 == 0 {
            backed_up(ops[i], w)
        } else {
            written_to(ops[i], written[i], w)
        }
    }
}

/// Whether the operations of a plan have targets of their own, and say of each truly
/// whether it is there.
pub open spec fn plan_is_true<E>(ops: Seq<OperationModel>, before: Map<Seq<char>, E>) -> bool {
    &&& forall|i: int, j: int|
        0 <= i < j < ops.len() ==> (#[trigger] ops[i]).target() != (#[trigger] ops[j]).target()
    &&& forall|i: int|
        0 <= i < ops.len() ==> ((#[trigger] ops[i]).disposition() is Create ==> !before.contains_key(
            ops[i].target(),
        )) && (ops[i].disposition() is Update ==> before.contains_key(ops[i].target()))
}

/// What the steps of an apply leave at a target: nothing is done to it before the
/// steps of its operation, and nothing after them.
pub proof fn apply_leaves<E>(
    ops: Seq<OperationModel>,
    before: Map<Seq<char>, E>,
    written: Seq<Option<E>>,
    done: nat,
    i: int,
)
    requires
        plan_is_true(ops, before),
        done <= 2 * ops.len(),
        0 <= i < ops.len(),
    ensures
        ({
            let w = after_apply_steps(ops, before, written, done);
            let target = ops[i].target();
            &&& at(w.backups, target) == (if ops[i].disposition() is Unchanged || done <= 2 * i {
                None
            } else {
                at(before, target)
            })
            &&& at(w.live, target) == (if ops[i].disposition() is Unchanged || done <= 2 * i + 1 {
                at(before, target)
            } else {
                written[i]
            })
        }),
    decreases done,
{
    if done > 0 {
        apply_leaves(ops, before, written, (done - 1) as nat, i);
        let k = (done - 1) as int / 2;
        if k < i {
            assert(ops[k].target() != ops[i].target());
        } else if k > i {
            assert(ops[i].target() != ops[k].target());
        }
    }
}

/// The steps of an apply touch nothing but the targets of its plan.
pub proof fn apply_touches_its_targets<E>(
    ops: Seq<OperationModel>,
    before: Map<Seq<char>, E>,
    written: Seq<Option<E>>,
    done: nat,
    path: Seq<char>,
)
    requires
        done <= 2 * ops.len(),
        forall|i: int| 0 <= i < ops.len() ==> (#[trigger] ops[i]).target() != path,
    ensures
        at(after_apply_steps(ops, before, written, done).live, path) == at(before, path),
    decreases done,
{
    if done > 0 {
        apply_touches_its_targets(ops, before, written, (done - 1) as nat, path);
        let k = (done - 1) as int / 2;
        assert(ops[k].target() != path);
    }
}

/// An apply that is cut off at any point of its writing is undone by recovery: every
/// path holds what it held before. Places are taken to be apart: that one target may
/// lie inside another is not seen here.
pub proof fn cut_off_apply_is_undone<E>(
    ops: Seq<OperationModel>,
    before: Map<Seq<char>, E>,
    written: Seq<Option<E>>,
    done: nat,
    path: Seq<char>,
)
    requires
        plan_is_true(ops, before),
        done <= 2 * ops.len(),
    ensures
        ({
            let w = after_apply_steps(ops, before, written, done);
            at(reversed_world(ops, w.backups, w.live), path) == at(before, path)
        }),
{
    let w = after_apply_steps(ops, before, written, done);
    assert forall|i: int| 0 <= i < ops.len() implies cut_off(
        (#[trigger] ops[i]).disposition(),
        at(before, ops[i].target()),
        at(w.backups, ops[i].target()),
        at(w.live, ops[i].target()),
    ) by {
        apply_leaves(ops, before, written, done, i);
    }
    recovery_restores_every_target(ops, before, w.backups, w.live, path);
    if !(exists|i: int| 0 <= i < ops.len() && (#[trigger] ops[i]).target() == path) {
        apply_touches_its_targets(ops, before, written, done, path);
    }
}

/// What a recovery does to the names in the journal, after every target is
/// reversed.
pub open spec fn recovery_steps(id: Seq<char>) -> Seq<NameStep> {
    seq![NameStep::Drop { name: plan_name(id) }, NameStep::Drop { name: progress_name(id) }]
}

/// A run that was recovered is no orphan any more, even where the recovery was
/// cut off after it deleted the plan: a second recovery finds nothing to do.
pub proof fn recovery_closes_the_run(names: Set<Seq<char>>, id: Seq<char>, done: nat)
    requires
        1 <= done <= 2,
    ensures
        !orphan(after_steps(names, recovery_steps(id), done), id),
{
    reveal_with_fuel(after_steps, 3);
}

/// The plans of runs that were cut off, and the backups that each run made, by the IDs
/// of the runs.
#[verifier::ext_equal]
pub ghost struct CutOffRuns<E> {
    /// The operations of the plans.
    pub plans: Map<Seq<char>, Seq<OperationModel>>,
    /// What the backups hold.
    pub backups: Map<Seq<char>, Map<Seq<char>, E>>,
}

/// A filesystem after a row of runs is reversed, one after the other.
pub open spec fn recovered_world<E>(
    ids: Seq<Seq<char>>,
    runs: CutOffRuns<E>,
    world: Map<Seq<char>, E>,
) -> Map<Seq<char>, E>
    decreases ids.len(),
{
    if ids.len() == 0 {
        world
    } else {
        let w = recovered_world(ids.drop_last(), runs, world);
        reversed_world(runs.plans[ids.last()], runs.backups[ids.last()], w)
    }
}

/// The names in the journal after a row of runs is reversed, one after the other.
pub open spec fn recovered_names(ids: Seq<Seq<char>>, names: Set<Seq<char>>) -> Set<Seq<char>>
    decreases ids.len(),
{
    if ids.len() == 0 {
        names
    } else {
        after_steps(recovered_names(ids.drop_last(), names), recovery_steps(ids.last()), 2)
    }
}

/// Whether a path is a target of a run.
pub open spec fn is_target_of<E>(runs: CutOffRuns<E>, id: Seq<char>, path: Seq<char>) -> bool {
    exists|k: int|
        0 <= k < runs.plans[id].len() && (#[trigger] runs.plans[id][k]).target() == path
}

/// Whether a path is a target of one of a row of runs.
pub open spec fn is_target_of_any<E>(
    runs: CutOffRuns<E>,
    ids: Seq<Seq<char>>,
    path: Seq<char>,
) -> bool {
    exists|i: int| 0 <= i < ids.len() && #[trigger] is_target_of(runs, ids[i], path)
}

/// Whether what stands at the targets of a run is what it can have left there when it
/// was cut off.
pub open spec fn was_cut_off<E>(
    runs: CutOffRuns<E>,
    id: Seq<char>,
    before: Map<Seq<char>, E>,
    live: Map<Seq<char>, E>,
) -> bool {
    forall|k: int|
        0 <= k < runs.plans[id].len() ==> cut_off(
            (#[trigger] runs.plans[id][k]).disposition(),
            at(before, runs.plans[id][k].target()),
            at(runs.backups[id], runs.plans[id][k].target()),
            at(live, runs.plans[id][k].target()),
        )
}

/// Whether no two runs of a row share a target.
pub open spec fn runs_are_apart<E>(runs: CutOffRuns<E>, ids: Seq<Seq<char>>) -> bool {
    forall|i: int, j: int, path: Seq<char>|
        0 <= i < j < ids.len() && #[trigger] is_target_of(runs, ids[i], path)
            ==> !#[trigger] is_target_of(runs, ids[j], path)
}

/// A recovery takes back every run that was cut off: each of their targets holds what
/// it held before the runs, and nothing else is touched. No two of the runs share a
/// target.
pub proof fn recovery_takes_back_every_run<E>(
    ids: Seq<Seq<char>>,
    runs: CutOffRuns<E>,
    before: Map<Seq<char>, E>,
    live: Map<Seq<char>, E>,
    path: Seq<char>,
)
    requires
        runs_are_apart(runs, ids),
        forall|i: int| 0 <= i < ids.len() ==> #[trigger] was_cut_off(runs, ids[i], before, live),
    ensures
        at(recovered_world(ids, runs, live), path) == (if is_target_of_any(runs, ids, path) {
            at(before, path)
        } else {
            at(live, path)
        }),
    decreases ids.len(),
{
    if ids.len() > 0 {
        let front = ids.drop_last();
        let id = ids.last();
        let n = ids.len() - 1;
        let ops = runs.plans[id];
        let w = recovered_world(front, runs, live);
        assert forall|i: int, j: int, p: Seq<char>|
            0 <= i < j < front.len() && #[trigger] is_target_of(
                runs,
                front[i],
                p,
            ) implies !#[trigger] is_target_of(runs, front[j], p) by {
            assert(is_target_of(runs, ids[i], p));
            assert(!is_target_of(runs, ids[j], p));
        }
        assert forall|i: int| 0 <= i < front.len() implies #[trigger] was_cut_off(
            runs,
            front[i],
            before,
            live,
        ) by {
            assert(was_cut_off(runs, ids[i], before, live));
        }
        assert(was_cut_off(runs, ids[n], before, live));
        assert forall|k: int| 0 <= k < ops.len() implies cut_off(
            (#[trigger] ops[k]).disposition(),
            at(before, ops[k].target()),
            at(runs.backups[id], ops[k].target()),
            at(w, ops[k].target()),
        ) by {
            let target = ops[k].target();
            recovery_takes_back_every_run(front, runs, before, live, target);
            assert(is_target_of(runs, ids[n], target));
            assert(!is_target_of_any(runs, front, target)) by {
                if is_target_of_any(runs, front, target) {
                    let i = choose|i: int|
                        0 <= i < front.len() && #[trigger] is_target_of(runs, front[i], target);
                    assert(is_target_of(runs, ids[i], target));
                }
            }
            assert(at(w, target) == at(live, target));
        }
        recovery_restores_every_target(ops, before, runs.backups[id], w, path);
        recovery_takes_back_every_run(front, runs, before, live, path);
        assert(is_target_of_any(runs, ids, path) == (is_target_of_any(runs, front, path)
            || is_target_of(runs, id, path))) by {
            if is_target_of_any(runs, front, path) {
                let i = choose|i: int|
                    0 <= i < front.len() && #[trigger] is_target_of(runs, front[i], path);
                assert(is_target_of(runs, ids[i], path));
            }
            if is_target_of(runs, id, path) {
                assert(is_target_of(runs, ids[n], path));
            }
            if is_target_of_any(runs, ids, path) {
                let i = choose|i: int|
                    0 <= i < ids.len() && #[trigger] is_target_of(runs, ids[i], path);
                if i < n {
                    assert(is_target_of(runs, front[i], path));
                }
            }
        }
    }
}

/// What reversing a row of runs leaves in the journal: the plans and cursors of the
/// runs are gone, and everything else stays.
proof fn recovery_drops_the_plans(ids: Seq<Seq<char>>, names: Set<Seq<char>>, name: Seq<char>)
    ensures
        recovered_names(ids, names).contains(name) <==> names.contains(name) && !(exists|i: int|
            0 <= i < ids.len() && (plan_name(#[trigger] ids[i]) == name || progress_name(ids[i])
                == name)),
    decreases ids.len(),
{
    if ids.len() > 0 {
        let front = ids.drop_last();
        let n = ids.len() - 1;
        reveal_with_fuel(after_steps, 3);
        recovery_drops_the_plans(front, names, name);
        assert(ids[n] == ids.last());
        assert forall|i: int| 0 <= i < n implies front[i] == #[trigger] ids[i] by {}
    }
}

/// A recovery leaves no run to be recovered: a second one, with the same journal,
/// finds no orphan, reverses nothing and changes nothing. `ids` are the orphans that
/// the first one finds, and `again` those that the second one finds.
pub proof fn second_recovery_does_nothing<E>(
    names: Set<Seq<char>>,
    ids: Seq<Seq<char>>,
    again: Seq<Seq<char>>,
    runs: CutOffRuns<E>,
    world: Map<Seq<char>, E>,
)
    requires
        forall|id: Seq<char>| #[trigger] ids.contains(id) <==> orphan(names, id),
        forall|id: Seq<char>| #[trigger]
            again.contains(id) <==> orphan(recovered_names(ids, names), id),
    ensures
        again.len() == 0,
        recovered_world(again, runs, world) == world,
        recovered_names(again, recovered_names(ids, names)) == recovered_names(ids, names),
{
    let left = recovered_names(ids, names);
    if again.len() > 0 {
        let id = again[0];
        assert(again.contains(id));
        recovery_drops_the_plans(ids, names, plan_name(id));
        recovery_drops_the_plans(ids, names, commit_name(id));
        recovery_drops_the_plans(ids, names, rolled_back_name(id));
        assert forall|i: int| 0 <= i < ids.len() implies plan_name(#[trigger] ids[i]) != commit_name(
            id,
        ) && progress_name(ids[i]) != commit_name(id) && plan_name(ids[i]) != rolled_back_name(id)
            && progress_name(ids[i]) != rolled_back_name(id) by {
            names_are_apart(ids[i], id);
        }
        assert(orphan(names, id));
        assert(ids.contains(id));
        let i = choose|i: int| 0 <= i < ids.len() && ids[i] == id;
        assert(plan_name(ids[i]) == plan_name(id));
        assert(false);
    }
}

/// An apply is all or nothing. It records its plan, writes its targets and then
/// publishes its commit; wherever it is cut off, and with recovery after that, every
/// path holds what it held before the apply, or, once the commit is published, what
/// the whole apply leaves there. Orphans that an apply removes between its writing and
/// its commit are not in its plan, and are not spoken of here.
pub proof fn apply_is_all_or_nothing<E>(
    names: Set<Seq<char>>,
    id: Seq<char>,
    journaled: nat,
    ops: Seq<OperationModel>,
    before: Map<Seq<char>, E>,
    written: Seq<Option<E>>,
    done: nat,
    path: Seq<char>,
)
    requires
        !names.contains(plan_name(id)),
        !names.contains(commit_name(id)),
        !names.contains(rolled_back_name(id)),
        plan_is_true(ops, before),
        journaled <= 5,
        done <= 2 * ops.len(),
        journaled < 2 ==> done == 0,
        journaled > 2 ==> done == 2 * ops.len(),
    ensures
        ({
            let cut = after_apply_steps(ops, before, written, done);
            let end = if orphan(after_steps(names, commit_steps(id), journaled), id) {
                reversed_world(ops, cut.backups, cut.live)
            } else {
                cut.live
            };
            at(end, path) == (if journaled < 3 {
                at(before, path)
            } else {
                at(after_apply_steps(ops, before, written, 2 * ops.len()).live, path)
            })
        }),
{
    if journaled > 0 {
        commit_is_atomic(names, id, journaled);
    }
    cut_off_apply_is_undone(ops, before, written, done, path);
}

} // verus!
