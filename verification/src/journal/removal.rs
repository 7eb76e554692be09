//! Taking one declaration out of a manifest.
//!
//! The target is given its last content, or removed, and the declaration is
//! deleted from the manifest. Both writes are journaled first, so that a removal
//! that is cut off is reversed like any other run, and the checkpoint that
//! records the targets left is published last.

use super::Disposition;
use super::JournalError;
use super::Plan;
use super::PlannedOperation;
use super::plan::OperationModel;
use super::plan::PlanModel;
use super::plan::operation_models;
use super::plan::plan_file;
use super::recovery::World;
use super::recovery::at;
use super::recovery::cut_off;
use super::recovery::recovery_restores_every_target;
use super::recovery::reversed_world;
use super::recovery::with_at;
use vstd::prelude::*;

verus! {

/// The operations of a removal: the target, which exists or is created, and the
/// manifest.
pub open spec fn removal_operations(
    target: Seq<char>,
    manifest: Seq<char>,
    target_present: bool,
) -> Seq<OperationModel> {
    seq![
        OperationModel::Copy {
            source: target,
            target,
            disposition: if target_present {
                Disposition::Update
            } else {
                Disposition::Create
            },
        },
        OperationModel::Copy { source: manifest, target: manifest, disposition: Disposition::Update },
    ]
}

/// The plan that a removal journals before it changes anything.
pub fn removal_plan(target: &str, manifest: &str, target_present: bool) -> (plan: Plan)
    ensures
        plan@ == (PlanModel {
            operations: removal_operations(target@, manifest@, target_present),
            removal: Some(target@),
        }),
{
    let disposition: Disposition = if target_present {
        Disposition::Update
    } else {
        Disposition::Create
    };
    let mut operations: Vec<PlannedOperation> = Vec::new();
    operations.push(PlannedOperation::copy(target, target, disposition));
    operations.push(PlannedOperation::copy(manifest, manifest, Disposition::Update));
    assert(operation_models(operations@) =~= removal_operations(target@, manifest@, target_present));
    Plan::removal(target, operations)
}

/// One step of a removal.
#[derive(Debug, Clone, Copy, PartialEq, Eq, Structural)]
pub enum RemovalStep {
    /// Record the plan durably.
    FlushPlan,
    /// Back up the target, if it is there.
    BackUpTarget,
    /// Back up the manifest.
    BackUpManifest,
    /// Remove the target, if it is there.
    RemoveTarget,
    /// Write the last content of the target.
    WriteTarget,
    /// Write the manifest without the declaration.
    WriteManifest,
    /// Publish the checkpoint.
    Commit,
    /// Drop history that is past its retention.
    RetainHistory,
}

/// The steps of a removal in order. The target is written only where it is to
/// keep some content.
pub open spec fn removal_steps(keeps_content: bool) -> Seq<RemovalStep> {
    if keeps_content {
        seq![
            RemovalStep::FlushPlan,
            RemovalStep::BackUpTarget,
            RemovalStep::BackUpManifest,
            RemovalStep::RemoveTarget,
            RemovalStep::WriteTarget,
            RemovalStep::WriteManifest,
            RemovalStep::Commit,
            RemovalStep::RetainHistory,
        ]
    } else {
        seq![
            RemovalStep::FlushPlan,
            RemovalStep::BackUpTarget,
            RemovalStep::BackUpManifest,
            RemovalStep::RemoveTarget,
            RemovalStep::WriteManifest,
            RemovalStep::Commit,
            RemovalStep::RetainHistory,
        ]
    }
}

/// Taking one declaration out of a manifest.
#[derive(Debug, Clone, PartialEq, Eq)]
pub struct Removal {
    /// Absolute path of the target.
    pub target: String,
    /// What the target is to hold, or `None` to delete it.
    pub content: Option<Vec<u8>>,
    /// The manifest that declares the target.
    pub manifest: String,
    /// The manifest without the declaration.
    pub edited_manifest: Vec<u8>,
}

impl Removal {
    /// The plan to journal, given whether the target is there.
    pub fn plan(&self, target_present: bool) -> (plan: Plan)
        ensures
            plan@ == (PlanModel {
                operations: removal_operations(self.target@, self.manifest@, target_present),
                removal: Some(self.target@),
            }),
    {
        removal_plan(self.target.as_str(), self.manifest.as_str(), target_present)
    }

    /// The steps to take, in order.
    pub fn execute(&self) -> (steps: Vec<RemovalStep>)
        ensures
            steps@ == removal_steps(self.content is Some),
    {
        let mut steps: Vec<RemovalStep> = Vec::new();
        steps.push(RemovalStep::FlushPlan);
        steps.push(RemovalStep::BackUpTarget);
        steps.push(RemovalStep::BackUpManifest);
        steps.push(RemovalStep::RemoveTarget);
        if self.content.is_some() {
            steps.push(RemovalStep::WriteTarget);
        }
        steps.push(RemovalStep::WriteManifest);
        steps.push(RemovalStep::Commit);
        steps.push(RemovalStep::RetainHistory);
        assert(steps@ =~= removal_steps(self.content is Some));
        steps
    }
}

/// What a step does to the filesystem and the backups.
pub open spec fn after_removal_step<E>(
    w: World<E>,
    step: RemovalStep,
    target: Seq<char>,
    manifest: Seq<char>,
    content: E,
    edited: E,
) -> World<E> {
    match step {
        RemovalStep::BackUpTarget => World {
            backups: with_at(w.backups, target, at(w.live, target)),
            ..w
        },
        RemovalStep::BackUpManifest => World {
            backups: with_at(w.backups, manifest, at(w.live, manifest)),
            ..w
        },
        RemovalStep::RemoveTarget => World { live: w.live.remove(target), ..w },
        RemovalStep::WriteTarget => World { live: w.live.insert(target, content), ..w },
        RemovalStep::WriteManifest => World { live: w.live.insert(manifest, edited), ..w },
        _ => w,
    }
}

/// What the first `done` steps do.
pub open spec fn after_removal_steps<E>(
    live: Map<Seq<char>, E>,
    steps: Seq<RemovalStep>,
    done: nat,
    target: Seq<char>,
    manifest: Seq<char>,
    content: E,
    edited: E,
) -> World<E>
    decreases done,
{
    if done == 0 {
        World { live, backups: Map::empty() }
    } else {
        after_removal_step(
            after_removal_steps(live, steps, (done - 1) as nat, target, manifest, content, edited),
            steps[done - 1],
            target,
            manifest,
            content,
            edited,
        )
    }
}

/// A removal that is cut off before it commits is undone by recovery: the target
/// and the manifest are what they were.
pub proof fn cut_off_removal_is_undone<E>(
    before: Map<Seq<char>, E>,
    keeps_content: bool,
    done: nat,
    target: Seq<char>,
    manifest: Seq<char>,
    content: E,
    edited: E,
)
    requires
        target != manifest,
        before.contains_key(manifest),
        done < removal_steps(keeps_content).len(),
        forall|k: int| 0 <= k < done ==> !(#[trigger] removal_steps(keeps_content)[k] is Commit),
    ensures
        ({
            let w = after_removal_steps(
                before,
                removal_steps(keeps_content),
                done,
                target,
                manifest,
                content,
                edited,
            );
            let ops = removal_operations(target, manifest, before.contains_key(target));
            let undone = reversed_world(ops, w.backups, w.live);
            at(undone, target) == at(before, target) && at(undone, manifest) == at(before, manifest)
        }),
{
    let steps = removal_steps(keeps_content);
    let w = after_removal_steps(before, steps, done, target, manifest, content, edited);
    let ops = removal_operations(target, manifest, before.contains_key(target));
    if keeps_content {
        assert(steps[6] is Commit);
        assert(done <= 6);
    } else {
        assert(steps[5] is Commit);
        assert(done <= 5);
    }
    reveal_with_fuel(after_removal_steps, 8);
    assert(cut_off(
        ops[0].disposition(),
        at(before, target),
        at(w.backups, target),
        at(w.live, target),
    ));
    assert(cut_off(
        ops[1].disposition(),
        at(before, manifest),
        at(w.backups, manifest),
        at(w.live, manifest),
    ));
    assert(ops[0].target() == target && ops[1].target() == manifest);
    recovery_restores_every_target(ops, before, w.backups, w.live, target);
    recovery_restores_every_target(ops, before, w.backups, w.live, manifest);
}

/// Whether one of the pending plans, in order, carries out the removal of
/// `target`. A plan that cannot be read ends the search, unless one before it
/// does.
pub open spec fn removal_pending(plans: Seq<Seq<u8>>, target: Seq<char>) -> Result<
    bool,
    JournalError,
>
    decreases plans.len(),
{
    if plans.len() == 0 {
        Ok(false)
    } else {
        match plan_file(plans[0]) {
            Err(e) => Err(e),
            Ok(plan) => if plan.removal == Some(target) {
                Ok(true)
            } else {
                removal_pending(plans.drop_first(), target)
            },
        }
    }
}

/// The bytes of a row of files.
pub open spec fn byte_views(files: Seq<Vec<u8>>) -> Seq<Seq<u8>> {
    files.map_values(|f: Vec<u8>| f@)
}

/// Whether a removal of `target` that was cut off may already have edited its
/// manifest. `plans` are the plan files of the orphans.
pub fn pending_removal(plans: &Vec<Vec<u8>>, target: &str) -> (r: Result<bool, JournalError>)
    ensures
        r == removal_pending(byte_views(plans@), target@),
{
    let ghost all = byte_views(plans@);
    let mut i: usize = 0;
    assert(all.skip(0) =~= all);
    while i < plans.len()
        invariant
            i <= plans@.len(),
            all == byte_views(plans@),
            removal_pending(all, target@) == removal_pending(all.skip(i as int), target@),
        decreases plans@.len() - i,
    {
        assert(all.skip(i as int).drop_first() =~= all.skip(i + 1));
        assert(all.skip(i as int)[0] == plans@[i as int]@);
        match Plan::decode(plans[i].as_slice()) {
            Ok(plan) => {
                if plan.removes(target) {
                    return Ok(true);
                }
            },
            Err(e) => return Err(e),
        }
        i = i + 1;
    }
    Ok(false)
}

} // verus!
