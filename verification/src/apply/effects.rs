//! What the actions of a run do to the filesystem.
//!
//! The places of a plan are taken to be apart, as the check for colliding targets
//! makes sure. A run may be cut off after any of its events, and a write that is cut
//! off in the middle leaves whatever it leaves.

use crate::journal::recovery::World;
use crate::journal::recovery::after_apply_steps;
use crate::journal::recovery::apply_is_all_or_nothing;
use crate::journal::recovery::apply_leaves;
use crate::journal::recovery::apply_touches_its_targets;
use crate::journal::recovery::at;
use crate::journal::recovery::backed_up;
use crate::journal::recovery::cut_off_apply_is_undone;
use crate::journal::recovery::plan_is_true;
use crate::journal::recovery::reversed_world;
use crate::journal::recovery::written_to;
use crate::journal::history::after_steps;
use crate::journal::history::commit_steps;
use crate::journal::history::orphan;
use crate::journal::names::commit_name;
use crate::journal::names::plan_name;
use crate::journal::names::rolled_back_name;
use crate::journal::plan::OperationModel;
use super::commit_record::pairs;
use super::executors::CompletionModel;
use super::executors::undoing_restores;
use super::executors::undone_world;
use super::planning::ResolvedEntry;
use super::planning::ResolvedModel;
use super::planning::operation_for;
use super::planning::planned_operations;
use super::planning::resolved_operations;
use super::run::EventModel;
use super::run::LockPolicy;
use super::run::RunModel;
use super::run::Stage;
use super::run::advanced;
use super::run::next_place;
use super::run::run_after;
use super::run::shape;
use super::run_laws::always_in_order;
use super::run_laws::behind_flush;
use super::run_laws::behind_writes;
use super::run_laws::passed;
use super::run_laws::passed_step;
use vstd::prelude::*;

verus! {

/// The operations of the targets of one resolved operation.
pub open spec fn operations_of(op: ResolvedModel) -> Seq<OperationModel> {
    Seq::new(
        pairs(op),
        |t: int| operation_for(op.mode, op.source, op.targets[t], op.dispositions[t].aggregate),
    )
}

/// The operations of the targets of a row of resolved operations, in order.
pub open spec fn listed(ops: Seq<ResolvedModel>) -> Seq<OperationModel>
    decreases ops.len(),
{
    if ops.len() == 0 {
        Seq::empty()
    } else {
        listed(ops.drop_last()) + operations_of(ops.last())
    }
}

/// A plan records what its run goes through: one operation for each target, in the
/// order in which they are written.
pub proof fn plan_lists_what_is_written(entries: Seq<Option<ResolvedEntry>>)
    ensures
        planned_operations(entries) == listed(resolved_operations(entries)),
    decreases entries.len(),
{
    if entries.len() > 0 {
        let front = entries.drop_last();
        plan_lists_what_is_written(front);
        let ops = resolved_operations(entries);
        if entries.last() is Some {
            assert(ops.drop_last() =~= resolved_operations(front));
            assert(planned_operations(entries) =~= listed(ops));
        }
    }
}

/// The number of targets of the first `n` operations.
pub open spec fn count(shape: Seq<nat>, n: int) -> nat
    decreases n,
{
    if n <= 0 || n > shape.len() {
        0
    } else {
        count(shape, n - 1) + shape[n - 1]
    }
}

/// The number of the target at a place of a plan.
pub open spec fn rank(shape: Seq<nat>, op: int, target: int) -> int {
    count(shape, op) + target
}

proof fn listed_by_rank(ops: Seq<ResolvedModel>, op: int, target: int)
    requires
        0 <= op < ops.len(),
        0 <= target < shape(ops)[op],
    ensures
        listed(ops).len() == count(shape(ops), ops.len() as int),
        rank(shape(ops), op, target) < listed(ops).len(),
        listed(ops)[rank(shape(ops), op, target)] == operations_of(ops[op])[target],
    decreases ops.len(),
{
    let front = ops.drop_last();
    listed_length(ops);
    listed_length(front);
    counts_of_front(ops, front.len() as int);
    counts_of_front(ops, op);
    if op < front.len() {
        assert(shape(front)[op] == shape(ops)[op]);
        listed_by_rank(front, op, target);
    }
}

proof fn listed_length(ops: Seq<ResolvedModel>)
    ensures
        listed(ops).len() == count(shape(ops), ops.len() as int),
    decreases ops.len(),
{
    if ops.len() > 0 {
        listed_length(ops.drop_last());
        counts_of_front(ops, ops.len() - 1);
    }
}

proof fn counts_of_front(ops: Seq<ResolvedModel>, n: int)
    requires
        ops.len() > 0,
        n < ops.len(),
    ensures
        count(shape(ops.drop_last()), n) == count(shape(ops), n),
    decreases n,
{
    if n > 0 {
        counts_of_front(ops, n - 1);
        assert(shape(ops.drop_last())[n - 1] == shape(ops)[n - 1]);
    }
}

/// Whether a place is that of a target, or right behind the last target of an
/// operation, or the end of the plan.
spec fn is_place(shape: Seq<nat>, op: int, target: int) -> bool {
    &&& 0 <= op <= shape.len()
    &&& 0 <= target
    &&& op < shape.len() ==> target <= shape[op]
    &&& op == shape.len() ==> target == 0
}

proof fn next_place_has_the_rank(shape: Seq<nat>, op: int, target: int)
    requires
        is_place(shape, op, target),
    ensures
        ({
            let (o, t) = next_place(shape, op, target);
            &&& is_place(shape, o, t)
            &&& o < shape.len() ==> t < shape[o]
            &&& rank(shape, o, t) == rank(shape, op, target)
        }),
    decreases shape.len() - op,
{
    if op < shape.len() && target >= shape[op] {
        next_place_has_the_rank(shape, op + 1, 0);
    }
}

proof fn ranks_are_counted(shape: Seq<nat>, op: int, target: int)
    requires
        is_place(shape, op, target),
    ensures
        rank(shape, op, target) <= count(shape, shape.len() as int),
        op < shape.len() && target < shape[op] ==> rank(shape, op, target) < count(
            shape,
            shape.len() as int,
        ),
    decreases shape.len() - op,
{
    if op < shape.len() {
        ranks_are_counted(shape, op + 1, 0);
    }
}

/// What the action of a run at a stage does to the filesystem, by what it came to.
/// Removing orphans is left out: they are no targets of the plan.
pub open spec fn effect<E>(
    m: RunModel,
    ops: Seq<ResolvedModel>,
    e: EventModel,
    written: Seq<Option<E>>,
    w: World<E>,
) -> World<E> {
    let n = rank(shape(ops), m.op, m.target);
    match (m.stage, e) {
        (Stage::BackUp, EventModel::Done) => backed_up(listed(ops)[n], w),
        (Stage::Write, EventModel::Written { .. }) => written_to(listed(ops)[n], written[n], w),
        (Stage::Reverse, EventModel::Done) => World {
            live: undone_world(m.completed, w.backups, w.live),
            ..w
        },
        _ => w,
    }
}

/// The filesystem after a row of events of a run. `written` says what stands at each
/// target after its write.
pub open spec fn world_after<E>(
    policy: LockPolicy,
    ops: Seq<ResolvedModel>,
    events: Seq<EventModel>,
    before: Map<Seq<char>, E>,
    written: Seq<Option<E>>,
) -> World<E>
    decreases events.len(),
{
    if events.len() == 0 {
        World { live: before, backups: Map::empty() }
    } else {
        let front = events.drop_last();
        effect(
            run_after(policy, shape(ops), front),
            ops,
            events.last(),
            written,
            world_after(policy, ops, front, before, written),
        )
    }
}

/// How many backups and writes a run has behind it.
pub open spec fn done_after(policy: LockPolicy, shape: Seq<nat>, events: Seq<EventModel>) -> nat
    decreases events.len(),
{
    if events.len() == 0 {
        0
    } else {
        let front = events.drop_last();
        let done = done_after(policy, shape, front);
        match (run_after(policy, shape, front).stage, events.last()) {
            (Stage::BackUp, EventModel::Done) => done + 1,
            (Stage::Write, EventModel::Written { .. }) => done + 1,
            _ => done,
        }
    }
}

/// Whether a run has been at a stage.
pub open spec fn reached(
    policy: LockPolicy,
    shape: Seq<nat>,
    events: Seq<EventModel>,
    stage: Stage,
) -> bool {
    exists|i: int|
        0 <= i <= events.len() && #[trigger] run_after(policy, shape, events.take(i)).stage == stage
}

/// Where the writing of a run stands.
spec fn writing_stands(m: RunModel, shape: Seq<nat>, done: nat) -> bool {
    let n = rank(shape, m.op, m.target);
    let total = count(shape, shape.len() as int);
    &&& is_place(shape, m.op, m.target)
    &&& done <= 2 * total
    &&& m.stage is BackUp || m.stage is Write ==> m.op < shape.len() && m.target < shape[m.op]
    &&& m.stage is BackUp ==> done == 2 * n
    &&& m.stage is Write ==> done == 2 * n + 1
    &&& m.stage is Progress ==> done == 2 * n && m.pending.len() > 0
    &&& behind_writes(m.stage) ==> done == 2 * total
    &&& !behind_flush(m.stage) && !(m.stage is Finished) ==> done == 0 && m.op == 0 && m.target == 0
        && m.pending.len() == 0 && m.completed.len() == 0
}

proof fn writing_always_stands(policy: LockPolicy, shape: Seq<nat>, events: Seq<EventModel>)
    ensures
        writing_stands(run_after(policy, shape, events), shape, done_after(policy, shape, events)),
    decreases events.len(),
{
    if events.len() > 0 {
        let front = events.drop_last();
        writing_always_stands(policy, shape, front);
        let m = run_after(policy, shape, front);
        let e = events.last();
        let next = advanced(m, shape, e);
        ranks_are_counted(shape, m.op, m.target);
        match (m.stage, e) {
            (Stage::Flush, EventModel::Done) => {
                next_place_has_the_rank(shape, m.op, m.target);
                ranks_are_counted(shape, next.op, next.target);
            },
            (Stage::Write, EventModel::Written { records }) => {
                next_place_has_the_rank(shape, m.op, m.target + 1);
                ranks_are_counted(shape, m.op, m.target + 1);
                ranks_are_counted(shape, next.op, next.target);
            },
            (Stage::Progress, EventModel::Done) => {
                next_place_has_the_rank(shape, m.op, m.target);
                ranks_are_counted(shape, next.op, next.target);
            },
            _ => {},
        }
    }
}

/// The filesystem in the course of a run is that of an apply in the course of its
/// steps: what stands at a target is backed up, and the target is written, one target
/// after the other in the order of the plan.
pub proof fn run_takes_the_steps_of_the_plan<E>(
    policy: LockPolicy,
    ops: Seq<ResolvedModel>,
    events: Seq<EventModel>,
    before: Map<Seq<char>, E>,
    written: Seq<Option<E>>,
)
    requires
        !passed(policy, shape(ops), events, Stage::Reverse),
    ensures
        done_after(policy, shape(ops), events) <= 2 * listed(ops).len(),
        world_after(policy, ops, events, before, written) == after_apply_steps(
            listed(ops),
            before,
            written,
            done_after(policy, shape(ops), events),
        ),
    decreases events.len(),
{
    let places = shape(ops);
    listed_length(ops);
    writing_always_stands(policy, places, events);
    if events.len() > 0 {
        let front = events.drop_last();
        passed_step(policy, places, events, Stage::Reverse);
        run_takes_the_steps_of_the_plan(policy, ops, front, before, written);
        writing_always_stands(policy, places, front);
        let m = run_after(policy, places, front);
        if m.stage is BackUp || m.stage is Write {
            listed_by_rank(ops, m.op, m.target);
        }
    }
}

/// A run that is cut off after any of its events, and that did not take back anything
/// itself, is undone by recovery: every path holds what it held before.
pub proof fn cut_off_run_is_undone<E>(
    policy: LockPolicy,
    ops: Seq<ResolvedModel>,
    events: Seq<EventModel>,
    before: Map<Seq<char>, E>,
    written: Seq<Option<E>>,
    path: Seq<char>,
)
    requires
        plan_is_true(listed(ops), before),
        !passed(policy, shape(ops), events, Stage::Reverse),
    ensures
        ({
            let w = world_after(policy, ops, events, before, written);
            at(reversed_world(listed(ops), w.backups, w.live), path) == at(before, path)
        }),
{
    run_takes_the_steps_of_the_plan(policy, ops, events, before, written);
    cut_off_apply_is_undone(
        listed(ops),
        before,
        written,
        done_after(policy, shape(ops), events),
        path,
    );
}

/// Whether the journal of a run can have come to a number of its steps: flushing the
/// plan takes the first two of them, and the commit the others.
pub open spec fn journal_stands(
    policy: LockPolicy,
    shape: Seq<nat>,
    events: Seq<EventModel>,
    journaled: nat,
) -> bool {
    &&& journaled <= 5
    &&& passed(policy, shape, events, Stage::Flush) ==> journaled >= 2
    &&& journaled > 2 ==> reached(policy, shape, events, Stage::Commit)
}

proof fn nothing_written_without_a_plan(
    policy: LockPolicy,
    shape: Seq<nat>,
    events: Seq<EventModel>,
)
    requires
        !passed(policy, shape, events, Stage::Flush),
    ensures
        done_after(policy, shape, events) == 0,
    decreases events.len(),
{
    if events.len() > 0 {
        let front = events.drop_last();
        passed_step(policy, shape, events, Stage::Flush);
        nothing_written_without_a_plan(policy, shape, front);
        always_in_order(policy, shape, front);
    }
}

proof fn all_written_at_the_commit(policy: LockPolicy, shape: Seq<nat>, events: Seq<EventModel>)
    requires
        reached(policy, shape, events, Stage::Commit),
    ensures
        done_after(policy, shape, events) == 2 * count(shape, shape.len() as int),
    decreases events.len(),
{
    let i = choose|i: int|
        0 <= i <= events.len() && #[trigger] run_after(policy, shape, events.take(i)).stage
            == Stage::Commit;
    writing_always_stands(policy, shape, events);
    if i == events.len() {
        assert(events.take(i) =~= events);
    } else {
        let front = events.drop_last();
        assert(front.take(i) =~= events.take(i));
        assert(run_after(policy, shape, front.take(i)).stage == Stage::Commit);
        all_written_at_the_commit(policy, shape, front);
        writing_always_stands(policy, shape, front);
        let m = run_after(policy, shape, front);
        if m.stage is BackUp || m.stage is Write {
            ranks_are_counted(shape, m.op, m.target);
        }
    }
}

/// A run is all or nothing. Wherever it is cut off, and with recovery after that, every
/// path holds what it held before the run, or, once the commit is published, what the
/// whole run leaves there.
pub proof fn run_is_all_or_nothing<E>(
    policy: LockPolicy,
    ops: Seq<ResolvedModel>,
    events: Seq<EventModel>,
    names: Set<Seq<char>>,
    id: Seq<char>,
    journaled: nat,
    before: Map<Seq<char>, E>,
    written: Seq<Option<E>>,
    path: Seq<char>,
)
    requires
        !names.contains(plan_name(id)),
        !names.contains(commit_name(id)),
        !names.contains(rolled_back_name(id)),
        plan_is_true(listed(ops), before),
        !passed(policy, shape(ops), events, Stage::Reverse),
        journal_stands(policy, shape(ops), events, journaled),
    ensures
        ({
            let cut = world_after(policy, ops, events, before, written);
            let end = if orphan(after_steps(names, commit_steps(id), journaled), id) {
                reversed_world(listed(ops), cut.backups, cut.live)
            } else {
                cut.live
            };
            let whole = after_apply_steps(listed(ops), before, written, 2 * listed(ops).len());
            at(end, path) == (if journaled < 3 {
                at(before, path)
            } else {
                at(whole.live, path)
            })
        }),
{
    let places = shape(ops);
    listed_length(ops);
    run_takes_the_steps_of_the_plan(policy, ops, events, before, written);
    if journaled < 2 {
        nothing_written_without_a_plan(policy, places, events);
    }
    if journaled > 2 {
        all_written_at_the_commit(policy, places, events);
    }
    apply_is_all_or_nothing(
        names,
        id,
        journaled,
        listed(ops),
        before,
        written,
        done_after(policy, places, events),
        path,
    );
}

/// The targets of the operations that are not unchanged.
pub open spec fn changed(all: Seq<OperationModel>) -> Seq<Seq<char>>
    decreases all.len(),
{
    if all.len() == 0 {
        Seq::empty()
    } else if all.last().disposition() is Unchanged {
        changed(all.drop_last())
    } else {
        changed(all.drop_last()).push(all.last().target())
    }
}

/// Where a row of records was written.
pub open spec fn places_of(records: Seq<CompletionModel>) -> Seq<Seq<char>> {
    records.map_values(|r: CompletionModel| r.target)
}

/// Whether each target that a run wrote was recorded as one object, as it is unless it
/// is a tree, and no other target was.
pub open spec fn records_are_whole(
    policy: LockPolicy,
    ops: Seq<ResolvedModel>,
    events: Seq<EventModel>,
) -> bool {
    forall|i: int|
        #![trigger run_after(policy, shape(ops), events.take(i))]
        0 <= i < events.len() ==> ({
            let m = run_after(policy, shape(ops), events.take(i));
            let op = listed(ops)[rank(shape(ops), m.op, m.target)];
            m.stage is Write ==> (events[i] matches EventModel::Written { records } ==> places_of(
                records,
            ) == changed(seq![op]))
        })
}

proof fn changed_in_order(all: Seq<OperationModel>, n: int)
    requires
        0 <= n < all.len(),
    ensures
        changed(all.take(n + 1)) == changed(all.take(n)) + changed(seq![all[n]]),
{
    reveal_with_fuel(changed, 2);
    assert(all.take(n + 1).drop_last() =~= all.take(n));
    assert(all.take(n + 1).last() == all[n]);
    assert(seq![all[n]].drop_last() =~= Seq::<OperationModel>::empty());
    assert(changed(all.take(n + 1)) =~= changed(all.take(n)) + changed(seq![all[n]]));
}

proof fn records_follow_the_plan(
    policy: LockPolicy,
    ops: Seq<ResolvedModel>,
    events: Seq<EventModel>,
)
    requires
        records_are_whole(policy, ops, events),
    ensures
        ({
            let m = run_after(policy, shape(ops), events);
            !(m.stage is Finished) ==> places_of(m.completed) + places_of(m.pending) == changed(
                listed(ops).take(rank(shape(ops), m.op, m.target)),
            )
        }),
    decreases events.len(),
{
    let places = shape(ops);
    let all = listed(ops);
    let next = run_after(policy, places, events);
    if events.len() == 0 {
        assert(all.take(0) =~= Seq::<OperationModel>::empty());
        assert(places_of(next.completed) + places_of(next.pending) =~= changed(all.take(0)));
    } else {
        let front = events.drop_last();
        let m = run_after(policy, places, front);
        let e = events.last();
        assert(events.take(events.len() - 1) =~= front);
        assert forall|i: int|
            #![trigger run_after(policy, places, front.take(i))]
            0 <= i < front.len() implies ({
            let m = run_after(policy, shape(ops), front.take(i));
            let op = listed(ops)[rank(shape(ops), m.op, m.target)];
            m.stage is Write ==> (front[i] matches EventModel::Written { records } ==> places_of(
                records,
            ) == changed(seq![op]))
        }) by {
            assert(front.take(i) =~= events.take(i));
            assert(front[i] == events[i]);
            let m = run_after(policy, places, events.take(i));
        }
        records_follow_the_plan(policy, ops, front);
        writing_always_stands(policy, places, front);
        let known = places_of(m.completed) + places_of(m.pending);
        match (m.stage, e) {
            (Stage::Flush, EventModel::Done) => {
                next_place_has_the_rank(places, m.op, m.target);
            },
            (Stage::Write, EventModel::Written { records }) => {
                always_pending_in_place(policy, places, front);
                assert(places_of(m.pending) =~= Seq::<Seq<char>>::empty());
                assert(known =~= places_of(m.completed));
                let n = rank(places, m.op, m.target);
                listed_by_rank(ops, m.op, m.target);
                assert(run_after(policy, places, events.take(events.len() - 1)) == m);
                changed_in_order(all, n);
                next_place_has_the_rank(places, m.op, m.target + 1);
                assert(places_of(m.completed) + places_of(records) == changed(all.take(n + 1)));
            },
            (Stage::Progress, EventModel::Done) => {
                next_place_has_the_rank(places, m.op, m.target);
                let noted = m.completed.push(m.pending[0]);
                let left = m.pending.drop_first();
                assert(places_of(noted) + places_of(left) =~= known);
            },
            _ => {},
        }
    }
}

proof fn always_pending_in_place(policy: LockPolicy, shape: Seq<nat>, events: Seq<EventModel>)
    ensures
        ({
            let m = run_after(policy, shape, events);
            !(m.stage is Progress) && !(m.stage is Finished) ==> m.pending.len() == 0
        }),
    decreases events.len(),
{
    if events.len() > 0 {
        always_pending_in_place(policy, shape, events.drop_last());
    }
}

proof fn changed_are_targets(all: Seq<OperationModel>, k: int) -> (i: int)
    requires
        0 <= k < changed(all).len(),
    ensures
        0 <= i < all.len(),
        !(all[i].disposition() is Unchanged),
        all[i].target() == changed(all)[k],
    decreases all.len(),
{
    if all.last().disposition() is Unchanged || k < changed(all.drop_last()).len() {
        let i = changed_are_targets(all.drop_last(), k);
        assert(all[i] == all.drop_last()[i]);
        i
    } else {
        all.len() - 1
    }
}

proof fn targets_are_changed(all: Seq<OperationModel>, i: int) -> (k: int)
    requires
        0 <= i < all.len(),
        !(all[i].disposition() is Unchanged),
    ensures
        0 <= k < changed(all).len(),
        changed(all)[k] == all[i].target(),
    decreases all.len(),
{
    if i < all.len() - 1 {
        assert(all.drop_last()[i] == all[i]);
        targets_are_changed(all.drop_last(), i)
    } else {
        changed(all).len() - 1
    }
}

/// A run whose hook failed takes back what it wrote: every path holds what it held
/// before, in kind. Each target is taken to be one object; the files of a tree are not
/// told apart here.
pub proof fn rolled_back_run_is_undone<E>(
    policy: LockPolicy,
    ops: Seq<ResolvedModel>,
    events: Seq<EventModel>,
    before: Map<Seq<char>, E>,
    written: Seq<Option<E>>,
    path: Seq<char>,
)
    requires
        plan_is_true(listed(ops), before),
        records_are_whole(policy, ops, events),
        run_after(policy, shape(ops), events).stage is Reverse,
        !passed(policy, shape(ops), events, Stage::Reverse),
    ensures
        at(
            effect(
                run_after(policy, shape(ops), events),
                ops,
                EventModel::Done,
                written,
                world_after(policy, ops, events, before, written),
            ).live,
            path,
        ) == at(before, path),
{
    let places = shape(ops);
    let all = listed(ops);
    let m = run_after(policy, places, events);
    let w = world_after(policy, ops, events, before, written);
    let total = 2 * all.len();
    listed_length(ops);
    writing_always_stands(policy, places, events);
    run_takes_the_steps_of_the_plan(policy, ops, events, before, written);
    records_follow_the_plan(policy, ops, events);
    always_pending_in_place(policy, places, events);
    always_in_order(policy, places, events);
    assert(rank(places, m.op, m.target) == all.len());
    assert(all.take(all.len() as int) =~= all);
    assert(places_of(m.completed) + places_of(m.pending) =~= places_of(m.completed));
    assert forall|k: int| 0 <= k < m.completed.len() implies at(
        w.backups,
        (#[trigger] m.completed[k]).target,
    ) == at(before, m.completed[k].target) by {
        assert(places_of(m.completed)[k] == m.completed[k].target);
        let i = changed_are_targets(all, k);
        apply_leaves(all, before, written, total, i);
    }
    if exists|i: int| 0 <= i < all.len() && (#[trigger] all[i]).target() == path {
        let i = choose|i: int| 0 <= i < all.len() && (#[trigger] all[i]).target() == path;
        apply_leaves(all, before, written, total, i);
        if !(all[i].disposition() is Unchanged) {
            let k = targets_are_changed(all, i);
            assert(places_of(m.completed)[k] == m.completed[k].target);
            assert(m.completed[k].target == path);
        }
    } else {
        apply_touches_its_targets(all, before, written, total, path);
    }
    undoing_restores(m.completed, before, w.backups, w.live, path);
}

} // verus!
