//! What an apply does with a target, and how it is taken back.

use crate::apply::executors::CompletionRecord;
use crate::apply::executors::ExecutorError;
use crate::apply::executors::LeafWrite;
use crate::apply::executors::Materialization;
use crate::apply::executors::SourceState;
use crate::apply::executors::TargetWork;
use crate::apply::executors::UndoStep;
use crate::apply::executors::completion_models;
use crate::apply::executors::drifted;
use crate::apply::executors::included;
use crate::apply::executors::leaf_records;
use crate::apply::executors::materialize;
use crate::apply::executors::materialize_target;
use crate::apply::executors::record_of;
use crate::apply::executors::reverse_completed;
use crate::apply::executors::tree_records;
use crate::apply::executors::undo_models;
use crate::apply::executors::undo_object;
use crate::apply::planning::LeafModel;
use crate::apply::planning::TargetDisposition;
use crate::apply::planning::leaf_models;
use crate::backups::backup_before_overwrite;
use crate::config::FileMode;
use crate::config::file_entry::is_template_name;
use crate::journal::Disposition;
use crate::journal::Reversal;
use crate::path_order::same_path;
use crate::status::among;
use crate::text::views;
use crate::utf8_path::path_components;
use crate::utf8_path::path_joined;
use vstd::prelude::*;

verus! {

/// A target is left alone exactly where it is unchanged, whatever its mode. Any other
/// that is one object, and any that is not there, is written whole.
pub proof fn only_unchanged_targets_are_left_alone(
    mode: FileMode,
    relation: TargetDisposition,
    work: TargetWork,
)
    requires
        call_ensures(materialize_target, (mode, &relation), work),
    ensures
        work is Skip <==> relation.aggregate == Disposition::Unchanged,
        relation.aggregate == Disposition::Create ==> work == (TargetWork::Write {
            write: LeafWrite::All,
        }),
        relation.aggregate == Disposition::Update && mode != FileMode::SymlinkTree && mode
            != FileMode::CopyTree ==> work == (TargetWork::Write { write: LeafWrite::All }),
{
}

/// Of a tree that is updated exactly the files are named that are not unchanged.
pub proof fn files_that_differ_are_named(
    mode: FileMode,
    relation: TargetDisposition,
    work: TargetWork,
    name: Seq<char>,
)
    requires
        mode == FileMode::SymlinkTree || mode == FileMode::CopyTree,
        relation.aggregate == Disposition::Update,
        call_ensures(materialize_target, (mode, &relation), work),
    ensures
        work matches TargetWork::Write { write: LeafWrite::Only(files) } && ((exists|i: int|
            0 <= i < files@.len() && (#[trigger] files@[i])@ == name) <==> (exists|k: int|
            0 <= k < relation.leaves@.len() && (#[trigger] relation.leaves@[k]).relative@ == name
                && relation.leaves@[k].disposition != Disposition::Unchanged)),
{
    let leaves = leaf_models(relation.leaves@);
    let names = drifted(leaves);
    drifted_members(leaves, name);
    let files = match work {
        TargetWork::Write { write: LeafWrite::Only(files) } => files@,
        _ => Seq::empty(),
    };
    assert(views(files) == names);
    assert(forall|i: int| 0 <= i < files.len() ==> (#[trigger] files[i])@ == names[i]);
    assert(names.len() == files.len());
    if exists|k: int|
        0 <= k < relation.leaves@.len() && (#[trigger] relation.leaves@[k]).relative@ == name
            && relation.leaves@[k].disposition != Disposition::Unchanged {
        let k = choose|k: int|
            0 <= k < relation.leaves@.len() && (#[trigger] relation.leaves@[k]).relative@ == name
                && relation.leaves@[k].disposition != Disposition::Unchanged;
        assert(leaves[k].relative == name);
        let i = choose|i: int| 0 <= i < names.len() && names[i] == name;
        assert(files[i]@ == name);
    }
    if exists|i: int| 0 <= i < files.len() && (#[trigger] files[i])@ == name {
        let i = choose|i: int| 0 <= i < files.len() && (#[trigger] files[i])@ == name;
        assert(names[i] == name);
        let k = choose|k: int|
            0 <= k < leaves.len() && (#[trigger] leaves[k]).relative == name
                && leaves[k].disposition != Disposition::Unchanged;
        assert(relation.leaves@[k].relative@ == name);
    }
}

proof fn drifted_members(leaves: Seq<LeafModel>, name: Seq<char>)
    ensures
        drifted(leaves).contains(name) <==> exists|k: int|
            0 <= k < leaves.len() && (#[trigger] leaves[k]).relative == name
                && leaves[k].disposition != Disposition::Unchanged,
    decreases leaves.len(),
{
    if leaves.len() > 0 {
        let front = leaves.drop_last();
        let before = drifted(front);
        let last = leaves.last();
        drifted_members(front, name);
        assert(leaves[leaves.len() - 1] == last);
        if before.contains(name) {
            let k = choose|k: int|
                0 <= k < front.len() && (#[trigger] front[k]).relative == name
                    && front[k].disposition != Disposition::Unchanged;
            assert(leaves[k] == front[k]);
            let i = choose|i: int| 0 <= i < before.len() && before[i] == name;
            assert(drifted(leaves)[i] == name);
        }
        if drifted(leaves).contains(name) && !before.contains(name) {
            let i = choose|i: int| 0 <= i < drifted(leaves).len() && drifted(leaves)[i] == name;
            assert(i == before.len());
        }
        if exists|k: int|
            0 <= k < leaves.len() && (#[trigger] leaves[k]).relative == name
                && leaves[k].disposition != Disposition::Unchanged {
            let k = choose|k: int|
                0 <= k < leaves.len() && (#[trigger] leaves[k]).relative == name
                    && leaves[k].disposition != Disposition::Unchanged;
            if k < front.len() {
                assert(front[k].relative == name);
            } else {
                assert(drifted(leaves)[before.len() as int] == name);
            }
        }
    }
}

/// What stands at a source decides whether it is written. One that is missing is
/// refused in every mode. A directory can be linked, copied file by file or linked file
/// by file, and a file can be linked or copied, but not as a tree or as a directory.
pub proof fn sources_are_refused_by_what_stands_there(
    mode: FileMode,
    source: &str,
    state: SourceState,
    targets: Vec<String>,
    leaves: Vec<String>,
    write: LeafWrite,
    r: Result<Vec<CompletionRecord>, ExecutorError>,
)
    requires
        call_ensures(materialize, (mode, source, &state, &targets, &leaves, &write), r),
    ensures
        state is Missing ==> (r matches Err(ExecutorError::SourceMissing { path }) && path@
            == source@),
        state is Unreadable ==> r is Err,
        state is Directory && mode != FileMode::TemplateRender ==> r is Ok,
        state is File && (mode == FileMode::Symlink || mode == FileMode::Copy) ==> r is Ok,
        state is File && (mode == FileMode::SymlinkDir || mode == FileMode::SymlinkTree || mode
            == FileMode::CopyTree) ==> (r matches Err(ExecutorError::NotADirectory { path })
            && path@ == source@),
        mode == FileMode::TemplateRender && r is Err && !(state is Missing) && !(
        state is Unreadable) ==> (r matches Err(ExecutorError::NotATemplate { path }) && path@
            == source@),
{
}

/// A source that is one object is written once to each target, in order: as a link to
/// the source, as a copy of it, or as what it renders to.
pub proof fn every_target_gets_one_object(
    mode: FileMode,
    source: &str,
    state: SourceState,
    targets: Vec<String>,
    leaves: Vec<String>,
    write: LeafWrite,
    records: Vec<CompletionRecord>,
    i: int,
)
    requires
        mode != FileMode::SymlinkTree && mode != FileMode::CopyTree,
        !(mode == FileMode::Symlink && state is Directory),
        call_ensures(
            materialize,
            (mode, source, &state, &targets, &leaves, &write),
            Ok::<Vec<CompletionRecord>, ExecutorError>(records),
        ),
        0 <= i < targets@.len(),
    ensures
        records@.len() == targets@.len(),
        records@[i].target@ == targets@[i]@,
        records@[i].source@ == source@,
        mode == FileMode::Symlink || mode == FileMode::SymlinkDir ==> (records@[i].materialization
            matches Materialization::Symlink { link_target } && link_target@ == source@),
        mode == FileMode::Copy ==> records@[i].materialization is Copy,
        mode == FileMode::TemplateRender ==> records@[i].materialization is Render,
{
    assert(completion_models(records@).len() == records@.len());
    assert(completion_models(records@)[i] == records@[i]@);
    assert(views(targets@)[i] == targets@[i]@);
}

/// A template is written exactly where its name is that of one.
pub proof fn templates_are_written_by_their_name(
    source: &str,
    state: SourceState,
    targets: Vec<String>,
    leaves: Vec<String>,
    write: LeafWrite,
    r: Result<Vec<CompletionRecord>, ExecutorError>,
    name: Option<String>,
    named: bool,
)
    requires
        call_ensures(
            materialize,
            (FileMode::TemplateRender, source, &state, &targets, &leaves, &write),
            r,
        ),
        state is File || state is Directory,
        call_ensures(is_template_name, (&name,), named),
        ({
            let parts = path_components(source@);
            if parts.len() > 0 && parts.last() is Normal {
                name is Some && name->0@ == parts.last()->Normal_text
            } else {
                name is None
            }
        }),
    ensures
        r is Ok <==> named,
        !named ==> (r matches Err(ExecutorError::NotATemplate { path }) && path@ == source@),
{
}

/// A link whose source is a directory is a link for each file of it, under each target, and
/// nothing else.
pub proof fn directories_are_linked_file_by_file(
    source: &str,
    targets: Vec<String>,
    leaves: Vec<String>,
    write: LeafWrite,
    records: Vec<CompletionRecord>,
    t: int,
    l: int,
    k: int,
)
    requires
        call_ensures(
            materialize,
            (FileMode::Symlink, source, &SourceState::Directory, &targets, &leaves, &write),
            Ok::<Vec<CompletionRecord>, ExecutorError>(records),
        ),
        0 <= t < targets@.len(),
        0 <= l < leaves@.len(),
    ensures
        exists|i: int|
            0 <= i < records@.len() && (#[trigger] records@[i]).target@ == path_joined(
                targets@[t]@,
                leaves@[l]@,
            ) && (records@[i].materialization matches Materialization::Symlink { link_target }
                && link_target@ == path_joined(source@, leaves@[l]@)),
        0 <= k < records@.len() ==> exists|a: int, b: int|
            0 <= a < targets@.len() && 0 <= b < leaves@.len() && records@[k].target@
                == #[trigger] path_joined(targets@[a]@, leaves@[b]@) && (
            records@[k].materialization matches Materialization::Symlink { link_target }
                && link_target@ == path_joined(source@, leaves@[b]@)),
{
    let mode = FileMode::Symlink;
    let names = views(leaves@);
    let places = views(targets@);
    assert(names[l] == leaves@[l]@);
    assert(places[t] == targets@[t]@);
    let all = tree_records(mode, source@, places, names, LeafWrite::All);
    assert(completion_models(records@) == all);
    assert(completion_models(records@).len() == records@.len());
    let record = record_of(mode, path_joined(source@, names[l]), path_joined(places[t], names[l]));
    tree_has_record(mode, source@, places, names, LeafWrite::All, t, l);
    let i = choose|i: int| 0 <= i < all.len() && all[i] == record;
    assert(completion_models(records@)[i] == records@[i]@);
    assert(records@[i].target@ == path_joined(targets@[t]@, leaves@[l]@));
    if 0 <= k < records@.len() {
        assert(completion_models(records@)[k] == records@[k]@);
        let (a, b) = record_is_of_a_file(mode, source@, places, names, LeafWrite::All, k);
        assert(names[b] == leaves@[b]@);
        assert(places[a] == targets@[a]@);
        assert(records@[k].target@ == path_joined(targets@[a]@, leaves@[b]@));
    }
}

/// Of a tree each file that is named, or every file where none is, is written under each
/// target: a link to that file of the source, or a copy of it.
pub proof fn named_files_are_written(
    mode: FileMode,
    source: &str,
    state: SourceState,
    targets: Vec<String>,
    leaves: Vec<String>,
    write: LeafWrite,
    records: Vec<CompletionRecord>,
    t: int,
    l: int,
)
    requires
        mode == FileMode::SymlinkTree || mode == FileMode::CopyTree,
        call_ensures(
            materialize,
            (mode, source, &state, &targets, &leaves, &write),
            Ok::<Vec<CompletionRecord>, ExecutorError>(records),
        ),
        0 <= t < targets@.len(),
        0 <= l < leaves@.len(),
        match write {
            LeafWrite::All => true,
            LeafWrite::Only(files) => exists|f: int|
                0 <= f < files@.len() && (#[trigger] files@[f])@ == leaves@[l]@,
        },
    ensures
        exists|k: int|
            0 <= k < records@.len() && (#[trigger] records@[k]).target@ == path_joined(
                targets@[t]@,
                leaves@[l]@,
            ) && records@[k].source@ == path_joined(source@, leaves@[l]@) && match mode {
                FileMode::SymlinkTree => records@[k].materialization matches
                    Materialization::Symlink { link_target } && link_target@ == path_joined(
                    source@,
                    leaves@[l]@,
                ),
                _ => records@[k].materialization is Copy,
            },
{
    let names = views(leaves@);
    let places = views(targets@);
    assert(names[l] == leaves@[l]@);
    assert(places[t] == targets@[t]@);
    assert(included(write, names[l])) by {
        match write {
            LeafWrite::Only(files) => {
                let f = choose|f: int|
                    0 <= f < files@.len() && (#[trigger] files@[f])@ == leaves@[l]@;
                assert(views(files@)[f] == names[l]);
                assert(same_path(views(files@)[f], names[l]));
            },
            LeafWrite::All => {},
        }
    }
    let record = record_of(mode, path_joined(source@, names[l]), path_joined(places[t], names[l]));
    tree_has_record(mode, source@, places, names, write, t, l);
    let all = tree_records(mode, source@, places, names, write);
    let k = choose|k: int| 0 <= k < all.len() && all[k] == record;
    assert(completion_models(records@) == all);
    assert(completion_models(records@).len() == records@.len());
    assert(completion_models(records@)[k] == records@[k]@);
}

proof fn leaves_have_record(
    mode: FileMode,
    source: Seq<char>,
    target: Seq<char>,
    leaves: Seq<Seq<char>>,
    write: LeafWrite,
    l: int,
)
    requires
        0 <= l < leaves.len(),
        included(write, leaves[l]),
    ensures
        leaf_records(mode, source, target, leaves, write).contains(
            record_of(mode, path_joined(source, leaves[l]), path_joined(target, leaves[l])),
        ),
    decreases leaves.len(),
{
    let front = leaves.drop_last();
    let record = record_of(mode, path_joined(source, leaves[l]), path_joined(target, leaves[l]));
    let before = leaf_records(mode, source, target, front, write);
    let all = leaf_records(mode, source, target, leaves, write);
    if l < front.len() {
        assert(front[l] == leaves[l]);
        leaves_have_record(mode, source, target, front, write, l);
        let k = choose|k: int| 0 <= k < before.len() && before[k] == record;
        assert(all[k] == record);
    } else {
        assert(all[before.len() as int] == record);
    }
}

proof fn tree_has_record(
    mode: FileMode,
    source: Seq<char>,
    targets: Seq<Seq<char>>,
    leaves: Seq<Seq<char>>,
    write: LeafWrite,
    t: int,
    l: int,
)
    requires
        0 <= t < targets.len(),
        0 <= l < leaves.len(),
        included(write, leaves[l]),
    ensures
        tree_records(mode, source, targets, leaves, write).contains(
            record_of(mode, path_joined(source, leaves[l]), path_joined(targets[t], leaves[l])),
        ),
    decreases targets.len(),
{
    let front = targets.drop_last();
    let record = record_of(
        mode,
        path_joined(source, leaves[l]),
        path_joined(targets[t], leaves[l]),
    );
    let before = tree_records(mode, source, front, leaves, write);
    let here = leaf_records(mode, source, targets.last(), leaves, write);
    if t < front.len() {
        assert(front[t] == targets[t]);
        tree_has_record(mode, source, front, leaves, write, t, l);
        let k = choose|k: int| 0 <= k < before.len() && before[k] == record;
        assert((before + here)[k] == record);
    } else {
        leaves_have_record(mode, source, targets.last(), leaves, write, l);
        let k = choose|k: int| 0 <= k < here.len() && here[k] == record;
        assert((before + here)[before.len() + k] == record);
    }
}

/// Nothing else of a tree is written: each object that is written is a file of the
/// source under one of the targets, and one of those that are named, if any are.
pub proof fn only_named_files_are_written(
    mode: FileMode,
    source: &str,
    state: SourceState,
    targets: Vec<String>,
    leaves: Vec<String>,
    write: LeafWrite,
    records: Vec<CompletionRecord>,
    k: int,
)
    requires
        mode == FileMode::SymlinkTree || mode == FileMode::CopyTree,
        call_ensures(
            materialize,
            (mode, source, &state, &targets, &leaves, &write),
            Ok::<Vec<CompletionRecord>, ExecutorError>(records),
        ),
        0 <= k < records@.len(),
    ensures
        exists|t: int, l: int|
            0 <= t < targets@.len() && 0 <= l < leaves@.len() && records@[k].target@
                == #[trigger] path_joined(targets@[t]@, leaves@[l]@) && records@[k].source@
                == path_joined(source@, leaves@[l]@) && match write {
                LeafWrite::All => true,
                LeafWrite::Only(files) => exists|f: int|
                    0 <= f < files@.len() && same_path(
                        (#[trigger] files@[f])@,
                        leaves@[l]@,
                    ),
            },
{
    let names = views(leaves@);
    let places = views(targets@);
    assert(completion_models(records@).len() == records@.len());
    assert(completion_models(records@)[k] == records@[k]@);
    let (t, l) = record_is_of_a_file(mode, source@, places, names, write, k);
    assert(names[l] == leaves@[l]@);
    assert(places[t] == targets@[t]@);
    match write {
        LeafWrite::Only(files) => {
            assert(among(views(files@), names[l]));
            let f = choose|f: int|
                0 <= f < views(files@).len() && same_path(
                    #[trigger] views(files@)[f],
                    names[l],
                );
            assert(files@[f]@ == views(files@)[f]);
        },
        LeafWrite::All => {},
    }
    assert(records@[k].target@ == path_joined(targets@[t]@, leaves@[l]@));
}

proof fn record_is_of_a_file(
    mode: FileMode,
    source: Seq<char>,
    targets: Seq<Seq<char>>,
    leaves: Seq<Seq<char>>,
    write: LeafWrite,
    k: int,
) -> (r: (int, int))
    requires
        0 <= k < tree_records(mode, source, targets, leaves, write).len(),
    ensures
        0 <= r.0 < targets.len(),
        0 <= r.1 < leaves.len(),
        included(write, leaves[r.1]),
        tree_records(mode, source, targets, leaves, write)[k] == record_of(
            mode,
            path_joined(source, leaves[r.1]),
            path_joined(targets[r.0], leaves[r.1]),
        ),
    decreases targets.len(),
{
    let front = targets.drop_last();
    let before = tree_records(mode, source, front, leaves, write);
    if k < before.len() {
        let r = record_is_of_a_file(mode, source, front, leaves, write, k);
        assert(front[r.0] == targets[r.0]);
        r
    } else {
        let l = record_is_of_a_leaf(
            mode,
            source,
            targets.last(),
            leaves,
            write,
            k - before.len(),
        );
        (targets.len() - 1, l)
    }
}

proof fn record_is_of_a_leaf(
    mode: FileMode,
    source: Seq<char>,
    target: Seq<char>,
    leaves: Seq<Seq<char>>,
    write: LeafWrite,
    k: int,
) -> (l: int)
    requires
        0 <= k < leaf_records(mode, source, target, leaves, write).len(),
    ensures
        0 <= l < leaves.len(),
        included(write, leaves[l]),
        leaf_records(mode, source, target, leaves, write)[k] == record_of(
            mode,
            path_joined(source, leaves[l]),
            path_joined(target, leaves[l]),
        ),
    decreases leaves.len(),
{
    let front = leaves.drop_last();
    let before = leaf_records(mode, source, target, front, write);
    if k < before.len() {
        let l = record_is_of_a_leaf(mode, source, target, front, write, k);
        assert(front[l] == leaves[l]);
        l
    } else {
        leaves.len() - 1
    }
}

/// Every file of an updated tree that differs is written: what is done with the target
/// names it, and what is named is written.
pub proof fn files_that_differ_are_written(
    mode: FileMode,
    relation: TargetDisposition,
    write: LeafWrite,
    source: &str,
    state: SourceState,
    targets: Vec<String>,
    leaves: Vec<String>,
    records: Vec<CompletionRecord>,
    t: int,
    l: int,
    d: int,
)
    requires
        mode == FileMode::SymlinkTree || mode == FileMode::CopyTree,
        relation.aggregate == Disposition::Update,
        call_ensures(materialize_target, (mode, &relation), (TargetWork::Write { write })),
        call_ensures(
            materialize,
            (mode, source, &state, &targets, &leaves, &write),
            Ok::<Vec<CompletionRecord>, ExecutorError>(records),
        ),
        0 <= t < targets@.len(),
        0 <= l < leaves@.len(),
        0 <= d < relation.leaves@.len(),
        relation.leaves@[d].relative@ == leaves@[l]@,
        relation.leaves@[d].disposition != Disposition::Unchanged,
    ensures
        exists|k: int|
            0 <= k < records@.len() && (#[trigger] records@[k]).target@ == path_joined(
                targets@[t]@,
                leaves@[l]@,
            ) && records@[k].source@ == path_joined(source@, leaves@[l]@),
{
    files_that_differ_are_named(mode, relation, TargetWork::Write { write }, leaves@[l]@);
    named_files_are_written(mode, source, state, targets, leaves, write, records, t, l);
}

/// What a run has written is taken back object by object, the last one first.
pub proof fn objects_are_taken_back_in_reverse(
    completed: Vec<CompletionRecord>,
    backups_dir: &str,
    timestamp: &str,
    steps: Vec<UndoStep>,
    i: int,
)
    requires
        call_ensures(reverse_completed, (&completed, backups_dir, timestamp), steps),
        0 <= i < completed@.len(),
    ensures
        steps@.len() == completed@.len(),
        steps@[completed@.len() - 1 - i].target@ == completed@[i].target@,
{
    let all = completion_models(completed@);
    assert(undo_models(steps@).len() == steps@.len());
    assert(undo_models(steps@)[completed@.len() - 1 - i] == steps@[completed@.len() - 1 - i]@);
    assert(all[i] == completed@[i]@);
    assert(all.reverse()[completed@.len() - 1 - i] == all[i]);
}

/// What is taken back is looked for where the backup of the target was put.
pub proof fn objects_are_taken_back_from_their_backups(
    completed: Vec<CompletionRecord>,
    backups_dir: &str,
    timestamp: &str,
    steps: Vec<UndoStep>,
    i: int,
    target: &str,
    backup: Option<String>,
)
    requires
        call_ensures(reverse_completed, (&completed, backups_dir, timestamp), steps),
        0 <= i < steps@.len(),
        target@ == steps@[i].target@,
        call_ensures(backup_before_overwrite, (backups_dir, timestamp, target, true), backup),
    ensures
        backup matches Some(place) && place@ == steps@[i].backup@,
{
    assert(undo_models(steps@).len() == steps@.len());
    assert(undo_models(steps@)[i] == steps@[i]@);
}

/// An object is replaced by its backup where there is one, and removed where there is
/// none.
pub proof fn objects_are_restored_or_removed(has_backup: bool, r: Reversal)
    requires
        call_ensures(undo_object, (has_backup,), r),
    ensures
        has_backup ==> r == Reversal::Restore,
        !has_backup ==> r == Reversal::Delete,
{
}

/// What stands at a target is backed up exactly where something does.
pub proof fn what_is_there_is_backed_up(
    backups_dir: &str,
    timestamp: &str,
    target: &str,
    present: bool,
    r: Option<String>,
)
    requires
        call_ensures(backup_before_overwrite, (backups_dir, timestamp, target, present), r),
    ensures
        r is Some <==> present,
{
}

} // verus!
