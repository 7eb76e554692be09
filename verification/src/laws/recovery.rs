//! The journal, and what is made of a run that was cut off.

use crate::apply::commit_record::ManagedObject;
use crate::apply::commit_record::build_apply_record;
use crate::apply::commit_record::expected_target;
use crate::apply::commit_record::recordable;
use crate::backups::backup_before_overwrite;
use crate::backups::retention::BackupEntry;
use crate::backups::retention::cycle_names;
use crate::backups::retention::gc_retain;
use crate::backups::retention::retain_newest;
use crate::clock::is_timestamp;
use crate::config::FileMode;
use crate::error::EngineError;
use crate::io_failure::IoFailure;
use crate::io_failure::IoKind;
use crate::journal::ApplyRecord;
use crate::journal::Disposition;
use crate::journal::ExpectedTarget;
use crate::journal::FILE_MAJOR_VERSION;
use crate::journal::HistoryPrune;
use crate::journal::JournalError;
use crate::journal::LastApply;
use crate::journal::OsSyncer;
use crate::journal::Plan;
use crate::journal::ProgressCursor;
use crate::journal::Removal;
use crate::journal::RemovalStep;
use crate::journal::Reversal;
use crate::journal::ReverseStep;
use crate::journal::blake3_hash;
use crate::journal::checkpoint_record;
use crate::journal::discards_backups;
use crate::journal::history::backup_goes;
use crate::journal::history::candidate_views;
use crate::journal::history::cycles_names;
use crate::journal::history::filter_members;
use crate::journal::history::ids_with;
use crate::journal::history::ids_with_holds_the_names;
use crate::journal::history::latest;
use crate::journal::history::sentinel;
use crate::journal::ids::allocation_advances;
use crate::journal::ids::name_stem;
use crate::journal::ids::newest_id;
use crate::journal::operation_id_at;
use crate::journal::operation_id_parts;
use crate::journal::orphan_plans;
use crate::journal::pending_removal;
use crate::journal::plan::PlanModel;
use crate::journal::plan::plan_bytes;
use crate::journal::plan::plan_file;
use crate::journal::plan::plan_round_trip;
use crate::journal::progress::completions;
use crate::journal::progress::cursor_round_trip;
use crate::journal::prune_cycles;
use crate::journal::prune_history;
use crate::journal::read_latest_commit;
use crate::journal::record::RecordModel;
use crate::journal::record::record_bytes;
use crate::journal::record::record_round_trip;
use crate::journal::record::target_models;
use crate::journal::recovery::step_models;
use crate::journal::removal::byte_views;
use crate::journal::removal::removal_pending;
use crate::journal::removal::removal_plan;
use crate::journal::reverse_operation;
use crate::journal::reverse_steps;
use crate::journal::unrolled_commit_timestamps;
use crate::number::padded;
use crate::number::padded_reads_back;
use crate::number::twenty_digits_hold_a_u64;
use crate::text::after_first;
use crate::text::ascending;
use crate::text::before_first;
use crate::text::first_place;
use crate::text::first_place_is_first;
use crate::text::text_le;
use crate::text::text_less;
use crate::text::text_order_is_irreflexive;
use crate::text::text_order_is_transitive;
use crate::text::views;
use crate::version_envelope::envelope_round_trip;
use vstd::prelude::*;

verus! {

/// A plan is read back from its file as it was written. `fits` bounds the lengths that
/// a file can hold.
pub proof fn plans_read_back(
    written: Plan,
    bytes: Vec<u8>,
    file: &[u8],
    r: Result<Plan, JournalError>,
)
    requires
        written@.fits(),
        call_ensures(Plan::encode, (&written,), Ok::<Vec<u8>, JournalError>(bytes)),
        file@ == bytes@,
        call_ensures(Plan::decode, (file,), r),
    ensures
        r matches Ok(read) && read@.operations == written@.operations && read@.removal
            == written@.removal,
{
    envelope_round_trip(FILE_MAJOR_VERSION, FILE_MAJOR_VERSION, plan_bytes(written@));
    plan_round_trip(written@);
}

/// A record is read back from its sentinel as it was written.
pub proof fn records_read_back(
    written: ApplyRecord,
    bytes: Vec<u8>,
    file: &[u8],
    r: Result<ApplyRecord, JournalError>,
)
    requires
        written@.fits(),
        call_ensures(ApplyRecord::encode, (&written,), Ok::<Vec<u8>, JournalError>(bytes)),
        file@ == bytes@,
        call_ensures(ApplyRecord::decode, (file,), r),
    ensures
        r matches Ok(read) && read.last_apply.at@ == written.last_apply.at@ && read.last_apply.user@
            == written.last_apply.user@ && read.last_apply.host@ == written.last_apply.host@
            && read.checkpoint == written.checkpoint && target_models(read.targets@)
            == target_models(written.targets@) && views(read.reaped@) == views(written.reaped@),
{
    envelope_round_trip(FILE_MAJOR_VERSION, FILE_MAJOR_VERSION, record_bytes(written@));
    record_round_trip(written@);
}

/// A file that is shorter than its version, or of a newer version, is refused as such.
pub proof fn unreadable_files_are_refused(
    file: &[u8],
    plan: Result<Plan, JournalError>,
    record: Result<ApplyRecord, JournalError>,
)
    requires
        call_ensures(Plan::decode, (file,), plan),
        call_ensures(ApplyRecord::decode, (file,), record),
    ensures
        file@.len() < 2 ==> (plan matches Err(JournalError::Truncated { .. })) && (record matches Err(
            JournalError::Truncated { .. },
        )),
        file@.len() >= 2 && file@[0] + 256 * file@[1] > FILE_MAJOR_VERSION ==> (plan matches Err(
            JournalError::VersionMismatch { .. },
        )) && (record matches Err(JournalError::VersionMismatch { .. })),
{
}

/// The record of a completed operation reads back as that operation.
pub proof fn progress_reads_back(
    cursor: ProgressCursor,
    op_index: u32,
    bytes: Vec<u8>,
    file: &[u8],
    r: Vec<u32>,
)
    requires
        call_ensures(ProgressCursor::record, (&cursor, op_index), bytes),
        file@ == bytes@,
        call_ensures(ProgressCursor::decode_completed, (file,), r),
    ensures
        r@ == seq![op_index],
{
    reveal_with_fuel(completions, 2);
    let one = seq![op_index];
    assert(one.drop_first() =~= Seq::<u32>::empty());
    cursor_round_trip(one, Seq::empty());
    assert(completions(one) + Seq::<u8>::empty() =~= bytes@);
}

/// An unchanged target is never touched by recovery. Any other is restored from its
/// backup where there is one. Without one a target that the run would create is removed,
/// and one that it would update was never written and stays.
pub proof fn recovery_is_told_by_disposition_and_backup(
    disposition: Disposition,
    has_backup: bool,
    r: Reversal,
)
    requires
        call_ensures(reverse_operation, (disposition, has_backup), r),
    ensures
        disposition == Disposition::Unchanged ==> r == Reversal::Leave,
        disposition != Disposition::Unchanged && has_backup ==> r == Reversal::Restore,
        disposition == Disposition::Create && !has_backup ==> r == Reversal::Delete,
        disposition == Disposition::Update && !has_backup ==> r == Reversal::Leave,
{
}

/// A run is reversed by one step for each operation of its plan, in order: at its target
/// and under its disposition.
pub proof fn every_operation_is_reversed(
    plan: Plan,
    bytes: Vec<u8>,
    file: &[u8],
    backups_dir: &str,
    timestamp: &str,
    r: Result<Vec<ReverseStep>, JournalError>,
    i: int,
)
    requires
        plan@.fits(),
        call_ensures(Plan::encode, (&plan,), Ok::<Vec<u8>, JournalError>(bytes)),
        file@ == bytes@,
        call_ensures(reverse_steps, (backups_dir, timestamp, file), r),
        0 <= i < plan@.operations.len(),
    ensures
        r matches Ok(steps) && steps@.len() == plan@.operations.len() && steps@[i].target@
            == plan@.operations[i].target() && steps@[i].disposition
            == plan@.operations[i].disposition(),
{
    envelope_round_trip(FILE_MAJOR_VERSION, FILE_MAJOR_VERSION, plan_bytes(plan@));
    plan_round_trip(plan@);
    let steps = r->Ok_0;
    assert(step_models(steps@).len() == steps@.len());
    assert(step_models(steps@)[i] == steps@[i]@);
}

/// Recovery looks for a backup where the run put it.
pub proof fn recovery_looks_where_backups_are_put(
    file: &[u8],
    backups_dir: &str,
    timestamp: &str,
    steps: Vec<ReverseStep>,
    i: int,
    target: &str,
    backup: Option<String>,
)
    requires
        call_ensures(
            reverse_steps,
            (backups_dir, timestamp, file),
            Ok::<Vec<ReverseStep>, JournalError>(steps),
        ),
        0 <= i < steps@.len(),
        target@ == steps@[i].target@,
        call_ensures(backup_before_overwrite, (backups_dir, timestamp, target, true), backup),
    ensures
        backup matches Some(place) && place@ == steps@[i].backup@,
{
    assert(step_models(steps@).len() == steps@.len());
    assert(step_models(steps@)[i] == steps@[i]@);
}

proof fn listed(names: Seq<String>, name: Seq<char>)
    ensures
        views(names).contains(name) <==> exists|i: int|
            0 <= i < names.len() && (#[trigger] names[i])@ == name,
{
    let all = views(names);
    if all.contains(name) {
        let i = choose|i: int| 0 <= i < all.len() && all[i] == name;
        assert(names[i]@ == name);
    }
    if exists|i: int| 0 <= i < names.len() && (#[trigger] names[i])@ == name {
        let i = choose|i: int| 0 <= i < names.len() && (#[trigger] names[i])@ == name;
        assert(all[i] == name);
    }
}

/// Whether a name is in a listing.
pub open spec fn lists(names: Vec<String>, name: Seq<char>) -> bool {
    exists|i: int| 0 <= i < names@.len() && (#[trigger] names@[i])@ == name
}

/// Exactly the runs are recovered that have a plan, no commit and no mark of a rollback.
pub proof fn runs_without_an_end_are_recovered(names: Vec<String>, ids: Vec<String>, id: Seq<char>)
    requires
        call_ensures(orphan_plans, (&names,), ids),
    ensures
        lists(ids, id) <==> lists(names, id + ".plan"@) && !lists(names, id + ".COMMIT"@) && !lists(
            names,
            id + ".ROLLED_BACK"@,
        ),
{
    listed(ids@, id);
    listed(names@, id + ".plan"@);
    listed(names@, id + ".COMMIT"@);
    listed(names@, id + ".ROLLED_BACK"@);
}

/// Exactly the runs stand that have a commit and no mark of a rollback.
pub proof fn committed_runs_stand(names: Vec<String>, ids: Vec<String>, id: Seq<char>)
    requires
        call_ensures(unrolled_commit_timestamps, (&names,), ids),
    ensures
        lists(ids, id) <==> lists(names, id + ".COMMIT"@) && !lists(names, id + ".ROLLED_BACK"@),
{
    listed(ids@, id);
    listed(names@, id + ".COMMIT"@);
    listed(names@, id + ".ROLLED_BACK"@);
}

/// The latest commit is the first that can be read: sentinels that are cut short are
/// passed over, and none behind the first that can be read is looked at.
pub proof fn latest_commit_is_the_first_that_reads(
    candidates: Vec<(String, Vec<u8>)>,
    record: ApplyRecord,
    bytes: Vec<u8>,
    k: int,
    r: Result<Option<(String, ApplyRecord)>, JournalError>,
)
    requires
        call_ensures(read_latest_commit, (&candidates,), r),
        record@.fits(),
        call_ensures(ApplyRecord::encode, (&record,), Ok::<Vec<u8>, JournalError>(bytes)),
        0 <= k < candidates@.len(),
        candidates@[k].1@ == bytes@,
        forall|j: int| 0 <= j < k ==> (#[trigger] candidates@[j]).1@.len() < 2,
    ensures
        r matches Ok(Some((id, read))) && id@ == candidates@[k].0@ && read@ == record@,
{
    envelope_round_trip(FILE_MAJOR_VERSION, FILE_MAJOR_VERSION, record_bytes(record@));
    record_round_trip(record@);
    let all = candidate_views(candidates@);
    assert(all[k] == (candidates@[k].0@, candidates@[k].1@));
    assert forall|j: int| 0 <= j < k implies (#[trigger] all[j]).1.len() < 2 by {
        assert(candidates@[j].1@.len() < 2);
    }
    first_that_reads(all, k);
}

proof fn first_that_reads(all: Seq<(Seq<char>, Seq<u8>)>, k: int)
    requires
        0 <= k < all.len(),
        sentinel(all[k].1) is Ok,
        forall|j: int| 0 <= j < k ==> (#[trigger] all[j]).1.len() < 2,
    ensures
        latest(all) matches Ok(Some((id, record))) && id == all[k].0 && sentinel(all[k].1)
            == Ok::<RecordModel, JournalError>(record),
    decreases k,
{
    if k > 0 {
        let rest = all.drop_first();
        assert(all[0].1.len() < 2);
        assert(rest[k - 1] == all[k]);
        assert forall|j: int| 0 <= j < k - 1 implies (#[trigger] rest[j]).1.len() < 2 by {
            assert(rest[j] == all[j + 1]);
        }
        first_that_reads(rest, k - 1);
    }
}

/// A commit of a newer version is never passed over for an older one.
pub proof fn newer_commits_are_not_passed_over(
    candidates: Vec<(String, Vec<u8>)>,
    r: Result<Option<(String, ApplyRecord)>, JournalError>,
)
    requires
        call_ensures(read_latest_commit, (&candidates,), r),
        candidates@.len() > 0,
        candidates@[0].1@.len() >= 2,
        candidates@[0].1@[0] + 256 * candidates@[0].1@[1] > FILE_MAJOR_VERSION,
    ensures
        r matches Err(JournalError::VersionMismatch { .. }),
{
    assert(candidate_views(candidates@)[0] == (candidates@[0].0@, candidates@[0].1@));
}

/// Without a commit there is no latest one.
pub proof fn no_commit_is_no_error(r: Result<Option<(String, ApplyRecord)>, JournalError>)
    requires
        exists|none: Vec<(String, Vec<u8>)>|
            none@.len() == 0 && #[trigger] call_ensures(read_latest_commit, (&none,), r),
    ensures
        r == Ok::<Option<(String, ApplyRecord)>, JournalError>(None),
{
}

/// The newest cycles stay, as many as are to be kept, and every other goes. None that
/// stays is older than one that goes.
pub proof fn newest_cycles_stay(
    names: Vec<String>,
    keep: usize,
    r: (Vec<String>, Vec<String>),
)
    requires
        call_ensures(retain_newest, (names, keep), r),
    ensures
        r.1@.len() == (if names@.len() < keep {
            names@.len()
        } else {
            keep as nat
        }),
        r.0@.len() + r.1@.len() == names@.len(),
        forall|i: int, j: int|
            0 <= i < r.0@.len() && 0 <= j < r.1@.len() ==> !text_less(
                (#[trigger] r.1@[j])@,
                (#[trigger] r.0@[i])@,
            ),
{
    let all = views(r.0@) + views(r.1@);
    assert forall|i: int, j: int| 0 <= i < r.0@.len() && 0 <= j < r.1@.len() implies !text_less(
        (#[trigger] r.1@[j])@,
        (#[trigger] r.0@[i])@,
    ) by {
        assert(all[i] == r.0@[i]@);
        assert(all[r.0@.len() + j] == r.1@[j]@);
        assert(text_le(all[i], all[r.0@.len() + j]));
        text_order_is_irreflexive(r.0@[i]@);
        if text_less(r.1@[j]@, r.0@[i]@) && text_less(r.0@[i]@, r.1@[j]@) {
            text_order_is_transitive(r.0@[i]@, r.1@[j]@, r.0@[i]@);
        }
    }
}

/// Only directories with a name are cycles, and none goes where there are no more entries
/// than are to be kept.
pub proof fn only_cycles_go(entries: Vec<BackupEntry>, keep: usize, gone: Vec<String>, i: int)
    requires
        call_ensures(gc_retain, (&entries, keep), gone),
        0 <= i < gone@.len(),
    ensures
        entries@.len() > keep,
        exists|k: int|
            0 <= k < entries@.len() && (#[trigger] entries@[k]).is_dir && entries@[k].name is Some && entries@[k].name->0@ == gone@[i]@,
{
    broadcast use vstd::seq_lib::to_multiset_contains;

    let names = cycle_names(entries@);
    cycles_are_entries(entries@, gone@[i]@);
    let kept = choose|kept: Seq<Seq<char>>|
        #![trigger ascending(views(gone@) + kept)]
        ascending(views(gone@) + kept) && (views(gone@) + kept).to_multiset()
            == names.to_multiset();
    let all = views(gone@) + kept;
    assert(all[i] == gone@[i]@);
    assert(all.contains(gone@[i]@));
    assert(all.to_multiset().count(gone@[i]@) > 0);
    assert(names.contains(gone@[i]@));
}

proof fn cycles_are_entries(entries: Seq<BackupEntry>, name: Seq<char>)
    ensures
        cycle_names(entries).len() <= entries.len(),
        cycle_names(entries).contains(name) <==> exists|k: int|
            0 <= k < entries.len() && (#[trigger] entries[k]).is_dir && entries[k].name is Some && entries[k].name->0@ == name,
    decreases entries.len(),
{
    if entries.len() > 0 {
        let front = entries.drop_last();
        let before = cycle_names(front);
        let all = cycle_names(entries);
        cycles_are_entries(front, name);
        assert(entries[entries.len() - 1] == entries.last());
        if before.contains(name) {
            let k = choose|k: int|
                0 <= k < front.len() && (#[trigger] front[k]).is_dir && front[k].name is Some && front[k].name->0@ == name;
            assert(entries[k] == front[k]);
            let i = choose|i: int| 0 <= i < before.len() && before[i] == name;
            assert(all[i] == name);
        }
        if all.contains(name) && !before.contains(name) {
            let i = choose|i: int| 0 <= i < all.len() && all[i] == name;
            if i < before.len() {
                assert(before[i] == name);
            }
        }
        if exists|k: int|
            0 <= k < entries.len() && (#[trigger] entries[k]).is_dir && entries[k].name is Some && entries[k].name->0@ == name {
            let k = choose|k: int|
                0 <= k < entries.len() && (#[trigger] entries[k]).is_dir && entries[k].name is Some && entries[k].name->0@ == name;
            if k < front.len() {
                assert(front[k] == entries[k]);
            } else {
                assert(all[before.len() as int] == name);
            }
        }
    }
}

/// The ten newest commits are kept. Backups go exactly where they are those of a run that
/// is neither kept nor still to be recovered.
pub proof fn needed_history_is_kept(
    journal: Vec<String>,
    backups: Vec<String>,
    r: HistoryPrune,
    name: &str,
    parts: Option<(String, u64)>,
)
    requires
        call_ensures(prune_history, (&journal, &backups), r),
        call_ensures(operation_id_parts, (name,), parts),
    ensures
        r.retained@.len() <= 10,
        r.cycles@.len() > 0 ==> r.retained@.len() == 10,
        lists(r.backups, name@) <==> lists(backups, name@) && parts is Some && !lists(
            r.retained,
            name@,
        ) && !(lists(journal, name@ + ".plan"@) && !lists(journal, name@ + ".COMMIT"@) && !lists(
            journal,
            name@ + ".ROLLED_BACK"@,
        )),
        lists(r.cycles, name@) || lists(r.retained, name@) <==> lists(journal, name@ + ".COMMIT"@),
{
    broadcast use vstd::seq_lib::to_multiset_contains, vstd::seq_lib::to_multiset_len;

    let names = views(journal@).to_set();
    let goes = |id: Seq<char>|
        backup_goes(names, views(r.retained@), id);
    let commits = ids_with(views(journal@), ".COMMIT"@);
    let both = views(r.cycles@) + views(r.retained@);
    assert(both.len() == both.to_multiset().len());
    assert(commits.len() == commits.to_multiset().len());
    assert(both.len() == r.cycles@.len() + r.retained@.len());
    filter_members(views(backups@), goes, name@);
    ids_with_holds_the_names(views(journal@), ".COMMIT"@, name@);
    listed(r.backups@, name@);
    listed(backups@, name@);
    listed(r.retained@, name@);
    listed(r.cycles@, name@);
    listed(journal@, name@ + ".plan"@);
    listed(journal@, name@ + ".COMMIT"@);
    listed(journal@, name@ + ".ROLLED_BACK"@);
    assert(both.contains(name@) <==> both.to_multiset().count(name@) > 0);
    assert(commits.contains(name@) <==> commits.to_multiset().count(name@) > 0);
    let a = views(r.cycles@);
    let b = views(r.retained@);
    if a.contains(name@) {
        let k = choose|k: int| 0 <= k < a.len() && a[k] == name@;
        assert(both[k] == name@);
    }
    if b.contains(name@) {
        let k = choose|k: int| 0 <= k < b.len() && b[k] == name@;
        assert(both[a.len() + k] == name@);
    }
    if both.contains(name@) {
        let k = choose|k: int| 0 <= k < both.len() && both[k] == name@;
        if k < a.len() {
            assert(a[k] == name@);
        } else {
            assert(b[k - a.len()] == name@);
        }
    }
}

/// The files of a run are deleted in the order that leaves no orphan: its plan and its
/// cursor before what closes it.
pub proof fn plans_go_before_what_closes_them(ids: Vec<String>, files: Vec<String>, i: int)
    requires
        call_ensures(prune_cycles, (&ids,), files),
        0 <= i < ids@.len(),
    ensures
        files@.len() == 4 * ids@.len(),
        files@[4 * i]@ == ids@[i]@ + ".plan"@,
        files@[4 * i + 1]@ == ids@[i]@ + ".progress"@,
        files@[4 * i + 2]@ == ids@[i]@ + ".COMMIT"@,
        files@[4 * i + 3]@ == ids@[i]@ + ".ROLLED_BACK"@,
{
    let all = views(ids@);
    let names = views(files@);
    four_names_each(all, i);
    assert(all[i] == ids@[i]@);
    assert(names.len() == files@.len());
    assert(names[4 * i] == files@[4 * i]@);
    assert(names[4 * i + 1] == files@[4 * i + 1]@);
    assert(names[4 * i + 2] == files@[4 * i + 2]@);
    assert(names[4 * i + 3] == files@[4 * i + 3]@);
}

proof fn four_names_each(ids: Seq<Seq<char>>, i: int)
    requires
        0 <= i < ids.len(),
    ensures
        cycles_names(ids).len() == 4 * ids.len(),
        cycles_names(ids)[4 * i] == ids[i] + ".plan"@,
        cycles_names(ids)[4 * i + 1] == ids[i] + ".progress"@,
        cycles_names(ids)[4 * i + 2] == ids[i] + ".COMMIT"@,
        cycles_names(ids)[4 * i + 3] == ids[i] + ".ROLLED_BACK"@,
    decreases ids.len(),
{
    let front = ids.drop_last();
    four_times(ids);
    four_times(front);
    if i < front.len() {
        assert(front[i] == ids[i]);
        four_names_each(front, i);
    }
}

proof fn four_times(ids: Seq<Seq<char>>)
    ensures
        cycles_names(ids).len() == 4 * ids.len(),
    decreases ids.len(),
{
    if ids.len() > 0 {
        four_times(ids.drop_last());
    }
}

/// A run that is discarded loses its backups exactly where no commit shares its ID.
pub proof fn shared_backups_stay(names: Vec<String>, id: &str, r: bool)
    requires
        call_ensures(discards_backups, (&names, id), r),
    ensures
        r <==> !lists(names, id@ + ".COMMIT"@),
{
    listed(names@, id@ + ".COMMIT"@);
}

/// A checkpoint records every target as it is, and nothing as reaped.
pub proof fn checkpoints_change_nothing(
    last_apply: LastApply,
    targets: Vec<ExpectedTarget>,
    r: ApplyRecord,
    i: int,
)
    requires
        call_ensures(checkpoint_record, (last_apply, targets), r),
        0 <= i < targets@.len(),
    ensures
        r.checkpoint,
        r.reaped@.len() == 0,
        r.last_apply == last_apply,
        r.targets@.len() == targets@.len(),
        match (targets@[i], r.targets@[i]) {
            (
                ExpectedTarget::Symlink { target: a, link_target: b, entry: c, .. },
                ExpectedTarget::Symlink { target, link_target, entry, disposition },
            ) => target@ == a@ && link_target@ == b@ && entry == c && disposition
                == Disposition::Unchanged,
            (
                ExpectedTarget::Content { target: a, source: b, hash: h, entry: c, .. },
                ExpectedTarget::Content { target, source, hash, entry, disposition },
            ) => target@ == a@ && source@ == b@ && hash@ == h@ && entry == c && disposition
                == Disposition::Unchanged,
            _ => false,
        },
{
    assert(target_models(r.targets@).len() == r.targets@.len());
    assert(target_models(targets@)[i] == targets@[i]@);
    assert(target_models(r.targets@)[i] == r.targets@[i]@);
}

/// A new ID comes behind every ID in use, however the clock stands. `tail` is what
/// follows the ID in a name: nothing, or a suffix.
pub proof fn new_ids_come_behind_those_in_use(
    names: Vec<String>,
    now: &str,
    id: String,
    i: int,
    used: &str,
    parts: Option<(String, u64)>,
    tail: Seq<char>,
)
    requires
        call_ensures(operation_id_at, (&names, now), Ok::<String, JournalError>(id)),
        0 <= i < names@.len(),
        names@[i]@ == used@ + tail,
        tail.len() == 0 || tail[0] == '.',
        !used@.contains('.'),
        call_ensures(operation_id_parts, (used,), parts),
        parts is Some,
    ensures
        text_less(used@, id@),
{
    let all = views(names@);
    assert(all[i] == names@[i]@);
    first_place_is_first(all[i], '.');
    let place = first_place(all[i], '.');
    if tail.len() > 0 {
        assert(all[i][used@.len() as int] == '.');
        assert(all[i].contains('.'));
    }
    if place < used@.len() {
        assert(used@[place] == all[i][place]);
        assert(used@.contains('.'));
    }
    if tail.len() == 0 {
        assert(all[i] =~= used@);
    }
    assert(name_stem(all[i]) =~= used@);
    allocation_advances(all, now@, i);
}

/// Where no ID is in use, a new one is the time with the sequence number zero.
pub proof fn first_ids_start_at_zero(names: Vec<String>, now: &str, r: Result<String, JournalError>)
    requires
        call_ensures(operation_id_at, (&names, now), r),
        names@.len() == 0,
    ensures
        r matches Ok(id) && id@ == now@ + (seq!['-'] + padded(0, 20)),
{
    assert(newest_id(views(names@)) is None);
}

/// A time alone is an ID with the number zero, and a time with a dash and twenty digits
/// behind it is one with that number.
pub proof fn ids_are_a_time_and_a_number(
    id: &str,
    r: Option<(String, u64)>,
    date: Seq<char>,
    time: &str,
    is_time: bool,
    number: u64,
)
    requires
        call_ensures(operation_id_parts, (id,), r),
        time@ == date,
        call_ensures(is_timestamp, (time,), is_time),
        !date.contains('-'),
    ensures
        id@ == date ==> (r is Some <==> is_time),
        id@ == date && is_time ==> (r matches Some((d, n)) && d@ == date && n == 0),
        id@ == date + (seq!['-'] + padded(number as nat, 20)) ==> (r is Some <==> is_time),
        id@ == date + (seq!['-'] + padded(number as nat, 20)) && is_time ==> (r matches Some((d, n))
            && d@ == date && n == number),
{
    if id@ == date + (seq!['-'] + padded(number as nat, 20)) {
        let k = date.len() as int;
        assert(id@[k] == '-');
        assert(id@.contains('-'));
        first_place_is_first(id@, '-');
        let place = first_place(id@, '-');
        assert(place == k) by {
            if place < k {
                assert(date[place] == '-');
                assert(date.contains('-'));
            }
        }
        assert(before_first(id@, '-') =~= date);
        assert(after_first(id@, '-') =~= padded(number as nat, 20));
        twenty_digits_hold_a_u64();
        padded_reads_back(number as nat, 20);
    }
}

/// Where the clock has not moved past the newest ID in use, its sequence number goes up by
/// one under its own time.
pub proof fn later_ids_count_up(
    names: Vec<String>,
    now: &str,
    r: Result<String, JournalError>,
    used: &str,
    date: String,
    sequence: u64,
)
    requires
        call_ensures(operation_id_at, (&names, now), r),
        names@.len() == 1,
        names@[0]@ == used@,
        !used@.contains('.'),
        call_ensures(operation_id_parts, (used,), Some((date, sequence))),
        !text_less(used@, now@),
    ensures
        sequence < u64::MAX ==> (r matches Ok(id) && id@ == date@ + (seq!['-'] + padded(
            (sequence + 1) as nat,
            20,
        ))),
        sequence == u64::MAX ==> r is Err,
{
    let all = views(names@);
    assert(all[0] == used@);
    first_place_is_first(used@, '.');
    assert(name_stem(used@) =~= used@);
    assert(all.drop_last() =~= Seq::<Seq<char>>::empty());
    assert(newest_id(all.drop_last()) is None);
    assert(all.last() == used@);
    assert(newest_id(all) == Some(used@));
}

/// A removal records its plan first and commits last. Both the target and the manifest
/// are backed up before either is changed, and the target is written exactly where it is
/// to keep some content.
pub proof fn removals_go_in_order(removal: Removal, steps: Vec<RemovalStep>)
    requires
        call_ensures(Removal::execute, (&removal,), steps),
    ensures
        steps@.len() == (if removal.content is Some {
            8nat
        } else {
            7nat
        }),
        steps@[0] == RemovalStep::FlushPlan,
        steps@[1] == RemovalStep::BackUpTarget,
        steps@[2] == RemovalStep::BackUpManifest,
        steps@[3] == RemovalStep::RemoveTarget,
        steps@.contains(RemovalStep::WriteTarget) <==> removal.content is Some,
        steps@[steps@.len() - 3] == RemovalStep::WriteManifest,
        steps@[steps@.len() - 2] == RemovalStep::Commit,
        steps@[steps@.len() - 1] == RemovalStep::RetainHistory,
{
    if removal.content is Some {
        assert(steps@[4] == RemovalStep::WriteTarget);
    } else {
        assert forall|i: int| 0 <= i < steps@.len() implies steps@[i]
            != RemovalStep::WriteTarget by {}
    }
}

/// The plan of a removal names the target and the manifest, in this order, and the target
/// whose declaration goes. The target is there or is created; the manifest is there.
pub proof fn removals_plan_both_writes(
    target: &str,
    manifest: &str,
    target_present: bool,
    plan: Plan,
)
    requires
        call_ensures(removal_plan, (target, manifest, target_present), plan),
    ensures
        plan@.removal == Some(target@),
        plan@.operations.len() == 2,
        plan@.operations[0].target() == target@,
        plan@.operations[0].disposition() == (if target_present {
            Disposition::Update
        } else {
            Disposition::Create
        }),
        plan@.operations[1].target() == manifest@,
        plan@.operations[1].disposition() == Disposition::Update,
{
}

/// A removal is pending exactly where one of the plans that were cut off carries it out.
pub proof fn pending_removals_are_found(
    plans: Seq<Plan>,
    files: Vec<Vec<u8>>,
    target: &str,
    r: Result<bool, JournalError>,
)
    requires
        call_ensures(pending_removal, (&files, target), r),
        files@.len() == plans.len(),
        forall|i: int|
            #![trigger plans[i]]
            0 <= i < plans.len() ==> plans[i]@.fits() && call_ensures(
                Plan::encode,
                (&plans[i],),
                Ok::<Vec<u8>, JournalError>(files@[i]),
            ),
    ensures
        r == Ok::<bool, JournalError>(
            exists|i: int| 0 <= i < plans.len() && (#[trigger] plans[i])@.removal == Some(target@),
        ),
{
    let all = byte_views(files@);
    assert forall|i: int|
        #![trigger plans[i]]
        0 <= i < plans.len() implies plan_file(all[i]) == Ok::<
        PlanModel,
        JournalError,
    >(plans[i]@) by {
        envelope_round_trip(FILE_MAJOR_VERSION, FILE_MAJOR_VERSION, plan_bytes(plans[i]@));
        plan_round_trip(plans[i]@);
        assert(all[i] == files@[i]@);
    }
    removal_is_found(all, plans, target@);
}

proof fn removal_is_found(files: Seq<Seq<u8>>, plans: Seq<Plan>, target: Seq<char>)
    requires
        files.len() == plans.len(),
        forall|i: int|
            #![trigger plans[i]]
            0 <= i < plans.len() ==> plan_file(files[i]) == Ok::<
                PlanModel,
                JournalError,
            >(plans[i]@),
    ensures
        removal_pending(files, target) == Ok::<bool, JournalError>(
            exists|i: int| 0 <= i < plans.len() && (#[trigger] plans[i])@.removal == Some(target),
        ),
    decreases files.len(),
{
    if files.len() > 0 {
        let rest = plans.drop_first();
        assert(forall|i: int| 0 <= i < rest.len() ==> #[trigger] rest[i] == plans[i + 1]);
        assert forall|i: int|
            #![trigger rest[i]]
            0 <= i < rest.len() implies plan_file(files.drop_first()[i]) == Ok::<
            PlanModel,
            JournalError,
        >(rest[i]@) by {
            assert(files.drop_first()[i] == files[i + 1]);
            assert(plans[i + 1] == rest[i]);
        }
        removal_is_found(files.drop_first(), rest, target);
        assert(plan_file(files[0]) == Ok::<PlanModel, JournalError>(
            plans[0]@,
        ));
        if exists|i: int| 0 <= i < rest.len() && (#[trigger] rest[i])@.removal == Some(target) {
            let i = choose|i: int|
                0 <= i < rest.len() && (#[trigger] rest[i])@.removal == Some(target);
            assert(plans[i + 1]@.removal == Some(target));
        }
        if exists|i: int| 0 <= i < plans.len() && (#[trigger] plans[i])@.removal == Some(target) {
            let i = choose|i: int|
                0 <= i < plans.len() && (#[trigger] plans[i])@.removal == Some(target);
            if i > 0 {
                assert(rest[i - 1]@.removal == Some(target));
            }
        }
    }
}

/// What is recorded of a link is where it points, and of content the hash of what was read
/// back; content that cannot be read back is not recorded.
pub proof fn objects_are_recorded_as_they_are(
    object: ManagedObject,
    content: Result<Vec<u8>, String>,
    r: Result<ExpectedTarget, EngineError>,
)
    requires
        call_ensures(expected_target, (&object, &content), r),
    ensures
        match object.mode {
            FileMode::Symlink | FileMode::SymlinkDir | FileMode::SymlinkTree => r matches Ok(
                ExpectedTarget::Symlink { target, link_target, entry, disposition },
            ) && target@ == object.target@ && link_target@ == object.source@ && entry
                == object.entry && disposition == object.disposition,
            _ => match content {
                Ok(bytes) => r matches Ok(
                    ExpectedTarget::Content { target, source, hash, entry, disposition },
                ) && target@ == object.target@ && source@ == object.source@ && hash@
                    == blake3_hash(bytes@) && entry == object.entry && disposition
                    == object.disposition,
                Err(_) => r is Err,
            },
        },
{
}

/// The record of a run holds every object, in order, and what was reaped.
pub proof fn records_hold_every_object(
    timestamp: &str,
    user: &str,
    host: &str,
    objects: Vec<ManagedObject>,
    contents: Vec<Result<Vec<u8>, String>>,
    reaped: Vec<String>,
    record: ApplyRecord,
    i: int,
    one: Result<ExpectedTarget, EngineError>,
)
    requires
        contents@.len() == objects@.len(),
        call_ensures(
            build_apply_record,
            (timestamp, user, host, &objects, &contents, reaped),
            Ok::<ApplyRecord, EngineError>(record),
        ),
        0 <= i < objects@.len(),
        call_ensures(expected_target, (&objects@[i], &contents@[i]), one),
    ensures
        record.targets@.len() == objects@.len(),
        one matches Ok(expected) && record.targets@[i]@ == expected@,
        views(record.reaped@) == views(reaped@),
        !record.checkpoint,
        record.last_apply.user@ == user@,
        record.last_apply.host@ == host@,
{
    assert(target_models(record.targets@).len() == record.targets@.len());
    assert(target_models(record.targets@)[i] == record.targets@[i]@);
    assert(recordable(objects@[i], contents@[i]));
}

/// A flush of a directory fails only where it went wrong, and not where the platform
/// cannot flush directories.
pub proof fn directory_flushes_fail_for_a_reason(
    syncer: OsSyncer,
    outcome: Result<(), IoFailure>,
    r: Result<(), IoFailure>,
)
    requires
        call_ensures(OsSyncer::settle_dir, (&syncer, outcome), r),
    ensures
        outcome is Ok ==> r is Ok,
        outcome matches Err(e) ==> (r is Ok <==> e.kind == IoKind::PermissionDenied || e.kind
            == IoKind::Unsupported || e.os_code == Some(5i32)),
        r matches Err(e) ==> outcome == Err::<(), IoFailure>(e),
{
}

} // verus!
