//! What the names in the journal say: which plans are orphans, which commits
//! stand, and which of them retention keeps.

use crate::backups::RETENTION_COUNT;
use crate::backups::retention::cut;
use crate::backups::retention::retain_newest;
use crate::text::ascending;
use crate::text::contains_text;
use crate::text::sort_texts;
use crate::text::strip_suffix;
use crate::text::views;
use crate::text::without_suffix;
use crate::version_envelope::opened;
use super::ApplyRecord;
use super::Disposition;
use super::ExpectedTarget;
use super::JournalError;
use super::LastApply;
use super::error::envelope_refusal;
use super::ids::is_id;
use super::ids::operation_id_parts;
use super::names::COMMIT_SUFFIX;
use super::names::PLAN_SUFFIX;
use super::names::PROGRESS_SUFFIX;
use super::names::ROLLED_BACK_SUFFIX;
use super::names::commit_name;
use super::names::journal_file;
use super::names::names_are_apart;
use super::names::plan_name;
use super::names::progress_name;
use super::names::rolled_back_name;
use super::plan::FILE_MAJOR_VERSION;
use super::record::RecordModel;
use super::record::TargetModel;
use super::record::record_read;
use super::record::target_models;
use vstd::prelude::*;

verus! {

/// The IDs of the names that end with `suffix`, in the order of the names.
pub open spec fn ids_with(names: Seq<Seq<char>>, suffix: Seq<char>) -> Seq<Seq<char>>
    decreases names.len(),
{
    if names.len() == 0 {
        Seq::empty()
    } else {
        let earlier = ids_with(names.drop_last(), suffix);
        match without_suffix(names.last(), suffix) {
            Some(id) => earlier.push(id),
            None => earlier,
        }
    }
}

/// Every ID comes from a name, and every name with the suffix gives one.
pub proof fn ids_with_holds_the_names(names: Seq<Seq<char>>, suffix: Seq<char>, id: Seq<char>)
    ensures
        ids_with(names, suffix).contains(id) <==> names.contains(id + suffix),
    decreases names.len(),
{
    if names.len() > 0 {
        let rest = names.drop_last();
        let earlier = ids_with(rest, suffix);
        ids_with_holds_the_names(rest, suffix, id);
        assert(names =~= rest.push(names.last()));
        let now = ids_with(names, suffix);
        if suffix.is_suffix_of(names.last()) {
            let stem = names.last().take(names.last().len() - suffix.len());
            assert(names.last() =~= stem + suffix);
            assert((id + suffix).take(id.len() as int) =~= id);
            assert((stem + suffix).take(stem.len() as int) =~= stem);
            assert(now =~= earlier.push(stem));
            assert(now[now.len() - 1] == stem);
        } else {
            assert(suffix.is_suffix_of(id + suffix)) by {
                assert((id + suffix).subrange(id.len() as int, (id + suffix).len() as int)
                    =~= suffix);
            }
        }
        if earlier.contains(id) {
            let k = choose|k: int| 0 <= k < earlier.len() && earlier[k] == id;
            assert(now[k] == id);
        }
        if rest.contains(id + suffix) {
            let k = choose|k: int| 0 <= k < rest.len() && rest[k] == id + suffix;
            assert(names[k] == id + suffix);
        }
        if names.last() == id + suffix {
            assert(names[names.len() - 1] == id + suffix);
        }
        if now.contains(id) {
            let k = choose|k: int| 0 <= k < now.len() && now[k] == id;
            if k < earlier.len() {
                assert(earlier[k] == id);
            }
        }
        if names.contains(id + suffix) {
            let k = choose|k: int| 0 <= k < names.len() && names[k] == id + suffix;
            if k < rest.len() {
                assert(rest[k] == id + suffix);
            }
        }
    }
}

/// Whether a run is an orphan: its plan was recorded, and nothing closed it.
pub open spec fn orphan(names: Set<Seq<char>>, id: Seq<char>) -> bool {
    &&& names.contains(plan_name(id))
    &&& !names.contains(commit_name(id))
    &&& !names.contains(rolled_back_name(id))
}

/// Whether a run stands committed: it was committed, and not rolled back.
pub open spec fn standing(names: Set<Seq<char>>, id: Seq<char>) -> bool {
    &&& names.contains(commit_name(id))
    &&& !names.contains(rolled_back_name(id))
}

/// The IDs of the names with `suffix`.
fn collect_ids(names: &Vec<String>, suffix: &str) -> (ids: Vec<String>)
    ensures
        views(ids@) == ids_with(views(names@), suffix@),
{
    let ghost all = views(names@);
    let mut ids: Vec<String> = Vec::new();
    let mut i: usize = 0;
    assert(views(ids@) =~= Seq::<Seq<char>>::empty());
    while i < names.len()
        invariant
            i <= names@.len(),
            all == views(names@),
            views(ids@) == ids_with(all.take(i as int), suffix@),
        decreases names@.len() - i,
    {
        assert(all.take(i + 1).drop_last() =~= all.take(i as int));
        let ghost before = views(ids@);
        match strip_suffix(names[i].as_str(), suffix) {
            Some(id) => {
                ids.push(id);
                assert(views(ids@) =~= before.push(id@));
            },
            None => {},
        }
        i = i + 1;
    }
    assert(all.take(i as int) =~= all);
    ids
}

/// The IDs that are not closed by a name with one of two suffixes, in order.
pub open spec fn unclosed(
    ids: Seq<Seq<char>>,
    names: Seq<Seq<char>>,
    first: Seq<char>,
    second: Seq<char>,
) -> Seq<Seq<char>> {
    ids.filter(|id: Seq<char>| !names.contains(id + first) && !names.contains(id + second))
}

/// Drop the IDs that a name with one of two suffixes closes.
fn drop_closed(ids: Vec<String>, names: &Vec<String>, first: &str, second: &str) -> (r: Vec<String>)
    ensures
        views(r@) == unclosed(views(ids@), views(names@), first@, second@),
{
    let ghost all = views(ids@);
    let ghost open = |id: Seq<char>|
        !views(names@).contains(id + first@) && !views(names@).contains(id + second@);
    let mut r: Vec<String> = Vec::new();
    let mut i: usize = 0;
    reveal(Seq::filter);
    assert(views(r@) =~= Seq::<Seq<char>>::empty());
    assert(all.take(0).filter(open) =~= Seq::<Seq<char>>::empty());
    while i < ids.len()
        invariant
            i <= ids@.len(),
            all == views(ids@),
            open == (|id: Seq<char>|
                !views(names@).contains(id + first@) && !views(names@).contains(id + second@)),
            views(r@) == all.take(i as int).filter(open),
        decreases ids@.len() - i,
    {
        let ghost before = views(r@);
        let closed: bool = contains_text(names, journal_file(ids[i].as_str(), first).as_str())
            || contains_text(names, journal_file(ids[i].as_str(), second).as_str());
        proof {
            reveal(Seq::filter);
            assert(all.take(i + 1).drop_last() =~= all.take(i as int));
            assert(all.take(i + 1).last() == ids@[i as int]@);
        }
        if !closed {
            r.push(ids[i].clone());
            assert(views(r@) =~= before.push(ids@[i as int]@));
        }
        i = i + 1;
    }
    assert(all.take(i as int) =~= all);
    r
}

/// The orphan plans that the journal's `names` show, oldest first.
pub fn orphan_plans(names: &Vec<String>) -> (ids: Vec<String>)
    ensures
        ascending(views(ids@)),
        views(ids@).to_multiset() == unclosed(
            ids_with(views(names@), PLAN_SUFFIX@),
            views(names@),
            COMMIT_SUFFIX@,
            ROLLED_BACK_SUFFIX@,
        ).to_multiset(),
        forall|id: Seq<char>|
            #[trigger] views(ids@).contains(id) <==> orphan(views(names@).to_set(), id),
{
    let plans: Vec<String> = collect_ids(names, PLAN_SUFFIX);
    let mut ids: Vec<String> = drop_closed(plans, names, COMMIT_SUFFIX, ROLLED_BACK_SUFFIX);
    let ghost found = views(ids@);
    sort_texts(&mut ids);
    proof {
        let all = views(names@);
        let kept = |id: Seq<char>|
            !all.contains(id + COMMIT_SUFFIX@) && !all.contains(id + ROLLED_BACK_SUFFIX@);
        assert forall|id: Seq<char>| #[trigger] views(ids@).contains(id) <==> orphan(
            all.to_set(),
            id,
        ) by {
            same_members(views(ids@), found, id);
            filter_members(ids_with(all, PLAN_SUFFIX@), kept, id);
            ids_with_holds_the_names(all, PLAN_SUFFIX@, id);
        }
    }
    ids
}

/// The commits that stand, newest first.
pub fn unrolled_commit_timestamps(names: &Vec<String>) -> (ids: Vec<String>)
    ensures
        ascending(views(ids@).reverse()),
        views(ids@).to_multiset() == unclosed(
            ids_with(views(names@), COMMIT_SUFFIX@),
            views(names@),
            ROLLED_BACK_SUFFIX@,
            ROLLED_BACK_SUFFIX@,
        ).to_multiset(),
        forall|id: Seq<char>|
            #[trigger] views(ids@).contains(id) <==> standing(views(names@).to_set(), id),
{
    let commits: Vec<String> = collect_ids(names, COMMIT_SUFFIX);
    let mut sorted: Vec<String> = drop_closed(
        commits,
        names,
        ROLLED_BACK_SUFFIX,
        ROLLED_BACK_SUFFIX,
    );
    let ghost found = views(sorted@);
    sort_texts(&mut sorted);
    let ids: Vec<String> = reversed(&sorted);
    proof {
        let all = views(names@);
        let kept = |id: Seq<char>|
            !all.contains(id + ROLLED_BACK_SUFFIX@) && !all.contains(id + ROLLED_BACK_SUFFIX@);
        assert(views(ids@).reverse() =~= views(sorted@));
        reverse_keeps_members(views(sorted@));
        assert forall|id: Seq<char>| #[trigger] views(ids@).contains(id) <==> standing(
            all.to_set(),
            id,
        ) by {
            same_members(views(ids@), found, id);
            filter_members(ids_with(all, COMMIT_SUFFIX@), kept, id);
            ids_with_holds_the_names(all, COMMIT_SUFFIX@, id);
        }
    }
    ids
}

/// The texts of `list` in the opposite order.
fn reversed(list: &Vec<String>) -> (r: Vec<String>)
    ensures
        views(r@) == views(list@).reverse(),
{
    let mut r: Vec<String> = Vec::new();
    let mut i: usize = list.len();
    while i > 0
        invariant
            i <= list@.len(),
            r@.len() == list@.len() - i,
            forall|j: int| 0 <= j < r@.len() ==> (#[trigger] r@[j])@ == list@[list@.len() - 1 - j]@,
        decreases i,
    {
        i = i - 1;
        r.push(list[i].clone());
    }
    assert(views(r@) =~= views(list@).reverse());
    r
}

/// Lists with the same multiset have the same members.
proof fn same_members(a: Seq<Seq<char>>, b: Seq<Seq<char>>, x: Seq<char>)
    requires
        a.to_multiset() == b.to_multiset(),
    ensures
        a.contains(x) <==> b.contains(x),
{
    broadcast use vstd::seq_lib::to_multiset_contains;

    assert(a.contains(x) <==> a.to_multiset().count(x) > 0);
    assert(b.contains(x) <==> b.to_multiset().count(x) > 0);
}

/// A member of a filtered list is a member of the list that passes.
pub(crate) proof fn filter_members(s: Seq<Seq<char>>, pass: spec_fn(Seq<char>) -> bool, x: Seq<char>)
    ensures
        s.filter(pass).contains(x) <==> s.contains(x) && pass(x),
    decreases s.len(),
{
    reveal(Seq::filter);
    if s.len() > 0 {
        let rest = s.drop_last();
        let kept = rest.filter(pass);
        filter_members(rest, pass, x);
        push_members(rest, s.last(), x);
        push_members(kept, s.last(), x);
        assert(s =~= rest.push(s.last()));
    }
}

/// The members of a list with one more text behind it.
proof fn push_members(s: Seq<Seq<char>>, y: Seq<char>, x: Seq<char>)
    ensures
        s.push(y).contains(x) <==> s.contains(x) || x == y,
{
    if s.contains(x) {
        let k = choose|k: int| 0 <= k < s.len() && s[k] == x;
        assert(s.push(y)[k] == x);
    }
    if x == y {
        assert(s.push(y)[s.len() as int] == x);
    }
    if s.push(y).contains(x) {
        let k = choose|k: int| 0 <= k < s.push(y).len() && s.push(y)[k] == x;
        if k < s.len() {
            assert(s[k] == x);
        }
    }
}

/// Reversing a list keeps its members.
proof fn reverse_keeps_members(s: Seq<Seq<char>>)
    ensures
        s.reverse().to_multiset() == s.to_multiset(),
    decreases s.len(),
{
    broadcast use vstd::seq_lib::to_multiset_build;

    if s.len() > 0 {
        let rest = s.drop_last();
        reverse_keeps_members(rest);
        assert(s =~= rest.push(s.last()));
        assert(s.reverse() =~= rest.reverse().insert(0, s.last()));
        vstd::seq_lib::to_multiset_insert(rest.reverse(), 0, s.last());
    } else {
        assert(s.reverse() =~= s);
    }
}

/// What the bytes of a commit sentinel say.
pub open spec fn sentinel(bytes: Seq<u8>) -> Result<RecordModel, JournalError> {
    match opened(bytes, FILE_MAJOR_VERSION) {
        Err(e) => Err(envelope_refusal(e)),
        Ok(body) => match record_read(body) {
            Some(record) => Ok(record),
            None => Err(JournalError::Decode),
        },
    }
}

/// Whether an error says that a sentinel was damaged, rather than that it is
/// from a newer library.
pub open spec fn damaged(e: JournalError) -> bool {
    e is Truncated || e is Decode
}

/// The first record that can be read among commits in order. A damaged sentinel
/// is skipped. One of a newer major version ends the search with its refusal:
/// falling back to an older commit would act on a stale state.
pub open spec fn latest(candidates: Seq<(Seq<char>, Seq<u8>)>) -> Result<
    Option<(Seq<char>, RecordModel)>,
    JournalError,
>
    decreases candidates.len(),
{
    if candidates.len() == 0 {
        Ok(None)
    } else {
        match sentinel(candidates[0].1) {
            Ok(record) => Ok(Some((candidates[0].0, record))),
            Err(e) => if damaged(e) {
                latest(candidates.drop_first())
            } else {
                Err(e)
            },
        }
    }
}

/// IDs and bytes as sequences.
pub open spec fn candidate_views(candidates: Seq<(String, Vec<u8>)>) -> Seq<(Seq<char>, Seq<u8>)> {
    candidates.map_values(|c: (String, Vec<u8>)| (c.0@, c.1@))
}

/// The most recent committed apply whose record can be read, and its ID.
/// `candidates` are the commits that stand, newest first, with the bytes of
/// their sentinels.
pub fn read_latest_commit(candidates: &Vec<(String, Vec<u8>)>) -> (r: Result<
    Option<(String, ApplyRecord)>,
    JournalError,
>)
    ensures
        match latest(candidate_views(candidates@)) {
            Err(e) => r == Err::<Option<(String, ApplyRecord)>, JournalError>(e),
            Ok(None) => r == Ok::<Option<(String, ApplyRecord)>, JournalError>(None),
            Ok(Some((id, record))) => r matches Ok(Some((found, read))) && found@ == id && read@
                == record,
        },
{
    let ghost all = candidate_views(candidates@);
    let mut i: usize = 0;
    assert(all.skip(0) =~= all);
    while i < candidates.len()
        invariant
            i <= candidates@.len(),
            all == candidate_views(candidates@),
            latest(all) == latest(all.skip(i as int)),
        decreases candidates@.len() - i,
    {
        assert(all.skip(i as int).drop_first() =~= all.skip(i + 1));
        assert(all.skip(i as int)[0] == (candidates@[i as int].0@, candidates@[i as int].1@));
        match ApplyRecord::decode(candidates[i].1.as_slice()) {
            Ok(record) => return Ok(Some((candidates[i].0.clone(), record))),
            Err(JournalError::Truncated { .. }) => {},
            Err(JournalError::Decode) => {},
            Err(e) => return Err(e),
        }
        i = i + 1;
    }
    Ok(None)
}

/// A damaged sentinel does not hide the commit before it.
pub proof fn damaged_sentinel_falls_back(
    id: Seq<char>,
    bytes: Seq<u8>,
    older: Seq<(Seq<char>, Seq<u8>)>,
)
    requires
        sentinel(bytes) matches Err(e) && damaged(e),
    ensures
        latest(seq![(id, bytes)] + older) == latest(older),
{
    assert((seq![(id, bytes)] + older).drop_first() =~= older);
}

/// A sentinel of a newer major version is never passed over.
pub proof fn newer_sentinel_is_not_skipped(
    id: Seq<char>,
    bytes: Seq<u8>,
    older: Seq<(Seq<char>, Seq<u8>)>,
)
    requires
        sentinel(bytes) matches Err(e) && e is VersionMismatch,
    ensures
        latest(seq![(id, bytes)] + older) == Err::<Option<(Seq<char>, RecordModel)>, JournalError>(
            sentinel(bytes)->Err_0,
        ),
{
}

/// What retention removes from the journal and the backups.
#[derive(Debug, Clone, PartialEq, Eq)]
pub struct HistoryPrune {
    /// The commits that go, oldest first, with every file of their runs.
    pub cycles: Vec<String>,
    /// The commits that stay, oldest first.
    pub retained: Vec<String>,
    /// The backup directories that go, in the order of their listing.
    pub backups: Vec<String>,
}

/// Whether retention removes the backups named `id`: it is the ID of a run that
/// is neither kept nor an orphan that recovery still has to reverse.
pub open spec fn backup_goes(
    journal: Set<Seq<char>>,
    retained: Seq<Seq<char>>,
    id: Seq<char>,
) -> bool {
    is_id(id) && !retained.contains(id) && !orphan(journal, id)
}

/// What retention removes, given the names in the journal and in the backups:
/// all but the newest [`RETENTION_COUNT`] commits, and the backups of every run
/// that is then neither kept nor pending.
pub fn prune_history(journal: &Vec<String>, backups: &Vec<String>) -> (r: HistoryPrune)
    ensures
        ascending(views(r.cycles@) + views(r.retained@)),
        (views(r.cycles@) + views(r.retained@)).to_multiset() == ids_with(
            views(journal@),
            COMMIT_SUFFIX@,
        ).to_multiset(),
        r.cycles@.len() == cut(
            ids_with(views(journal@), COMMIT_SUFFIX@).len(),
            RETENTION_COUNT as nat,
        ),
        views(r.backups@) == views(backups@).filter(
            |id: Seq<char>| backup_goes(views(journal@).to_set(), views(r.retained@), id),
        ),
{
    let commits: Vec<String> = collect_ids(journal, COMMIT_SUFFIX);
    assert(views(commits@).len() == commits@.len());
    let (cycles, retained): (Vec<String>, Vec<String>) = retain_newest(commits, RETENTION_COUNT);
    let pending: Vec<String> = orphan_plans(journal);
    let ghost names = views(journal@).to_set();
    let ghost goes = |id: Seq<char>| backup_goes(names, views(retained@), id);
    let ghost all = views(backups@);
    let mut gone: Vec<String> = Vec::new();
    let mut i: usize = 0;
    reveal(Seq::filter);
    assert(views(gone@) =~= Seq::<Seq<char>>::empty());
    assert(all.take(0).filter(goes) =~= Seq::<Seq<char>>::empty());
    while i < backups.len()
        invariant
            i <= backups@.len(),
            all == views(backups@),
            names == views(journal@).to_set(),
            goes == (|id: Seq<char>| backup_goes(names, views(retained@), id)),
            forall|id: Seq<char>| #[trigger] views(pending@).contains(id) <==> orphan(names, id),
            views(gone@) == all.take(i as int).filter(goes),
        decreases backups@.len() - i,
    {
        let ghost before = views(gone@);
        let id: &str = backups[i].as_str();
        let removed: bool = operation_id_parts(id).is_some() && !contains_text(&retained, id)
            && !contains_text(&pending, id);
        proof {
            reveal(Seq::filter);
            assert(all.take(i + 1).drop_last() =~= all.take(i as int));
            assert(all.take(i + 1).last() == id@);
        }
        if removed {
            gone.push(backups[i].clone());
            assert(views(gone@) =~= before.push(id@));
        }
        i = i + 1;
    }
    assert(all.take(i as int) =~= all);
    HistoryPrune { cycles, retained, backups: gone }
}

/// Retention never takes the backups of a run that recovery still has to
/// reverse, nor those of a kept commit.
pub proof fn needed_backups_stay(
    journal: Set<Seq<char>>,
    retained: Seq<Seq<char>>,
    backups: Seq<Seq<char>>,
    id: Seq<char>,
)
    requires
        orphan(journal, id) || retained.contains(id),
    ensures
        !backups.filter(|x: Seq<char>| backup_goes(journal, retained, x)).contains(id),
{
    filter_members(backups, |x: Seq<char>| backup_goes(journal, retained, x), id);
}

/// The names of a run's files in the order in which pruning deletes them.
pub open spec fn cycle_names(id: Seq<char>) -> Seq<Seq<char>> {
    seq![plan_name(id), progress_name(id), commit_name(id), rolled_back_name(id)]
}

/// The names of several runs' files in the order in which pruning deletes them.
pub open spec fn cycles_names(ids: Seq<Seq<char>>) -> Seq<Seq<char>>
    decreases ids.len(),
{
    if ids.len() == 0 {
        Seq::empty()
    } else {
        cycles_names(ids.drop_last()) + cycle_names(ids.last())
    }
}

/// The files to delete, in order, to prune the runs `ids` from the journal. A
/// plan goes before the sentinels that close it, so that a prune that is cut
/// short leaves no orphan.
pub fn prune_cycles(ids: &Vec<String>) -> (files: Vec<String>)
    ensures
        views(files@) == cycles_names(views(ids@)),
{
    let ghost all = views(ids@);
    let mut files: Vec<String> = Vec::new();
    let mut i: usize = 0;
    assert(views(files@) =~= Seq::<Seq<char>>::empty());
    while i < ids.len()
        invariant
            i <= ids@.len(),
            all == views(ids@),
            views(files@) == cycles_names(all.take(i as int)),
        decreases ids@.len() - i,
    {
        let ghost before = views(files@);
        let id: &str = ids[i].as_str();
        files.push(journal_file(id, PLAN_SUFFIX));
        files.push(journal_file(id, PROGRESS_SUFFIX));
        files.push(journal_file(id, COMMIT_SUFFIX));
        files.push(journal_file(id, ROLLED_BACK_SUFFIX));
        proof {
            assert(all.take(i + 1).drop_last() =~= all.take(i as int));
            assert(all.take(i + 1).last() == id@);
            assert(views(files@) =~= before + cycle_names(id@));
        }
        i = i + 1;
    }
    assert(all.take(i as int) =~= all);
    files
}

/// The names that are left when the first `done` names of `gone` are deleted.
pub open spec fn after_deleting(
    names: Set<Seq<char>>,
    gone: Seq<Seq<char>>,
    done: int,
) -> Set<Seq<char>> {
    names.difference(gone.take(done).to_set())
}

/// However far the deletion of a closed run's files gets, the run does not turn
/// into an orphan, and no other run changes.
pub proof fn cut_short_prune_leaves_no_orphan(
    names: Set<Seq<char>>,
    id: Seq<char>,
    done: int,
    other: Seq<char>,
)
    requires
        !orphan(names, id),
        0 <= done <= 4,
        other != id,
    ensures
        !orphan(after_deleting(names, cycle_names(id), done), id),
        orphan(after_deleting(names, cycle_names(id), done), other) == orphan(names, other),
        standing(after_deleting(names, cycle_names(id), done), other) == standing(names, other),
{
    let files = cycle_names(id);
    let gone = files.take(done);
    names_are_apart(id, other);
    names_are_apart(other, id);
    names_are_apart(id, id);
    assert forall|x: Seq<char>| gone.contains(x) implies x == plan_name(id) || x == progress_name(id)
        || x == commit_name(id) || x == rolled_back_name(id) by {
        let k = choose|k: int| 0 <= k < gone.len() && gone[k] == x;
        assert(gone[k] == files[k]);
    }
    if done > 0 {
        assert(gone[0] == plan_name(id));
        assert(gone.contains(plan_name(id)));
    } else {
        assert(gone =~= Seq::<Seq<char>>::empty());
    }
}

/// One change to the names in the journal.
pub ghost enum NameStep {
    /// A file appears.
    Add { name: Seq<char> },
    /// A file goes.
    Drop { name: Seq<char> },
}

/// The names after the first `done` steps.
pub open spec fn after_steps(names: Set<Seq<char>>, steps: Seq<NameStep>, done: nat) -> Set<
    Seq<char>,
>
    decreases done,
{
    if done == 0 {
        names
    } else {
        let before = after_steps(names, steps, (done - 1) as nat);
        match steps[done - 1] {
            NameStep::Add { name } => before.insert(name),
            NameStep::Drop { name } => before.remove(name),
        }
    }
}

/// What a run that commits does to the names in the journal: it records its plan
/// and its cursor, publishes the sentinel, and only then deletes the other two.
pub open spec fn commit_steps(id: Seq<char>) -> Seq<NameStep> {
    seq![
        NameStep::Add { name: plan_name(id) },
        NameStep::Add { name: progress_name(id) },
        NameStep::Add { name: commit_name(id) },
        NameStep::Drop { name: plan_name(id) },
        NameStep::Drop { name: progress_name(id) },
    ]
}

/// A run that is cut off at any point after its plan was recorded is either an
/// orphan, which recovery reverses, or stands committed: it becomes committed in
/// the one step that publishes the sentinel.
pub proof fn commit_is_atomic(names: Set<Seq<char>>, id: Seq<char>, done: nat)
    requires
        1 <= done <= 5,
        !names.contains(commit_name(id)),
        !names.contains(rolled_back_name(id)),
    ensures
        orphan(after_steps(names, commit_steps(id), done), id) <==> done < 3,
        standing(after_steps(names, commit_steps(id), done), id) <==> done >= 3,
{
    names_are_apart(id, id);
    reveal_with_fuel(after_steps, 6);
}

/// Whether discarding the run `id` also deletes its backups: not where a
/// committed apply shares the ID, because a rollback of that apply reads them.
pub fn discards_backups(names: &Vec<String>, id: &str) -> (r: bool)
    ensures
        r == !views(names@).contains(commit_name(id@)),
{
    !contains_text(names, journal_file(id, COMMIT_SUFFIX).as_str())
}

/// A record that marks the current state: every target as it is, nothing
/// reaped.
pub fn checkpoint_record(last_apply: LastApply, targets: Vec<ExpectedTarget>) -> (r: ApplyRecord)
    ensures
        r.last_apply == last_apply,
        r.checkpoint,
        r.reaped@.len() == 0,
        target_models(r.targets@) == target_models(targets@).map_values(
            |t: TargetModel| t.with_disposition(Disposition::Unchanged),
        ),
{
    let ghost all = target_models(targets@);
    let mut marked: Vec<ExpectedTarget> = Vec::new();
    let mut rest: Vec<ExpectedTarget> = targets;
    while rest.len() > 0
        invariant
            rest@.len() + marked@.len() == all.len(),
            target_models(rest@) == all.skip(marked@.len() as int),
            target_models(marked@) == all.take(marked@.len() as int).map_values(
                |t: TargetModel| t.with_disposition(Disposition::Unchanged),
            ),
        decreases rest@.len(),
    {
        let ghost n = marked@.len() as int;
        let ghost before = target_models(marked@);
        let ghost models = target_models(rest@);
        assert(models[0] == rest@[0]@);
        let t: ExpectedTarget = rest.remove(0);
        marked.push(t.with_disposition(Disposition::Unchanged));
        proof {
            assert(t@ == all[n]);
            assert(target_models(rest@) =~= models.skip(1));
            assert(models.skip(1) =~= all.skip(n + 1));
            assert(target_models(marked@) =~= before.push(
                t@.with_disposition(Disposition::Unchanged),
            ));
            assert(target_models(marked@) =~= all.take(n + 1).map_values(
                |t: TargetModel| t.with_disposition(Disposition::Unchanged),
            ));
        }
    }
    assert(all.take(all.len() as int) =~= all);
    let mut r: ApplyRecord = ApplyRecord::new(last_apply, marked, Vec::new());
    r.checkpoint = true;
    r
}

} // verus!
