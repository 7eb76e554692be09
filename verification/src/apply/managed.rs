//! Which targets the current manifests manage, and which recorded ones they no
//! longer do.
//!
//! A target that an earlier apply recorded and that nothing manages now is an
//! orphan: its entry was removed, its condition turned false, or the file of the
//! tree that it came from is gone. An apply backs an orphan up and removes it. It
//! never removes a directory, and never a path that lies below a managed target:
//! that belongs to the entry of the target, and may lead through a link into its
//! source.

use crate::config::ManagedEntry;
use crate::config::file_entry::walks_a_tree;
use crate::journal::Disposition;
use crate::path_order::in_path_order;
use crate::path_order::sort_paths;
use crate::paths::expand_tilde;
use crate::paths::tilde_expanded;
use crate::status::ManagedTargets;
use crate::status::governed;
use crate::text::contains_text;
use crate::text::opt_view;
use crate::text::views;
use crate::utf8_path::join_path;
use crate::utf8_path::parent_of;
use crate::utf8_path::path_parent;
use super::classify::is_tree_mode;
use super::planning::ResolvedOperation;
use super::planning::leaf_targets;
use super::registry::EntryOrigin;
use vstd::prelude::*;

verus! {

/// The targets of a row that a leading `~` is expanded in.
pub open spec fn expanded(targets: Seq<Seq<char>>, home: Seq<char>) -> Seq<Seq<char>> {
    targets.map_values(|t: Seq<char>| tilde_expanded(t, home))
}

/// The files of a tree under each of a row of target directories.
pub open spec fn leaves_under(targets: Seq<Seq<char>>, leaves: Seq<Seq<char>>) -> Seq<Seq<char>>
    decreases targets.len(),
{
    if targets.len() == 0 {
        Seq::empty()
    } else {
        leaves_under(targets.drop_last(), leaves) + leaf_targets(targets.last(), leaves)
    }
}

/// A list of files that may not have been walked.
pub open spec fn walked(leaves: Option<Vec<String>>) -> Option<Seq<Seq<char>>> {
    match leaves {
        Some(l) => Some(views(l@)),
        None => None,
    }
}

/// The targets that an active entry manages: of a tree one for each file of its
/// source, and otherwise those declared. A tree whose source cannot be walked
/// manages none.
pub open spec fn managed_paths(
    entry: ManagedEntry,
    origin: EntryOrigin,
    home: Seq<char>,
    leaves: Option<Seq<Seq<char>>>,
) -> Seq<Seq<char>> {
    let targets = expanded(views(entry.targets@), home);
    if !walks_a_tree(entry.mode) {
        targets
    } else if origin.source_root is None || leaves is None {
        Seq::empty()
    } else {
        leaves_under(targets, leaves->0)
    }
}

/// Whether the files of an active entry cannot be told: it is a tree from a remote
/// whose checkout is not on this machine.
pub open spec fn indeterminate(entry: ManagedEntry, origin: EntryOrigin) -> bool {
    walks_a_tree(entry.mode) && origin.source_root is None && origin.remote is Some
}

/// The directories whose managed files cannot be told, of an active entry.
pub open spec fn indeterminate_paths(
    entry: ManagedEntry,
    origin: EntryOrigin,
    home: Seq<char>,
) -> Seq<Seq<char>> {
    if indeterminate(entry, origin) {
        expanded(views(entry.targets@), home)
    } else {
        Seq::empty()
    }
}

/// A row of names with one more, unless it is there already.
pub open spec fn with_name(names: Seq<Seq<char>>, name: Seq<char>) -> Seq<Seq<char>> {
    if names.contains(name) {
        names
    } else {
        names.push(name)
    }
}

/// The remotes that are not on this machine, with that of an entry.
pub open spec fn remotes_with(
    names: Seq<Seq<char>>,
    entry: ManagedEntry,
    origin: EntryOrigin,
) -> Seq<Seq<char>> {
    if indeterminate(entry, origin) {
        with_name(names, opt_view(origin.remote)->0)
    } else {
        names
    }
}

fn push_expanded(out: &mut Vec<String>, targets: &Vec<String>, home: &str)
    ensures
        views(final(out)@) == views(old(out)@) + expanded(views(targets@), home@),
{
    let ghost before = views(out@);
    let ghost all = views(targets@);
    let mut i: usize = 0;
    assert(before + expanded(all.take(0), home@) =~= before);
    while i < targets.len()
        invariant
            i <= targets@.len(),
            all == views(targets@),
            views(out@) == before + expanded(all.take(i as int), home@),
        decreases targets@.len() - i,
    {
        let ghost so_far = views(out@);
        let path: String = expand_tilde(targets[i].as_str(), home);
        let ghost p = path@;
        out.push(path);
        proof {
            assert(views(out@) =~= so_far.push(p));
            assert(expanded(all.take(i + 1), home@) =~= expanded(all.take(i as int), home@).push(p));
            assert(views(out@) =~= before + expanded(all.take(i + 1), home@));
        }
        i = i + 1;
    }
    assert(all.take(i as int) =~= all);
}

fn push_leaves(out: &mut Vec<String>, targets: &Vec<String>, home: &str, leaves: &Vec<String>)
    ensures
        views(final(out)@) == views(old(out)@) + leaves_under(
            expanded(views(targets@), home@),
            views(leaves@),
        ),
{
    let ghost before = views(out@);
    let ghost all = expanded(views(targets@), home@);
    let ghost files = views(leaves@);
    let mut i: usize = 0;
    assert(before + leaves_under(all.take(0), files) =~= before);
    while i < targets.len()
        invariant
            i <= targets@.len(),
            all == expanded(views(targets@), home@),
            files == views(leaves@),
            views(out@) == before + leaves_under(all.take(i as int), files),
        decreases targets@.len() - i,
    {
        let ghost so_far = views(out@);
        let target: String = expand_tilde(targets[i].as_str(), home);
        let mut j: usize = 0;
        assert(so_far + leaf_targets(target@, files.take(0)) =~= so_far);
        while j < leaves.len()
            invariant
                j <= leaves@.len(),
                files == views(leaves@),
                views(out@) == so_far + leaf_targets(target@, files.take(j as int)),
            decreases leaves@.len() - j,
        {
            let ghost now = views(out@);
            let path: String = join_path(target.as_str(), leaves[j].as_str());
            let ghost p = path@;
            out.push(path);
            proof {
                assert(views(out@) =~= now.push(p));
                assert(leaf_targets(target@, files.take(j + 1)) =~= leaf_targets(
                    target@,
                    files.take(j as int),
                ).push(p));
                assert(views(out@) =~= so_far + leaf_targets(target@, files.take(j + 1)));
            }
            j = j + 1;
        }
        proof {
            assert(files.take(j as int) =~= files);
            assert(all.take(i + 1).drop_last() =~= all.take(i as int));
            assert(all.take(i + 1).last() == target@);
            assert(views(out@) =~= before + leaves_under(all.take(i + 1), files));
        }
        i = i + 1;
    }
    assert(all.take(i as int) =~= all);
}

/// Adds what an active entry manages. `leaves` are the files of its source, if it
/// is a tree that could be walked. A tree from a remote whose checkout is not here
/// is another matter than one whose source is gone: its files cannot be told, so
/// that everything under its targets may be managed.
pub fn insert_managed_targets(
    entry: &ManagedEntry,
    origin: &EntryOrigin,
    home: &str,
    leaves: &Option<Vec<String>>,
    managed: &mut ManagedTargets,
)
    ensures
        views(final(managed).targets@) == views(old(managed).targets@) + managed_paths(
            *entry,
            *origin,
            home@,
            walked(*leaves),
        ),
        views(final(managed).indeterminate_roots@) == views(old(managed).indeterminate_roots@)
            + indeterminate_paths(*entry, *origin, home@),
        views(final(managed).unmaterialized_remotes@) == remotes_with(
            views(old(managed).unmaterialized_remotes@),
            *entry,
            *origin,
        ),
{
    let ghost targets = views(managed.targets@);
    let ghost roots = views(managed.indeterminate_roots@);
    let ghost remotes = views(managed.unmaterialized_remotes@);
    assert(targets + Seq::<Seq<char>>::empty() =~= targets);
    assert(roots + Seq::<Seq<char>>::empty() =~= roots);
    if !is_tree_mode(entry.mode) {
        push_expanded(&mut managed.targets, &entry.targets, home);
        return;
    }
    match &origin.source_root {
        None => match &origin.remote {
            Some(remote) => {
                if !contains_text(&managed.unmaterialized_remotes, remote.as_str()) {
                    managed.unmaterialized_remotes.push(remote.clone());
                    assert(views(managed.unmaterialized_remotes@) =~= remotes.push(remote@));
                }
                push_expanded(&mut managed.indeterminate_roots, &entry.targets, home);
            },
            None => {},
        },
        Some(_) => match leaves {
            Some(leaves) => push_leaves(&mut managed.targets, &entry.targets, home, leaves),
            None => {},
        },
    }
}

/// A declared entry, with whether its condition holds and where its source lies.
#[derive(Debug, Clone, PartialEq, Eq)]
pub struct GatedEntry {
    /// The entry.
    pub entry: ManagedEntry,
    /// Whether its condition holds on this machine.
    pub active: bool,
    /// Where its source lies.
    pub origin: EntryOrigin,
    /// The files of its source, if it is a tree that could be walked.
    pub leaves: Option<Vec<String>>,
}

/// The targets that the active entries of a row manage, in order.
pub open spec fn all_managed_paths(entries: Seq<GatedEntry>, home: Seq<char>) -> Seq<Seq<char>>
    decreases entries.len(),
{
    if entries.len() == 0 {
        Seq::empty()
    } else {
        let before = all_managed_paths(entries.drop_last(), home);
        let e = entries.last();
        if e.active {
            before + managed_paths(e.entry, e.origin, home, walked(e.leaves))
        } else {
            before
        }
    }
}

/// The directories whose managed files cannot be told, of the active entries of a
/// row.
pub open spec fn all_indeterminate_paths(entries: Seq<GatedEntry>, home: Seq<char>) -> Seq<
    Seq<char>,
>
    decreases entries.len(),
{
    if entries.len() == 0 {
        Seq::empty()
    } else {
        let before = all_indeterminate_paths(entries.drop_last(), home);
        let e = entries.last();
        if e.active {
            before + indeterminate_paths(e.entry, e.origin, home)
        } else {
            before
        }
    }
}

/// The remotes of the active entries of a row that are not on this machine.
pub open spec fn all_missing_remotes(entries: Seq<GatedEntry>) -> Seq<Seq<char>>
    decreases entries.len(),
{
    if entries.len() == 0 {
        Seq::empty()
    } else {
        let before = all_missing_remotes(entries.drop_last());
        let e = entries.last();
        if e.active {
            remotes_with(before, e.entry, e.origin)
        } else {
            before
        }
    }
}

/// What the current manifests manage. An entry whose condition does not hold
/// manages nothing.
pub fn current_managed_targets(entries: &Vec<GatedEntry>, home: &str) -> (managed: ManagedTargets)
    ensures
        views(managed.targets@) == all_managed_paths(entries@, home@),
        views(managed.indeterminate_roots@) == all_indeterminate_paths(entries@, home@),
        views(managed.unmaterialized_remotes@) == all_missing_remotes(entries@),
{
    let mut managed: ManagedTargets = ManagedTargets::empty();
    proof {
        assert(views(managed.targets@) =~= Seq::<Seq<char>>::empty());
        assert(views(managed.indeterminate_roots@) =~= Seq::<Seq<char>>::empty());
        assert(views(managed.unmaterialized_remotes@) =~= Seq::<Seq<char>>::empty());
    }
    let mut i: usize = 0;
    while i < entries.len()
        invariant
            i <= entries@.len(),
            views(managed.targets@) == all_managed_paths(entries@.take(i as int), home@),
            views(managed.indeterminate_roots@) == all_indeterminate_paths(
                entries@.take(i as int),
                home@,
            ),
            views(managed.unmaterialized_remotes@) == all_missing_remotes(entries@.take(i as int)),
        decreases entries@.len() - i,
    {
        let e: &GatedEntry = &entries[i];
        proof {
            assert(entries@.take(i + 1).drop_last() =~= entries@.take(i as int));
            assert(entries@.take(i + 1).last() == *e);
        }
        if e.active {
            insert_managed_targets(&e.entry, &e.origin, home, &e.leaves, &mut managed);
        }
        i = i + 1;
    }
    assert(entries@.take(i as int) =~= entries@);
    managed
}

/// The directories above a path, from the nearest.
pub open spec fn ancestors(path: Seq<char>) -> Seq<Seq<char>>
    decreases path.len(),
{
    match path_parent(path) {
        Some(parent) => if parent.len() < path.len() {
            seq![parent] + ancestors(parent)
        } else {
            Seq::empty()
        },
        None => Seq::empty(),
    }
}

/// The directories above `path`, from the nearest.
pub fn ancestors_of(path: &str) -> (r: Vec<String>)
    ensures
        views(r@) == ancestors(path@),
{
    let mut r: Vec<String> = Vec::new();
    let mut at: String = path.to_owned();
    assert(views(r@) + ancestors(at@) =~= ancestors(path@));
    loop
        invariant
            views(r@) + ancestors(at@) == ancestors(path@),
        decreases at@.len(),
    {
        let ghost done = views(r@);
        match parent_of(at.as_str()) {
            Some(parent) => {
                r.push(parent.clone());
                proof {
                    assert(views(r@) =~= done.push(parent@));
                    assert(done + (seq![parent@] + ancestors(parent@)) =~= done.push(parent@)
                        + ancestors(parent@));
                }
                at = parent;
            },
            None => {
                assert(done + Seq::<Seq<char>>::empty() =~= done);
                return r;
            },
        }
    }
}

/// What stands at a recorded target.
#[derive(Debug, Clone, Copy, PartialEq, Eq, Structural)]
pub enum Presence {
    /// Nothing.
    Absent,
    /// A directory.
    Directory,
    /// A file or a symbolic link.
    Other,
}

/// A recorded target with what stands there and the keys that it and the
/// directories above it are compared by.
#[derive(Debug, Clone, PartialEq, Eq)]
pub struct RecordedTarget {
    /// The target.
    pub target: String,
    /// The key of the target.
    pub key: String,
    /// What stands there.
    pub presence: Presence,
    /// The keys of the directories above it.
    pub ancestor_keys: Vec<String>,
}

/// Whether a key of a row is that of a managed target.
pub open spec fn any_governed(managed: ManagedTargets, keys: Seq<Seq<char>>) -> bool {
    exists|i: int| 0 <= i < keys.len() && governed(managed, #[trigger] keys[i])
}

/// Whether a recorded target is an orphan to remove.
pub open spec fn is_orphan(managed: ManagedTargets, t: RecordedTarget) -> bool {
    &&& !governed(managed, t.key@)
    &&& t.presence is Other
    &&& !any_governed(managed, views(t.ancestor_keys@))
}

/// The orphans among the recorded targets, in order.
pub open spec fn orphans(managed: ManagedTargets, recorded: Seq<RecordedTarget>) -> Seq<Seq<char>>
    decreases recorded.len(),
{
    if recorded.len() == 0 {
        Seq::empty()
    } else {
        let before = orphans(managed, recorded.drop_last());
        if is_orphan(managed, recorded.last()) {
            before.push(recorded.last().target@)
        } else {
            before
        }
    }
}

fn governs_any(managed: &ManagedTargets, keys: &Vec<String>) -> (r: bool)
    ensures
        r == any_governed(*managed, views(keys@)),
{
    let mut i: usize = 0;
    while i < keys.len()
        invariant
            i <= keys@.len(),
            forall|k: int| 0 <= k < i ==> !governed(*managed, #[trigger] views(keys@)[k]),
        decreases keys@.len() - i,
    {
        if managed.governs(keys[i].as_str()) {
            assert(governed(*managed, views(keys@)[i as int]));
            return true;
        }
        i = i + 1;
    }
    false
}

/// The recorded targets that nothing manages any more and that are still there to
/// be removed, in the order of the record.
pub fn detect_orphans(managed: &ManagedTargets, recorded: &Vec<RecordedTarget>) -> (r: Vec<String>)
    ensures
        views(r@) == orphans(*managed, recorded@),
{
    let mut r: Vec<String> = Vec::new();
    assert(views(r@) =~= Seq::<Seq<char>>::empty());
    let mut i: usize = 0;
    while i < recorded.len()
        invariant
            i <= recorded@.len(),
            views(r@) == orphans(*managed, recorded@.take(i as int)),
        decreases recorded@.len() - i,
    {
        let ghost before = views(r@);
        let t: &RecordedTarget = &recorded[i];
        proof {
            assert(recorded@.take(i + 1).drop_last() =~= recorded@.take(i as int));
            assert(recorded@.take(i + 1).last() == *t);
        }
        let removable: bool = matches!(t.presence, Presence::Other);
        if !managed.governs(t.key.as_str()) && removable && !governs_any(
            managed,
            &t.ancestor_keys,
        ) {
            r.push(t.target.clone());
            assert(views(r@) =~= before.push(t.target@));
        }
        i = i + 1;
    }
    assert(recorded@.take(i as int) =~= recorded@);
    r
}

/// Every orphan is a recorded target that is there, is no directory, and neither is
/// managed nor lies below a managed target.
pub proof fn orphans_are_unmanaged_files(
    managed: ManagedTargets,
    recorded: Seq<RecordedTarget>,
    i: int,
)
    requires
        0 <= i < orphans(managed, recorded).len(),
    ensures
        exists|k: int|
            0 <= k < recorded.len() && (#[trigger] recorded[k]).target@ == orphans(
                managed,
                recorded,
            )[i] && recorded[k].presence is Other && !governed(managed, recorded[k].key@)
                && !any_governed(managed, views(recorded[k].ancestor_keys@)),
    decreases recorded.len(),
{
    let front = recorded.drop_last();
    let before = orphans(managed, front);
    if i < before.len() {
        orphans_are_unmanaged_files(managed, front, i);
        let k = choose|k: int|
            0 <= k < front.len() && (#[trigger] front[k]).target@ == before[i]
                && front[k].presence is Other && !governed(managed, front[k].key@)
                && !any_governed(managed, views(front[k].ancestor_keys@));
        assert(recorded[k] == front[k]);
    } else {
        assert(recorded[recorded.len() - 1] == recorded.last());
    }
}

/// The orphans, sorted by their paths for a preview that does not depend on the
/// order of the record.
pub fn plan_orphans(managed: &ManagedTargets, recorded: &Vec<RecordedTarget>) -> (r: Vec<String>)
    ensures
        in_path_order(views(r@)),
        views(r@).to_multiset() == orphans(*managed, recorded@).to_multiset(),
{
    let mut r: Vec<String> = detect_orphans(managed, recorded);
    sort_paths(&mut r);
    r
}

/// Whether every target of a row of operations is unchanged.
pub open spec fn nothing_to_write(ops: Seq<ResolvedOperation>) -> bool {
    forall|i: int, j: int|
        #![trigger ops[i].dispositions@[j]]
        0 <= i < ops.len() && 0 <= j < ops[i].dispositions@.len()
            ==> ops[i].dispositions@[j].aggregate is Unchanged
}

fn has_nothing_to_write(ops: &Vec<ResolvedOperation>) -> (r: bool)
    ensures
        r == nothing_to_write(ops@),
{
    let mut i: usize = 0;
    while i < ops.len()
        invariant
            i <= ops@.len(),
            forall|a: int, b: int|
                #![trigger ops@[a].dispositions@[b]]
                0 <= a < i && 0 <= b < ops@[a].dispositions@.len()
                    ==> ops@[a].dispositions@[b].aggregate is Unchanged,
        decreases ops@.len() - i,
    {
        let mut j: usize = 0;
        while j < ops[i].dispositions.len()
            invariant
                i < ops@.len(),
                j <= ops@[i as int].dispositions@.len(),
                forall|a: int, b: int|
                    #![trigger ops@[a].dispositions@[b]]
                    0 <= a < i && 0 <= b < ops@[a].dispositions@.len()
                        ==> ops@[a].dispositions@[b].aggregate is Unchanged,
                forall|b: int|
                    0 <= b < j ==> (#[trigger] ops@[i as int].dispositions@[b]).aggregate
                        is Unchanged,
            decreases ops@[i as int].dispositions@.len() - j,
        {
            if ops[i].dispositions[j].aggregate != Disposition::Unchanged {
                assert(!(ops@[i as int].dispositions@[j as int].aggregate is Unchanged));
                return false;
            }
            j = j + 1;
        }
        i = i + 1;
    }
    true
}

/// Whether an apply would do nothing: it reconciles the whole plan, every target is
/// unchanged, an earlier commit stays in force, and there is no orphan. A run under
/// a lock that the caller holds re-records one target and is never nothing.
pub fn is_full_noop(
    reap: bool,
    ops: &Vec<ResolvedOperation>,
    has_commit: bool,
    has_orphans: bool,
) -> (r: bool)
    ensures
        r == (reap && nothing_to_write(ops@) && has_commit && !has_orphans),
{
    reap && has_nothing_to_write(ops) && has_commit && !has_orphans
}

/// Whether an apply of a plan by itself would do nothing.
pub fn plan_is_full_noop(
    ops: &Vec<ResolvedOperation>,
    has_commit: bool,
    has_orphans: bool,
) -> (r: bool)
    ensures
        r == (nothing_to_write(ops@) && has_commit && !has_orphans),
{
    is_full_noop(true, ops, has_commit, has_orphans)
}

} // verus!
