//! Which targets the manifests manage, and which recorded ones are orphans.

use crate::apply::commit_record::ManagedObject;
use crate::apply::commit_record::ObjectModel;
use crate::apply::commit_record::committed_objects;
use crate::apply::commit_record::object_models;
use crate::apply::commit_record::operation_objects;
use crate::apply::commit_record::pairs;
use crate::apply::commit_record::plan_objects;
use crate::apply::commit_record::target_objects;
use crate::apply::commit_record::walk_views;
use crate::apply::managed::GatedEntry;
use crate::apply::managed::Presence;
use crate::apply::managed::RecordedTarget;
use crate::apply::managed::all_indeterminate_paths;
use crate::apply::managed::all_managed_paths;
use crate::apply::managed::all_missing_remotes;
use crate::apply::managed::current_managed_targets;
use crate::apply::managed::detect_orphans;
use crate::apply::managed::expanded;
use crate::apply::managed::indeterminate_paths;
use crate::apply::managed::is_full_noop;
use crate::apply::managed::is_orphan;
use crate::apply::managed::leaves_under;
use crate::apply::managed::managed_paths;
use crate::apply::managed::orphans;
use crate::apply::managed::plan_is_full_noop;
use crate::apply::managed::plan_orphans;
use crate::apply::managed::walked;
use crate::apply::planning::ResolvedModel;
use crate::apply::planning::ResolvedOperation;
use crate::apply::planning::leaf_models;
use crate::apply::planning::leaf_targets;
use crate::apply::planning::relation_models;
use crate::apply::planning::resolved_models;
use crate::config::FileMode;
use crate::journal::disposition::Disposition;
use crate::path_order::path_under;
use crate::path_order::same_path;
use crate::paths::tilde_expanded;
use crate::status::ManagedTargets;
use crate::status::governed;
use crate::text::views;
use crate::utf8_path::path_joined;
use vstd::prelude::*;

verus! {

/// Whether an active entry manages a path: one of its targets, or, for a tree whose
/// source was walked, a file of the source under one of its targets.
pub open spec fn manages(e: GatedEntry, home: Seq<char>, path: Seq<char>) -> bool {
    e.active && match e.entry.mode {
        FileMode::SymlinkTree | FileMode::CopyTree => e.origin.source_root is Some && match e.leaves {
            Some(leaves) => exists|t: int, l: int|
                0 <= t < e.entry.targets@.len() && 0 <= l < leaves@.len() && path
                    == #[trigger] path_joined(
                    tilde_expanded(e.entry.targets@[t]@, home),
                    leaves@[l]@,
                ),
            None => false,
        },
        _ => exists|t: int|
            0 <= t < e.entry.targets@.len() && path == tilde_expanded(
                (#[trigger] e.entry.targets@[t])@,
                home,
            ),
    }
}

proof fn joined_members(targets: Seq<Seq<char>>, leaves: Seq<Seq<char>>, path: Seq<char>)
    ensures
        leaves_under(targets, leaves).contains(path) <==> exists|t: int, l: int|
            0 <= t < targets.len() && 0 <= l < leaves.len() && path == #[trigger] path_joined(
                targets[t],
                leaves[l],
            ),
    decreases targets.len(),
{
    if targets.len() > 0 {
        let front = targets.drop_last();
        let before = leaves_under(front, leaves);
        let here = leaf_targets(targets.last(), leaves);
        let all = before + here;
        joined_members(front, leaves, path);
        if all.contains(path) {
            let k = choose|k: int| 0 <= k < all.len() && all[k] == path;
            if k < before.len() {
                assert(before[k] == path);
                let (t, l) = choose|t: int, l: int|
                    0 <= t < front.len() && 0 <= l < leaves.len() && path == #[trigger] path_joined(
                        front[t],
                        leaves[l],
                    );
                assert(path == path_joined(targets[t], leaves[l]));
            } else {
                let l = k - before.len();
                assert(here[l] == path);
                assert(path == path_joined(targets[targets.len() - 1], leaves[l]));
            }
        }
        if exists|t: int, l: int|
            0 <= t < targets.len() && 0 <= l < leaves.len() && path == #[trigger] path_joined(
                targets[t],
                leaves[l],
            ) {
            let (t, l) = choose|t: int, l: int|
                0 <= t < targets.len() && 0 <= l < leaves.len() && path == #[trigger] path_joined(
                    targets[t],
                    leaves[l],
                );
            if t < front.len() {
                assert(path == path_joined(front[t], leaves[l]));
                let k = choose|k: int| 0 <= k < before.len() && before[k] == path;
                assert(all[k] == path);
            } else {
                assert(here[l] == path);
                assert(all[before.len() + l] == path);
            }
        }
    }
}

proof fn entry_members(e: GatedEntry, home: Seq<char>, path: Seq<char>)
    requires
        e.active,
    ensures
        managed_paths(e.entry, e.origin, home, walked(e.leaves)).contains(path) <==> manages(
            e,
            home,
            path,
        ),
{
    let all = managed_paths(e.entry, e.origin, home, walked(e.leaves));
    let targets = expanded(views(e.entry.targets@), home);
    assert(targets.len() == e.entry.targets@.len());
    assert(forall|t: int|
        0 <= t < targets.len() ==> #[trigger] targets[t] == tilde_expanded(
            e.entry.targets@[t]@,
            home,
        ));
    match e.entry.mode {
        FileMode::SymlinkTree | FileMode::CopyTree => {
            if e.origin.source_root is Some && e.leaves is Some {
                let leaves = e.leaves->0@;
                let names = views(leaves);
                joined_members(targets, names, path);
                assert(forall|l: int| 0 <= l < leaves.len() ==> #[trigger] names[l] == leaves[l]@);
                if all.contains(path) {
                    let (t, l) = choose|t: int, l: int|
                        0 <= t < targets.len() && 0 <= l < names.len() && path
                            == #[trigger] path_joined(targets[t], names[l]);
                    assert(path == path_joined(
                        tilde_expanded(e.entry.targets@[t]@, home),
                        leaves[l]@,
                    ));
                }
                if manages(e, home, path) {
                    let (t, l) = choose|t: int, l: int|
                        0 <= t < e.entry.targets@.len() && 0 <= l < leaves.len() && path
                            == #[trigger] path_joined(
                            tilde_expanded(e.entry.targets@[t]@, home),
                            leaves[l]@,
                        );
                    assert(path == path_joined(targets[t], names[l]));
                }
            }
        },
        _ => {
            if all.contains(path) {
                let t = choose|t: int| 0 <= t < all.len() && all[t] == path;
                assert(e.entry.targets@[t]@ == views(e.entry.targets@)[t]);
            }
            if manages(e, home, path) {
                let t = choose|t: int|
                    0 <= t < e.entry.targets@.len() && path == tilde_expanded(
                        (#[trigger] e.entry.targets@[t])@,
                        home,
                    );
                assert(targets[t] == path);
            }
        },
    }
}

proof fn row_members(entries: Seq<GatedEntry>, home: Seq<char>, path: Seq<char>)
    ensures
        all_managed_paths(entries, home).contains(path) <==> exists|i: int|
            0 <= i < entries.len() && manages(#[trigger] entries[i], home, path),
    decreases entries.len(),
{
    if entries.len() > 0 {
        let front = entries.drop_last();
        let e = entries.last();
        let before = all_managed_paths(front, home);
        let all = all_managed_paths(entries, home);
        row_members(front, home, path);
        assert(entries[entries.len() - 1] == e);
        assert(forall|i: int| 0 <= i < front.len() ==> #[trigger] front[i] == entries[i]);
        if e.active {
            entry_members(e, home, path);
            let here = managed_paths(e.entry, e.origin, home, walked(e.leaves));
            if all.contains(path) {
                let k = choose|k: int| 0 <= k < all.len() && all[k] == path;
                if k < before.len() {
                    assert(before[k] == path);
                } else {
                    assert(here[k - before.len()] == path);
                }
            }
            if before.contains(path) {
                let k = choose|k: int| 0 <= k < before.len() && before[k] == path;
                assert(all[k] == path);
            }
            if here.contains(path) {
                let k = choose|k: int| 0 <= k < here.len() && here[k] == path;
                assert(all[before.len() + k] == path);
            }
        }
        if before.contains(path) {
            let i = choose|i: int|
                0 <= i < front.len() && manages(#[trigger] front[i], home, path);
            assert(manages(entries[i], home, path));
        }
        if exists|i: int| 0 <= i < entries.len() && manages(#[trigger] entries[i], home, path) {
            let i = choose|i: int|
                0 <= i < entries.len() && manages(#[trigger] entries[i], home, path);
            if i < front.len() {
                assert(manages(front[i], home, path));
            }
        }
    }
}

/// The manifests manage exactly the targets of their active entries: of a tree of either
/// kind whose source was walked each file of it under each target, and of any other
/// entry the targets themselves.
pub proof fn entries_manage_their_targets(
    entries: Vec<GatedEntry>,
    home: &str,
    managed: ManagedTargets,
    path: Seq<char>,
)
    requires
        call_ensures(current_managed_targets, (&entries, home), managed),
    ensures
        (exists|k: int| 0 <= k < managed.targets@.len() && (#[trigger] managed.targets@[k])@ == path)
            <==> exists|i: int|
            0 <= i < entries@.len() && manages(#[trigger] entries@[i], home@, path),
{
    row_members(entries@, home@, path);
    let all = views(managed.targets@);
    assert(all.len() == managed.targets@.len());
    assert(forall|k: int|
        0 <= k < all.len() ==> (#[trigger] managed.targets@[k])@ == all[k]);
    if all.contains(path) {
        let k = choose|k: int| 0 <= k < all.len() && all[k] == path;
        assert(managed.targets@[k]@ == path);
    }
    if exists|k: int| 0 <= k < managed.targets@.len() && (#[trigger] managed.targets@[k])@ == path {
        let k = choose|k: int|
            0 <= k < managed.targets@.len() && (#[trigger] managed.targets@[k])@ == path;
        assert(all[k] == path);
    }
}

/// Everything under a target may be managed exactly where the target is that of an
/// active tree from a remote whose checkout is not on this machine.
pub proof fn missing_checkouts_leave_their_targets_open(
    entries: Vec<GatedEntry>,
    home: &str,
    managed: ManagedTargets,
    path: Seq<char>,
)
    requires
        call_ensures(current_managed_targets, (&entries, home), managed),
    ensures
        (exists|k: int|
            0 <= k < managed.indeterminate_roots@.len() && (
            #[trigger] managed.indeterminate_roots@[k])@ == path) <==> exists|i: int|
            0 <= i < entries@.len() && leaves_open(#[trigger] entries@[i], home@, path),
{
    row_open_members(entries@, home@, path);
    let all = views(managed.indeterminate_roots@);
    assert(all.len() == managed.indeterminate_roots@.len());
    if all.contains(path) {
        let k = choose|k: int| 0 <= k < all.len() && all[k] == path;
        assert(managed.indeterminate_roots@[k]@ == path);
    }
    if exists|k: int|
        0 <= k < managed.indeterminate_roots@.len() && (#[trigger] managed.indeterminate_roots@[k])@
            == path {
        let k = choose|k: int|
            0 <= k < managed.indeterminate_roots@.len() && (
            #[trigger] managed.indeterminate_roots@[k])@ == path;
        assert(all[k] == path);
    }
}

/// Whether a path is a target of an active tree from a remote whose checkout is not on
/// this machine.
pub open spec fn leaves_open(e: GatedEntry, home: Seq<char>, path: Seq<char>) -> bool {
    &&& e.active
    &&& e.entry.mode == FileMode::SymlinkTree || e.entry.mode == FileMode::CopyTree
    &&& e.origin.source_root is None
    &&& e.origin.remote is Some
    &&& exists|t: int|
        0 <= t < e.entry.targets@.len() && path == tilde_expanded(
            (#[trigger] e.entry.targets@[t])@,
            home,
        )
}

proof fn row_open_members(entries: Seq<GatedEntry>, home: Seq<char>, path: Seq<char>)
    ensures
        all_indeterminate_paths(entries, home).contains(path) <==> exists|i: int|
            0 <= i < entries.len() && leaves_open(#[trigger] entries[i], home, path),
    decreases entries.len(),
{
    if entries.len() > 0 {
        let front = entries.drop_last();
        let e = entries.last();
        let before = all_indeterminate_paths(front, home);
        let all = all_indeterminate_paths(entries, home);
        let here = indeterminate_paths(e.entry, e.origin, home);
        row_open_members(front, home, path);
        assert(entries[entries.len() - 1] == e);
        assert(forall|i: int| 0 <= i < front.len() ==> #[trigger] front[i] == entries[i]);
        let targets = expanded(views(e.entry.targets@), home);
        assert(targets.len() == e.entry.targets@.len());
        if here.contains(path) {
            let t = choose|t: int| 0 <= t < here.len() && here[t] == path;
            assert(targets[t] == tilde_expanded(e.entry.targets@[t]@, home));
        }
        if leaves_open(e, home, path) {
            let t = choose|t: int|
                0 <= t < e.entry.targets@.len() && path == tilde_expanded(
                    (#[trigger] e.entry.targets@[t])@,
                    home,
                );
            assert(here[t] == path);
        }
        if e.active {
            if all.contains(path) {
                let k = choose|k: int| 0 <= k < all.len() && all[k] == path;
                if k < before.len() {
                    assert(before[k] == path);
                } else {
                    assert(here[k - before.len()] == path);
                }
            }
            if before.contains(path) {
                let k = choose|k: int| 0 <= k < before.len() && before[k] == path;
                assert(all[k] == path);
            }
            if here.contains(path) {
                let k = choose|k: int| 0 <= k < here.len() && here[k] == path;
                assert(all[before.len() + k] == path);
            }
        }
        if before.contains(path) {
            let i = choose|i: int|
                0 <= i < front.len() && leaves_open(#[trigger] front[i], home, path);
            assert(leaves_open(entries[i], home, path));
        }
        if exists|i: int| 0 <= i < entries.len() && leaves_open(#[trigger] entries[i], home, path) {
            let i = choose|i: int|
                0 <= i < entries.len() && leaves_open(#[trigger] entries[i], home, path);
            if i < front.len() {
                assert(leaves_open(front[i], home, path));
            }
        }
    }
}

/// A key is governed exactly where it is that of a managed target, or lies at or under a
/// directory whose managed files cannot be told.
pub proof fn keys_are_governed_by_what_is_managed(managed: ManagedTargets, key: &str, r: bool)
    requires
        call_ensures(ManagedTargets::governs, (&managed, key), r),
    ensures
        r <==> (exists|i: int|
            0 <= i < managed.targets@.len() && same_path((#[trigger] managed.targets@[i])@, key@))
            || (exists|i: int|
            0 <= i < managed.indeterminate_roots@.len() && path_under(
                key@,
                (#[trigger] managed.indeterminate_roots@[i])@,
            )),
{
    governed_plainly(managed, key@);
}

/// Whether a key is that of a managed target or may be.
pub open spec fn is_governed(managed: ManagedTargets, key: Seq<char>) -> bool {
    ||| exists|i: int|
        0 <= i < managed.targets@.len() && same_path((#[trigger] managed.targets@[i])@, key)
    ||| exists|i: int|
        0 <= i < managed.indeterminate_roots@.len() && path_under(
            key,
            (#[trigger] managed.indeterminate_roots@[i])@,
        )
}

proof fn governed_plainly(managed: ManagedTargets, key: Seq<char>)
    ensures
        governed(managed, key) <==> is_governed(managed, key),
{
    let targets = views(managed.targets@);
    let roots = views(managed.indeterminate_roots@);
    assert(forall|i: int|
        0 <= i < targets.len() ==> (#[trigger] managed.targets@[i])@ == targets[i]);
    assert(forall|i: int|
        0 <= i < roots.len() ==> (#[trigger] managed.indeterminate_roots@[i])@ == roots[i]);
    if exists|i: int| 0 <= i < targets.len() && same_path(#[trigger] targets[i], key) {
        let i = choose|i: int| 0 <= i < targets.len() && same_path(#[trigger] targets[i], key);
        assert(same_path(managed.targets@[i]@, key));
    }
    if exists|i: int| 0 <= i < roots.len() && path_under(key, #[trigger] roots[i]) {
        let i = choose|i: int| 0 <= i < roots.len() && path_under(key, #[trigger] roots[i]);
        assert(path_under(key, managed.indeterminate_roots@[i]@));
    }
    if exists|i: int|
        0 <= i < managed.targets@.len() && same_path((#[trigger] managed.targets@[i])@, key) {
        let i = choose|i: int|
            0 <= i < managed.targets@.len() && same_path((#[trigger] managed.targets@[i])@, key);
        assert(same_path(targets[i], key));
    }
    if exists|i: int|
        0 <= i < managed.indeterminate_roots@.len() && path_under(
            key,
            (#[trigger] managed.indeterminate_roots@[i])@,
        ) {
        let i = choose|i: int|
            0 <= i < managed.indeterminate_roots@.len() && path_under(
                key,
                (#[trigger] managed.indeterminate_roots@[i])@,
            );
        assert(path_under(key, roots[i]));
    }
}

/// A recorded target is an orphan exactly where a file or a link stands there, nothing
/// governs it, and nothing governs a directory above it.
pub open spec fn is_left_behind(managed: ManagedTargets, t: RecordedTarget) -> bool {
    &&& t.presence == Presence::Other
    &&& !is_governed(managed, t.key@)
    &&& forall|a: int|
        0 <= a < t.ancestor_keys@.len() ==> !is_governed(managed, (#[trigger] t.ancestor_keys@[a])@)
}

proof fn orphan_plainly(managed: ManagedTargets, t: RecordedTarget)
    ensures
        is_orphan(managed, t) <==> is_left_behind(managed, t),
{
    governed_plainly(managed, t.key@);
    let keys = views(t.ancestor_keys@);
    assert forall|a: int| 0 <= a < keys.len() implies (governed(
        managed,
        #[trigger] keys[a],
    ) <==> is_governed(managed, t.ancestor_keys@[a]@)) by {
        governed_plainly(managed, keys[a]);
    }
    if is_orphan(managed, t) {
        assert forall|a: int| 0 <= a < t.ancestor_keys@.len() implies !is_governed(
            managed,
            (#[trigger] t.ancestor_keys@[a])@,
        ) by {
            assert(!governed(managed, keys[a]));
        }
    }
    if is_left_behind(managed, t) {
        assert forall|a: int| 0 <= a < keys.len() implies !governed(
            managed,
            #[trigger] keys[a],
        ) by {
            assert(!is_governed(managed, t.ancestor_keys@[a]@));
        }
    }
}

proof fn orphan_members(managed: ManagedTargets, recorded: Seq<RecordedTarget>, path: Seq<char>)
    ensures
        orphans(managed, recorded).contains(path) <==> exists|k: int|
            0 <= k < recorded.len() && (#[trigger] recorded[k]).target@ == path && is_left_behind(
                managed,
                recorded[k],
            ),
    decreases recorded.len(),
{
    if recorded.len() > 0 {
        let front = recorded.drop_last();
        let last = recorded.last();
        let before = orphans(managed, front);
        let all = orphans(managed, recorded);
        orphan_members(managed, front, path);
        orphan_plainly(managed, last);
        assert(recorded[recorded.len() - 1] == last);
        if before.contains(path) {
            let k = choose|k: int|
                0 <= k < front.len() && (#[trigger] front[k]).target@ == path && is_left_behind(
                    managed,
                    front[k],
                );
            assert(recorded[k] == front[k]);
            let i = choose|i: int| 0 <= i < before.len() && before[i] == path;
            assert(all[i] == path);
        }
        if all.contains(path) && !before.contains(path) {
            let i = choose|i: int| 0 <= i < all.len() && all[i] == path;
            if i < before.len() {
                assert(before[i] == path);
            }
        }
        if exists|k: int|
            0 <= k < recorded.len() && (#[trigger] recorded[k]).target@ == path && is_left_behind(
                managed,
                recorded[k],
            ) {
            let k = choose|k: int|
                0 <= k < recorded.len() && (#[trigger] recorded[k]).target@ == path
                    && is_left_behind(managed, recorded[k]);
            if k < front.len() {
                assert(front[k] == recorded[k]);
            } else {
                assert(all[before.len() as int] == path);
            }
        }
    }
}

/// Exactly the recorded targets are reaped that are left behind.
pub proof fn what_is_left_behind_is_reaped(
    managed: ManagedTargets,
    recorded: Vec<RecordedTarget>,
    r: Vec<String>,
    path: Seq<char>,
)
    requires
        call_ensures(detect_orphans, (&managed, &recorded), r),
    ensures
        (exists|i: int| 0 <= i < r@.len() && (#[trigger] r@[i])@ == path) <==> exists|k: int|
            0 <= k < recorded@.len() && (#[trigger] recorded@[k]).target@ == path
                && is_left_behind(managed, recorded@[k]),
{
    orphan_members(managed, recorded@, path);
    listed_texts(r@, path);
}

/// The preview of an apply lists exactly what it would reap.
pub proof fn previews_list_what_is_left_behind(
    managed: ManagedTargets,
    recorded: Vec<RecordedTarget>,
    r: Vec<String>,
    path: Seq<char>,
)
    requires
        call_ensures(plan_orphans, (&managed, &recorded), r),
    ensures
        (exists|i: int| 0 <= i < r@.len() && (#[trigger] r@[i])@ == path) <==> exists|k: int|
            0 <= k < recorded@.len() && (#[trigger] recorded@[k]).target@ == path
                && is_left_behind(managed, recorded@[k]),
{
    broadcast use vstd::seq_lib::to_multiset_contains;

    orphan_members(managed, recorded@, path);
    listed_texts(r@, path);
    let a = views(r@);
    let b = orphans(managed, recorded@);
    assert(a.contains(path) <==> a.to_multiset().count(path) > 0);
    assert(b.contains(path) <==> b.to_multiset().count(path) > 0);
}

proof fn listed_texts(texts: Seq<String>, path: Seq<char>)
    ensures
        views(texts).contains(path) <==> exists|i: int|
            0 <= i < texts.len() && (#[trigger] texts[i])@ == path,
{
    let all = views(texts);
    if all.contains(path) {
        let i = choose|i: int| 0 <= i < all.len() && all[i] == path;
        assert(texts[i]@ == path);
    }
    if exists|i: int| 0 <= i < texts.len() && (#[trigger] texts[i])@ == path {
        let i = choose|i: int| 0 <= i < texts.len() && (#[trigger] texts[i])@ == path;
        assert(all[i] == path);
    }
}

/// Whether an entry is an active tree from a remote of that name whose checkout is not on
/// this machine.
pub open spec fn lacks_checkout(e: GatedEntry, name: Seq<char>) -> bool {
    &&& e.active
    &&& e.entry.mode == FileMode::SymlinkTree || e.entry.mode == FileMode::CopyTree
    &&& e.origin.source_root is None
    &&& e.origin.remote is Some
    &&& e.origin.remote->0@ == name
}

proof fn missing_remotes_members(entries: Seq<GatedEntry>, name: Seq<char>)
    ensures
        all_missing_remotes(entries).contains(name) <==> exists|i: int|
            0 <= i < entries.len() && lacks_checkout(#[trigger] entries[i], name),
        all_missing_remotes(entries).no_duplicates(),
    decreases entries.len(),
{
    if entries.len() > 0 {
        let front = entries.drop_last();
        let e = entries.last();
        let before = all_missing_remotes(front);
        let all = all_missing_remotes(entries);
        missing_remotes_members(front, name);
        assert(entries[entries.len() - 1] == e);
        assert(forall|i: int| 0 <= i < front.len() ==> #[trigger] front[i] == entries[i]);
        if before.contains(name) {
            let k = choose|k: int| 0 <= k < before.len() && before[k] == name;
            assert(all[k] == name);
            let i = choose|i: int|
                0 <= i < front.len() && lacks_checkout(#[trigger] front[i], name);
            assert(lacks_checkout(entries[i], name));
        } else if all.contains(name) {
            let k = choose|k: int| 0 <= k < all.len() && all[k] == name;
            if k < before.len() {
                assert(before[k] == name);
            }
            assert(lacks_checkout(entries[entries.len() - 1], name));
        }
        if lacks_checkout(e, name) && !before.contains(name) {
            assert(all[before.len() as int] == name);
        }
        if exists|i: int| 0 <= i < entries.len() && lacks_checkout(#[trigger] entries[i], name) {
            let i = choose|i: int|
                0 <= i < entries.len() && lacks_checkout(#[trigger] entries[i], name);
            if i < front.len() {
                assert(lacks_checkout(front[i], name));
            }
        }
    }
}

/// A remote is named as missing exactly where an active tree comes from it and its checkout
/// is not on this machine, and then it is named once.
pub proof fn missing_remotes_are_named_once(
    entries: Vec<GatedEntry>,
    home: &str,
    managed: ManagedTargets,
    name: Seq<char>,
)
    requires
        call_ensures(current_managed_targets, (&entries, home), managed),
    ensures
        (exists|k: int|
            0 <= k < managed.unmaterialized_remotes@.len() && (
            #[trigger] managed.unmaterialized_remotes@[k])@ == name) <==> exists|i: int|
            0 <= i < entries@.len() && lacks_checkout(#[trigger] entries@[i], name),
        forall|a: int, b: int|
            0 <= a < b < managed.unmaterialized_remotes@.len() ==> (
            #[trigger] managed.unmaterialized_remotes@[a])@ != (
            #[trigger] managed.unmaterialized_remotes@[b])@,
{
    missing_remotes_members(entries@, name);
    listed_texts(managed.unmaterialized_remotes@, name);
    let all = views(managed.unmaterialized_remotes@);
    assert(all.len() == managed.unmaterialized_remotes@.len());
    assert forall|a: int, b: int|
        0 <= a < b < managed.unmaterialized_remotes@.len() implies (
    #[trigger] managed.unmaterialized_remotes@[a])@ != (
    #[trigger] managed.unmaterialized_remotes@[b])@ by {
        assert(all[a] != all[b]);
    }
}

/// Whether an operation is that of a managed entry: the same mode, the targets as they
/// are expanded, and for a tree the files that were walked.
pub open spec fn is_operation_of(
    op: ResolvedOperation,
    walk: Seq<String>,
    e: GatedEntry,
    home: Seq<char>,
) -> bool {
    &&& e.active
    &&& op.mode == e.entry.mode
    &&& op.targets@.len() == e.entry.targets@.len()
    &&& forall|t: int|
        0 <= t < op.targets@.len() ==> (#[trigger] op.targets@[t])@ == tilde_expanded(
            e.entry.targets@[t]@,
            home,
        )
    &&& op.mode == FileMode::SymlinkTree || op.mode == FileMode::CopyTree ==> {
        &&& e.origin.source_root is Some
        &&& e.leaves is Some
        &&& e.leaves->0@.len() == walk.len()
        &&& forall|l: int| 0 <= l < walk.len() ==> (#[trigger] walk[l])@ == e.leaves->0@[l]@
        &&& forall|t: int, d: int|
            #![trigger op.dispositions@[t].leaves@[d]]
            0 <= t < op.dispositions@.len() && 0 <= d < op.dispositions@[t].leaves@.len()
                ==> exists|l: int|
                0 <= l < walk.len() && (#[trigger] walk[l])@
                    == op.dispositions@[t].leaves@[d].relative@
    }
}

/// Every object that the commit of a plan records is managed by the entries that the
/// plan came from, in every mode: nothing that was just written is an orphan.
pub proof fn recorded_objects_are_managed(
    ops: Vec<ResolvedOperation>,
    walks: Vec<Vec<String>>,
    objects: Vec<ManagedObject>,
    entries: Vec<GatedEntry>,
    home: &str,
    managed: ManagedTargets,
    from: Seq<int>,
    o: int,
    target: &str,
    r: bool,
)
    requires
        call_ensures(committed_objects, (&ops, &walks), objects),
        walks@.len() == ops@.len(),
        call_ensures(current_managed_targets, (&entries, home), managed),
        from.len() == ops@.len(),
        forall|i: int|
            #![trigger from[i]]
            0 <= i < ops@.len() ==> 0 <= from[i] < entries@.len() && is_operation_of(
                ops@[i],
                walks@[i]@,
                entries@[from[i]],
                home@,
            ),
        0 <= o < objects@.len(),
        target@ == objects@[o].target@,
        call_ensures(ManagedTargets::governs, (&managed, target), r),
    ensures
        exists|k: int|
            0 <= k < managed.targets@.len() && (#[trigger] managed.targets@[k])@
                == objects@[o].target@,
        r,
{
    let all = resolved_models(ops@);
    let files = walk_views(walks@);
    assert(object_models(objects@).len() == objects@.len());
    assert(object_models(objects@)[o] == objects@[o]@);
    let (i, t) = object_has_a_target(all, files, o);
    assert(all[i] == ops@[i]@);
    assert(files[i] == views(walks@[i]@));
    let op = ops@[i];
    let walk = walks@[i]@;
    let e = entries@[from[i]];
    assert(is_operation_of(op, walk, e, home@));
    let place = objects@[o].target@;
    assert(all[i].targets[t] == op.targets@[t]@);
    assert(op.targets@[t]@ == tilde_expanded(e.entry.targets@[t]@, home@));
    assert(relation_models(op.dispositions@)[t] == op.dispositions@[t]@);
    let here = target_objects(all[i], all[i].targets[t], all[i].dispositions[t], files[i]);
    let k = choose|k: int| 0 <= k < here.len() && here[k] == objects@[o]@;
    match op.mode {
        FileMode::SymlinkTree | FileMode::CopyTree => {
            if op.dispositions@[t].aggregate is Create {
                assert(files[i][k] == walk[k]@);
                assert(place == path_joined(
                    tilde_expanded(e.entry.targets@[t]@, home@),
                    e.leaves->0@[k]@,
                ));
            } else {
                let leaves = op.dispositions@[t].leaves@;
                assert(leaf_models(leaves)[k] == leaves[k]@);
                let l = choose|l: int|
                    0 <= l < walk.len() && (#[trigger] walk[l])@ == leaves[k].relative@;
                assert(place == path_joined(
                    tilde_expanded(e.entry.targets@[t]@, home@),
                    e.leaves->0@[l]@,
                ));
            }
        },
        _ => {
            assert(place == tilde_expanded(e.entry.targets@[t]@, home@));
        },
    }
    assert(manages(entries@[from[i]], home@, place));
    entries_manage_their_targets(entries, home, managed, place);
    let m = choose|k: int|
        0 <= k < managed.targets@.len() && (#[trigger] managed.targets@[k])@ == place;
    assert(same_path(managed.targets@[m]@, target@));
    governed_plainly(managed, target@);
}

/// Every object of a plan is at a target of one of its operations.
proof fn object_has_a_target(
    ops: Seq<ResolvedModel>,
    walks: Seq<Seq<Seq<char>>>,
    o: int,
) -> (r: (int, int))
    requires
        0 <= o < plan_objects(ops, walks).len(),
    ensures
        0 <= r.0 < ops.len(),
        0 <= r.1 < pairs(ops[r.0]),
        target_objects(
            ops[r.0],
            ops[r.0].targets[r.1],
            ops[r.0].dispositions[r.1],
            walks[r.0],
        ).contains(plan_objects(ops, walks)[o]),
    decreases ops.len(),
{
    let front = ops.drop_last();
    let before = plan_objects(front, walks);
    if o < before.len() {
        let r = object_has_a_target(front, walks, o);
        assert(front[r.0] == ops[r.0]);
        r
    } else {
        let op = ops.last();
        let t = object_has_a_pair(op, walks[ops.len() - 1], pairs(op), o - before.len());
        (ops.len() - 1, t)
    }
}

proof fn object_has_a_pair(op: ResolvedModel, walked: Seq<Seq<char>>, n: nat, o: int) -> (t: int)
    requires
        0 <= o < operation_objects(op, walked, n).len(),
    ensures
        0 <= t < n,
        target_objects(op, op.targets[t], op.dispositions[t], walked).contains(
            operation_objects(op, walked, n)[o],
        ),
    decreases n,
{
    let before = operation_objects(op, walked, (n - 1) as nat);
    if o < before.len() {
        object_has_a_pair(op, walked, (n - 1) as nat, o)
    } else {
        let here = target_objects(op, op.targets[n - 1], op.dispositions[n - 1], walked);
        assert(here[o - before.len()] == operation_objects(op, walked, n)[o]);
        n - 1
    }
}

proof fn pair_has_its_objects(
    op: ResolvedModel,
    walked: Seq<Seq<char>>,
    n: nat,
    t: int,
    object: ObjectModel,
)
    requires
        0 <= t < n,
        target_objects(op, op.targets[t], op.dispositions[t], walked).contains(object),
    ensures
        operation_objects(op, walked, n).contains(object),
    decreases n,
{
    let before = operation_objects(op, walked, (n - 1) as nat);
    let here = target_objects(op, op.targets[n - 1], op.dispositions[n - 1], walked);
    let all = operation_objects(op, walked, n);
    if t < n - 1 {
        pair_has_its_objects(op, walked, (n - 1) as nat, t, object);
        let k = choose|k: int| 0 <= k < before.len() && before[k] == object;
        assert(all[k] == object);
    } else {
        let k = choose|k: int| 0 <= k < here.len() && here[k] == object;
        assert(all[before.len() + k] == object);
    }
}

proof fn target_has_its_objects(
    ops: Seq<ResolvedModel>,
    walks: Seq<Seq<Seq<char>>>,
    i: int,
    t: int,
    object: ObjectModel,
)
    requires
        0 <= i < ops.len(),
        0 <= t < pairs(ops[i]),
        target_objects(ops[i], ops[i].targets[t], ops[i].dispositions[t], walks[i]).contains(object),
    ensures
        plan_objects(ops, walks).contains(object),
    decreases ops.len(),
{
    let front = ops.drop_last();
    let before = plan_objects(front, walks);
    let all = plan_objects(ops, walks);
    if i < front.len() {
        assert(front[i] == ops[i]);
        target_has_its_objects(front, walks, i, t, object);
        let k = choose|k: int| 0 <= k < before.len() && before[k] == object;
        assert(all[k] == object);
    } else {
        let here = operation_objects(ops.last(), walks[ops.len() - 1], pairs(ops.last()));
        pair_has_its_objects(ops.last(), walks[ops.len() - 1], pairs(ops.last()), t, object);
        let k = choose|k: int| 0 <= k < here.len() && here[k] == object;
        assert(all[before.len() + k] == object);
    }
}

/// Whether an object is the one at a target of an operation: the target itself with its
/// disposition, or the file `l` of a tree under it. The files of a tree are those that were
/// classified or, where the target is created, all those that were walked.
pub open spec fn is_object_at(
    object: ManagedObject,
    op: ResolvedOperation,
    walk: Seq<String>,
    t: int,
    l: int,
) -> bool {
    let relation = op.dispositions@[t];
    &&& object.mode == op.mode
    &&& object.entry == op.entry_index
    &&& match op.mode {
        FileMode::SymlinkTree | FileMode::CopyTree => if relation.aggregate
            == Disposition::Create {
            &&& 0 <= l < walk.len()
            &&& object.disposition == Disposition::Create
            &&& object.source@ == path_joined(op.source@, walk[l]@)
            &&& object.target@ == path_joined(op.targets@[t]@, walk[l]@)
        } else {
            &&& 0 <= l < relation.leaves@.len()
            &&& object.disposition == relation.leaves@[l].disposition
            &&& object.source@ == path_joined(op.source@, relation.leaves@[l].relative@)
            &&& object.target@ == path_joined(op.targets@[t]@, relation.leaves@[l].relative@)
        },
        _ => {
            &&& object.disposition == relation.aggregate
            &&& object.source@ == op.source@
            &&& object.target@ == op.targets@[t]@
        },
    }
}

/// The commit of a plan records every object of it: each target of each operation, and each
/// file of a tree under each of its targets.
pub proof fn every_object_is_recorded(
    ops: Vec<ResolvedOperation>,
    walks: Vec<Vec<String>>,
    objects: Vec<ManagedObject>,
    i: int,
    t: int,
    l: int,
)
    requires
        call_ensures(committed_objects, (&ops, &walks), objects),
        walks@.len() == ops@.len(),
        0 <= i < ops@.len(),
        0 <= t < ops@[i].targets@.len(),
        0 <= t < ops@[i].dispositions@.len(),
        ops@[i].mode == FileMode::SymlinkTree || ops@[i].mode == FileMode::CopyTree ==> 0 <= l && (
        if ops@[i].dispositions@[t].aggregate == Disposition::Create {
            l < walks@[i]@.len()
        } else {
            l < ops@[i].dispositions@[t].leaves@.len()
        }),
    ensures
        exists|o: int|
            0 <= o < objects@.len() && is_object_at(
                #[trigger] objects@[o],
                ops@[i],
                walks@[i]@,
                t,
                l,
            ),
{
    let all = resolved_models(ops@);
    let files = walk_views(walks@);
    let op = ops@[i];
    assert(all[i] == op@);
    assert(files[i] == views(walks@[i]@));
    assert(all[i].targets[t] == op.targets@[t]@);
    assert(relation_models(op.dispositions@)[t] == op.dispositions@[t]@);
    let relation = op.dispositions@[t];
    let here = target_objects(all[i], all[i].targets[t], all[i].dispositions[t], files[i]);
    let k: int = if op.mode == FileMode::SymlinkTree || op.mode == FileMode::CopyTree {
        l
    } else {
        0
    };
    if op.mode == FileMode::SymlinkTree || op.mode == FileMode::CopyTree {
        if relation.aggregate == Disposition::Create {
            assert(files[i][l] == walks@[i]@[l]@);
        } else {
            assert(leaf_models(relation.leaves@)[l] == relation.leaves@[l]@);
        }
    }
    let object = here[k];
    assert(here.contains(object));
    target_has_its_objects(all, files, i, t, object);
    let models = object_models(objects@);
    let o = choose|o: int| 0 <= o < models.len() && models[o] == object;
    assert(models[o] == objects@[o]@);
    assert(is_object_at(objects@[o], op, walks@[i]@, t, l));
}

/// The commit of a plan records nothing else.
pub proof fn only_objects_of_the_plan_are_recorded(
    ops: Vec<ResolvedOperation>,
    walks: Vec<Vec<String>>,
    objects: Vec<ManagedObject>,
    o: int,
)
    requires
        call_ensures(committed_objects, (&ops, &walks), objects),
        walks@.len() == ops@.len(),
        0 <= o < objects@.len(),
    ensures
        exists|i: int, t: int, l: int|
            0 <= i < ops@.len() && 0 <= t < ops@[i].targets@.len() && 0 <= t
                < ops@[i].dispositions@.len() && #[trigger] is_object_at(
                objects@[o],
                ops@[i],
                walks@[i]@,
                t,
                l,
            ),
{
    let all = resolved_models(ops@);
    let files = walk_views(walks@);
    let models = object_models(objects@);
    assert(models.len() == objects@.len());
    assert(models[o] == objects@[o]@);
    let (i, t) = object_has_a_target(all, files, o);
    let op = ops@[i];
    assert(all[i] == op@);
    assert(files[i] == views(walks@[i]@));
    assert(all[i].targets.len() == op.targets@.len());
    assert(all[i].dispositions.len() == op.dispositions@.len());
    assert(all[i].targets[t] == op.targets@[t]@);
    assert(relation_models(op.dispositions@)[t] == op.dispositions@[t]@);
    let relation = op.dispositions@[t];
    let here = target_objects(all[i], all[i].targets[t], all[i].dispositions[t], files[i]);
    let l = choose|l: int| 0 <= l < here.len() && here[l] == objects@[o]@;
    if op.mode == FileMode::SymlinkTree || op.mode == FileMode::CopyTree {
        if relation.aggregate == Disposition::Create {
            assert(files[i][l] == walks@[i]@[l]@);
        } else {
            assert(leaf_models(relation.leaves@)[l] == relation.leaves@[l]@);
        }
    }
    assert(is_object_at(objects@[o], op, walks@[i]@, t, l));
}

/// An apply has nothing to do exactly where it reconciles the whole plan, every target of
/// every operation is unchanged, an earlier commit stays in force and there is no orphan.
pub proof fn nothing_to_do_means_nothing_differs(
    reap: bool,
    ops: Vec<ResolvedOperation>,
    has_commit: bool,
    has_orphans: bool,
    r: bool,
)
    requires
        call_ensures(is_full_noop, (reap, &ops, has_commit, has_orphans), r),
    ensures
        r <==> reap && has_commit && !has_orphans && forall|i: int, t: int|
            #![trigger ops@[i].dispositions@[t]]
            0 <= i < ops@.len() && 0 <= t < ops@[i].dispositions@.len()
                ==> ops@[i].dispositions@[t].aggregate == Disposition::Unchanged,
{
}

/// A plan by itself has nothing to do where an apply that reconciles it has.
pub proof fn plans_have_nothing_to_do_like_applies(
    ops: Vec<ResolvedOperation>,
    has_commit: bool,
    has_orphans: bool,
    alone: bool,
    whole: bool,
)
    requires
        call_ensures(plan_is_full_noop, (&ops, has_commit, has_orphans), alone),
        call_ensures(is_full_noop, (true, &ops, has_commit, has_orphans), whole),
    ensures
        alone == whole,
{
}

} // verus!
