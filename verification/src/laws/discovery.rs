//! Where the repository is, and which modules it has.

use crate::discovery::modules::HandleModel;
use crate::discovery::modules::ManifestHead;
use crate::discovery::modules::ModuleDiscoveryError;
use crate::discovery::modules::ModuleEntry;
use crate::discovery::modules::ModuleFault;
use crate::discovery::modules::ModuleHandle;
use crate::discovery::modules::TreeEntry;
use crate::discovery::modules::check_no_deep_manifests;
use crate::discovery::modules::deep_fault;
use crate::discovery::modules::discover_modules;
use crate::discovery::modules::entry_name;
use crate::discovery::modules::handle_models;
use crate::discovery::modules::module_of;
use crate::discovery::modules::modules_of;
use crate::discovery::repo::RepoDiscoveryError;
use crate::discovery::repo::RepoFault;
use crate::discovery::repo::RootFacts;
use crate::discovery::repo::StoredDefault;
use crate::discovery::repo::WalkRung;
use crate::discovery::repo::persisted_default_repo_path;
use crate::discovery::repo::read_persisted_default;
use crate::discovery::repo::resolve_repository_root_with;
use crate::discovery::repo::state_dir_root;
use crate::discovery::repo::validate_root;
use crate::discovery::repo::walk_up_for_root;
use crate::discovery::repo::walked_root;
use crate::host::HostOs;
use crate::text::text_less;
use crate::text::text_order_is_irreflexive;
use crate::text::text_order_is_transitive;
use crate::text::trimmed;
use crate::utf8_path::path_joined;
use crate::utf8_path::path_name;
use vstd::prelude::*;

verus! {

/// Whether every directory of a tree could be listed and has no manifest, however deep it
/// lies.
pub open spec fn is_bare(children: Seq<TreeEntry>) -> bool
    decreases children,
{
    children.len() == 0 || (match children[0] {
        TreeEntry::Fault { .. } => false,
        TreeEntry::Directory { manifest, children: below, .. } => !manifest && is_bare(below@),
    } && is_bare(children.subrange(1, children.len() as int)))
}

proof fn deep_manifests_are_found(children: Seq<TreeEntry>)
    ensures
        deep_fault(children) is None <==> is_bare(children),
    decreases children,
{
    if children.len() > 0 {
        let rest = children.subrange(1, children.len() as int);
        deep_manifests_are_found(rest);
        match children[0] {
            TreeEntry::Directory { children: below, .. } => {
                deep_manifests_are_found(below@);
            },
            TreeEntry::Fault { .. } => {},
        }
    }
}

/// No manifest may lie below a module, however deep.
pub proof fn manifests_lie_right_under_the_root(
    children: Vec<TreeEntry>,
    r: Result<(), ModuleDiscoveryError>,
)
    requires
        call_ensures(check_no_deep_manifests, (&children,), r),
    ensures
        r is Ok <==> is_bare(children@),
{
    deep_manifests_are_found(children@);
}

/// Whether a directory right under the root is a module: it has a manifest that can be
/// read and does not declare itself the root, and nothing below it has one.
pub open spec fn is_module(entry: ModuleEntry, name: Seq<char>, path: Seq<char>) -> bool {
    match entry {
        ModuleEntry::Directory { path: p, head, children } => p@ == path && path_name(path) == Some(
            name,
        ) && is_bare(children@) && (head matches Some(ManifestHead::Read { root }) && root != Some(
            true,
        )),
        ModuleEntry::Fault { .. } => false,
    }
}

/// Whether a directory right under the root is in order: a module, or without a manifest,
/// and with none below it.
pub open spec fn is_in_order(entry: ModuleEntry) -> bool {
    match entry {
        ModuleEntry::Directory { path, head, children } => is_bare(children@) && match head {
            None => true,
            Some(ManifestHead::Read { root }) => root != Some(true) && path_name(path@) is Some,
            Some(_) => false,
        },
        ModuleEntry::Fault { .. } => false,
    }
}

proof fn modules_are_found(root: Seq<char>, entries: Seq<ModuleEntry>, m: HandleModel)
    ensures
        modules_of(root, entries) is Ok <==> forall|i: int|
            0 <= i < entries.len() ==> is_in_order(#[trigger] entries[i]),
        modules_of(root, entries) matches Ok(all) ==> (all.contains(m) <==> exists|i: int|
            0 <= i < entries.len() && is_module(#[trigger] entries[i], m.name, m.path)),
    decreases entries.len(),
{
    if entries.len() > 0 {
        let front = entries.drop_last();
        let last = entries.last();
        modules_are_found(root, front, m);
        assert(entries[entries.len() - 1] == last);
        assert(forall|i: int| 0 <= i < front.len() ==> #[trigger] front[i] == entries[i]);
        match last {
            ModuleEntry::Directory { path, head, children } => {
                deep_manifests_are_found(children@);
            },
            ModuleEntry::Fault { .. } => {},
        }
        let one = module_of(root, last, entry_name(last));
        assert(one is Ok <==> is_in_order(last));
        assert(one is Ok ==> (one == Ok::<Option<HandleModel>, ModuleFault>(
            Some(m),
        ) <==> is_module(last, m.name, m.path)));
        if modules_of(root, entries) is Ok {
            assert forall|i: int| 0 <= i < entries.len() implies is_in_order(
                #[trigger] entries[i],
            ) by {
                if i < front.len() {
                    assert(is_in_order(front[i]));
                }
            }
        }
        if forall|i: int| 0 <= i < entries.len() ==> is_in_order(#[trigger] entries[i]) {
            assert forall|i: int| 0 <= i < front.len() implies is_in_order(#[trigger] front[i]) by {
                assert(is_in_order(entries[i]));
            }
            assert(is_in_order(entries[entries.len() - 1]));
        }
        if modules_of(root, entries) is Ok {
            let before = modules_of(root, front)->Ok_0;
            let all = modules_of(root, entries)->Ok_0;
            if before.contains(m) {
                let k = choose|k: int| 0 <= k < before.len() && before[k] == m;
                assert(all[k] == m);
                let i = choose|i: int|
                    0 <= i < front.len() && is_module(#[trigger] front[i], m.name, m.path);
                assert(is_module(entries[i], m.name, m.path));
            }
            if all.contains(m) && !before.contains(m) {
                let k = choose|k: int| 0 <= k < all.len() && all[k] == m;
                if k < before.len() {
                    assert(before[k] == m);
                }
            }
            if exists|i: int|
                0 <= i < entries.len() && is_module(#[trigger] entries[i], m.name, m.path) {
                let i = choose|i: int|
                    0 <= i < entries.len() && is_module(#[trigger] entries[i], m.name, m.path);
                if i < front.len() {
                    assert(is_module(front[i], m.name, m.path));
                } else {
                    assert(all[before.len() as int] == m);
                }
            }
        }
    }
}

/// A repository has modules exactly where its own manifest declares it the root and every
/// directory right under it is in order. Its modules are then those directories that are
/// modules, in the order of their names.
pub proof fn modules_are_the_directories_with_manifests(
    root: &str,
    head: ManifestHead,
    entries: Vec<ModuleEntry>,
    r: Result<Vec<ModuleHandle>, ModuleDiscoveryError>,
    name: Seq<char>,
    path: Seq<char>,
)
    requires
        call_ensures(discover_modules, (root, &head, &entries), r),
    ensures
        r is Ok <==> head == (ManifestHead::Read { root: Some(true) }) && forall|i: int|
            0 <= i < entries@.len() ==> is_in_order(#[trigger] entries@[i]),
        r matches Ok(handles) ==> {
            &&& (exists|k: int|
                0 <= k < handles@.len() && (#[trigger] handles@[k]).name@ == name
                    && handles@[k].path@ == path) <==> exists|i: int|
                0 <= i < entries@.len() && is_module(#[trigger] entries@[i], name, path)
            &&& forall|i: int, j: int|
                0 <= i < j < handles@.len() ==> !text_less(
                    (#[trigger] handles@[j]).name@,
                    (#[trigger] handles@[i]).name@,
                )
        },
{
    broadcast use vstd::seq_lib::to_multiset_contains;

    let m = HandleModel { name, path };
    modules_are_found(root@, entries@, m);
    if let Ok(handles) = r {
        let all = handle_models(handles@);
        let found = modules_of(root@, entries@)->Ok_0;
        assert(all.len() == handles@.len());
        assert(all.contains(m) <==> all.to_multiset().count(m) > 0);
        assert(found.contains(m) <==> found.to_multiset().count(m) > 0);
        if all.contains(m) {
            let k = choose|k: int| 0 <= k < all.len() && all[k] == m;
            assert(handles@[k]@ == m);
            assert(handles@[k].name@ == name);
        }
        if exists|k: int|
            0 <= k < handles@.len() && (#[trigger] handles@[k]).name@ == name && handles@[k].path@
                == path {
            let k = choose|k: int|
                0 <= k < handles@.len() && (#[trigger] handles@[k]).name@ == name
                    && handles@[k].path@ == path;
            assert(all[k] == m);
        }
        assert forall|i: int, j: int| 0 <= i < j < handles@.len() implies !text_less(
            (#[trigger] handles@[j]).name@,
            (#[trigger] handles@[i]).name@,
        ) by {
            assert(all[i] == handles@[i]@);
            assert(all[j] == handles@[j]@);
            let a = all[i].name;
            let b = all[j].name;
            text_order_is_irreflexive(a);
            if text_less(a, b) && text_less(b, a) {
                text_order_is_transitive(a, b, a);
            }
        }
    }
}

/// A directory is the root exactly where it is one, its manifest can be read and declares
/// itself the root, and it has a canonical path; that path is the root.
pub proof fn roots_declare_themselves(path: &str, facts: RootFacts, r: Result<String, String>)
    requires
        call_ensures(validate_root, (path, &facts), r),
    ensures
        r is Ok <==> facts.is_dir && facts.head == Some(ManifestHead::Read { root: Some(true) })
            && facts.canonical is Ok,
        r matches Ok(root) ==> root@ == facts.canonical->Ok_0@,
{
}

/// A walk upwards ends at the first directory whose manifest declares itself the root.
pub proof fn walks_end_at_the_first_root(
    rungs: Vec<WalkRung>,
    r: Result<Option<String>, RepoDiscoveryError>,
    k: int,
)
    requires
        call_ensures(walk_up_for_root, (&rungs,), r),
        0 <= k <= rungs@.len(),
        forall|j: int|
            0 <= j < k ==> (#[trigger] rungs@[j]).head != Some(
                ManifestHead::Read { root: Some(true) },
            ),
        k < rungs@.len() ==> rungs@[k].head == Some(ManifestHead::Read { root: Some(true) }),
    ensures
        k == rungs@.len() ==> r == Ok::<Option<String>, RepoDiscoveryError>(None),
        k < rungs@.len() ==> match rungs@[k].canonical {
            Ok(root) => r matches Ok(Some(found)) && found@ == root@,
            Err(_) => r is Err,
        },
{
    first_root_is_found(rungs@, k);
}

proof fn first_root_is_found(rungs: Seq<WalkRung>, k: int)
    requires
        0 <= k <= rungs.len(),
        forall|j: int|
            0 <= j < k ==> (#[trigger] rungs[j]).head != Some(
                ManifestHead::Read { root: Some(true) },
            ),
        k < rungs.len() ==> rungs[k].head == Some(ManifestHead::Read { root: Some(true) }),
    ensures
        k == rungs.len() ==> walked_root(rungs) == Ok::<
            Option<Seq<char>>,
            RepoFault,
        >(None),
        k < rungs.len() ==> match rungs[k].canonical {
            Ok(root) => walked_root(rungs) == Ok::<
                Option<Seq<char>>,
                RepoFault,
            >(Some(root@)),
            Err(_) => walked_root(rungs) is Err,
        },
    decreases rungs.len(),
{
    if rungs.len() > 0 && k > 0 {
        let rest = rungs.drop_first();
        assert(rungs[0].head != Some(ManifestHead::Read { root: Some(true) }));
        assert forall|j: int| 0 <= j < k - 1 implies (#[trigger] rest[j]).head != Some(
            ManifestHead::Read { root: Some(true) },
        ) by {
            assert(rest[j] == rungs[j + 1]);
        }
        if k < rungs.len() {
            assert(rest[k - 1] == rungs[k]);
        }
        first_root_is_found(rest, k - 1);
    }
}

/// The environment decides where it names something, by whether that is a root. Else the
/// walk upwards does, where it finds a root, and else the stored default.
pub proof fn sources_of_the_root_are_asked_in_turn(
    env_value: Option<String>,
    env_facts: RootFacts,
    cwd: &str,
    rungs: Vec<WalkRung>,
    stored: Option<StoredDefault>,
    r: Result<String, RepoDiscoveryError>,
    env_path: &str,
    env_root: Result<String, String>,
    walked: Result<Option<String>, RepoDiscoveryError>,
    kept: Option<String>,
)
    requires
        call_ensures(
            resolve_repository_root_with,
            (&env_value, &env_facts, cwd, &rungs, &stored),
            r,
        ),
        env_value is Some ==> env_path@ == env_value->0@ && call_ensures(
            validate_root,
            (env_path, &env_facts),
            env_root,
        ),
        call_ensures(walk_up_for_root, (&rungs,), walked),
        stored is Some ==> call_ensures(
            read_persisted_default,
            (&stored->0.text, &stored->0.facts),
            kept,
        ),
    ensures
        env_value is Some && env_value->0@.len() > 0 ==> match env_root {
            Ok(root) => r matches Ok(found) && found@ == root@,
            Err(_) => r matches Err(RepoDiscoveryError::EnvVarInvalid { .. }),
        },
        env_value is None || env_value->0@.len() == 0 ==> match walked {
            Err(_) => r is Err,
            Ok(Some(root)) => r matches Ok(found) && found@ == root@,
            Ok(None) => match stored {
                None => r matches Err(RepoDiscoveryError::AllSourcesFailed { .. }),
                Some(_) => match kept {
                    Some(root) => r matches Ok(found) && found@ == root@,
                    None => r matches Err(RepoDiscoveryError::AllSourcesFailed { .. }),
                },
            },
        },
{
}

/// A stored default names a repository where its text without the blanks around it is a
/// root.
pub proof fn stored_defaults_name_a_root(
    text: Option<String>,
    facts: RootFacts,
    r: Option<String>,
    path: &str,
    root: Result<String, String>,
)
    requires
        call_ensures(read_persisted_default, (&text, &facts), r),
        text is Some ==> path@ == trimmed(text->0@) && call_ensures(
            validate_root,
            (path, &facts),
            root,
        ),
    ensures
        text is None ==> r is None,
        text is Some && trimmed(text->0@).len() == 0 ==> r is None,
        text is Some && trimmed(text->0@).len() > 0 ==> match root {
            Ok(found) => r is Some && r->0@ == found@,
            Err(_) => r is None,
        },
{
}

/// The state of programs is kept where the platform keeps it, as far as the environment
/// says where that is. An empty value says nothing.
pub proof fn state_is_kept_where_the_platform_says(
    host: HostOs,
    xdg: Option<String>,
    home: Option<String>,
    local: Option<String>,
    r: Option<String>,
)
    requires
        call_ensures(state_dir_root, (host, &xdg, &home, &local), r),
    ensures
        ({
            let has_home = home is Some && home->0@.len() > 0;
            match host {
                HostOs::Linux => if xdg is Some && xdg->0@.len() > 0 {
                    r is Some && r->0@ == xdg->0@
                } else if has_home {
                    r is Some && r->0@ == path_joined(path_joined(home->0@, ".local"@), "state"@)
                } else {
                    r is None
                },
                HostOs::MacOs => if has_home {
                    r is Some && r->0@ == path_joined(
                        path_joined(home->0@, "Library"@),
                        "Application Support"@,
                    )
                } else {
                    r is None
                },
                HostOs::Windows => if local is Some && local->0@.len() > 0 {
                    r is Some && r->0@ == local->0@
                } else {
                    r is None
                },
            }
        }),
{
}

/// The stored default lies under the directory of the program, where there is a place for
/// one.
pub proof fn defaults_lie_with_the_state(state_root: Option<String>, r: Option<String>)
    requires
        call_ensures(persisted_default_repo_path, (&state_root,), r),
    ensures
        r is Some <==> state_root is Some,
{
}

} // verus!
