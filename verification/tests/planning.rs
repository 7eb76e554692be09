//! From declared entries to operations, and what is managed.

use patina_core::apply::managed::ancestors_of;
use patina_core::apply::managed::current_managed_targets;
use patina_core::apply::managed::detect_orphans;
use patina_core::apply::managed::insert_managed_targets;
use patina_core::apply::managed::is_full_noop;
use patina_core::apply::managed::plan_is_full_noop;
use patina_core::apply::managed::plan_orphans;
use patina_core::apply::managed::GatedEntry;
use patina_core::apply::managed::Presence;
use patina_core::apply::managed::RecordedTarget;
use patina_core::apply::planning::assemble_plan_operations;
use patina_core::apply::planning::expand_claims;
use patina_core::apply::planning::LeafInput;
use patina_core::apply::planning::ResolvedEntry;
use patina_core::apply::planning::ResolvedOperation;
use patina_core::apply::planning::TargetDisposition;
use patina_core::apply::registry::check_source;
use patina_core::apply::registry::declared_pins;
use patina_core::apply::registry::find_remote;
use patina_core::apply::registry::materialize;
use patina_core::apply::registry::reject_symlink_leaves;
use patina_core::apply::registry::CachePolicy;
use patina_core::apply::registry::CheckoutStep;
use patina_core::apply::registry::Checkouts;
use patina_core::apply::registry::EntryOrigin;
use patina_core::apply::registry::LeafFact;
use patina_core::apply::registry::Lockfile;
use patina_core::apply::registry::Pin;
use patina_core::apply::registry::PinLookup;
use patina_core::apply::registry::RemoteError;
use patina_core::apply::registry::SourceFacts;
use patina_core::apply::resolve::classify_entry;
use patina_core::apply::resolve::is_active;
use patina_core::apply::registry::origin_of;
use patina_core::apply::registry::source_path;
use patina_core::apply::resolve::plan_entries;
use patina_core::apply::resolve::resolve_entry;
use patina_core::apply::resolve::EntryFacts;
use patina_core::apply::resolve::TargetFacts;
use patina_core::apply::resolved_plan::reread_pins;
use patina_core::config::remote::RawRemote;
use patina_core::config::remote::RemoteName;
use patina_core::config::EntryKind;
use patina_core::config::FileMode;
use patina_core::config::ManagedEntry;
use patina_core::error::EngineError;
use patina_core::journal::Disposition;
use patina_core::journal::PlannedOperation;
use patina_core::paths::PathError;
use patina_core::status::LiveTarget;
use patina_core::status::ManagedTargets;

/// A resolved entry with the given mode, a distinct source tag, and one target per
/// `target_tag`.
fn resolved_entry(mode: FileMode, source_tag: &str, target_tags: &[&str]) -> ResolvedEntry {
    let targets: Vec<String> = target_tags.iter().map(|t| format!("/home/{t}")).collect();
    let dispositions = targets
        .iter()
        .map(|_| TargetDisposition {
            aggregate: Disposition::Create,
            leaves: Vec::new(),
        })
        .collect();
    ResolvedEntry {
        mode,
        source: format!("/repo/{source_tag}"),
        targets,
        dispositions,
        module: "m".to_owned(),
        declared_source: source_tag.to_owned(),
    }
}

fn sources(operations: &[PlannedOperation]) -> Vec<String> {
    operations
        .iter()
        .map(|op| match op {
            PlannedOperation::Symlink { source, .. }
            | PlannedOperation::Copy { source, .. }
            | PlannedOperation::Render { source, .. } => source.clone(),
            other => panic!("unexpected operation {other:?}"),
        })
        .collect()
}

#[test]
fn files_are_planned_before_directories_in_declaration_order() {
    let files = vec![
        Some(resolved_entry(FileMode::Symlink, "f0", &["f0.target"])),
        Some(resolved_entry(FileMode::Copy, "f1", &["f1.target"])),
    ];
    let directories = vec![Some(resolved_entry(
        FileMode::SymlinkDir,
        "d0",
        &["d0.target"],
    ))];

    let (operations, _resolved) = assemble_plan_operations(files, directories);

    assert_eq!(
        sources(&operations),
        vec!["/repo/f0", "/repo/f1", "/repo/d0"],
        "both `[[file]]` operations must precede the `[[directory]]` operation, each in declaration order"
    );
}

#[test]
fn entry_indices_are_a_single_monotonic_space_across_both_tables() {
    let files = vec![
        Some(resolved_entry(FileMode::Symlink, "f0", &["f0a", "f0b"])),
        Some(resolved_entry(FileMode::Copy, "f1", &["f1.target"])),
    ];
    let directories = vec![
        Some(resolved_entry(FileMode::SymlinkDir, "d0", &["d0.target"])),
        Some(resolved_entry(FileMode::CopyTree, "d1", &["d1.target"])),
    ];

    let (_operations, resolved) = assemble_plan_operations(files, directories);

    let indices: Vec<u32> = resolved.iter().map(|op| op.entry_index).collect();
    assert_eq!(
        indices,
        vec![0, 1, 2, 3],
        "indices must be a gapless monotonic 0..N over files-then-directories"
    );

    let file_indices: Vec<u32> = resolved
        .iter()
        .filter(|op| matches!(op.mode, FileMode::Symlink | FileMode::Copy))
        .map(|op| op.entry_index)
        .collect();
    let dir_indices: Vec<u32> = resolved
        .iter()
        .filter(|op| matches!(op.mode, FileMode::SymlinkDir | FileMode::CopyTree))
        .map(|op| op.entry_index)
        .collect();
    assert_eq!(file_indices, vec![0, 1]);
    assert_eq!(dir_indices, vec![2, 3]);
    assert!(
        file_indices.iter().all(|fi| !dir_indices.contains(fi)),
        "no `[[file]]` and `[[directory]]` entry may share an entry index"
    );
}

#[test]
fn when_false_entry_occupies_its_index_but_emits_no_operation() {
    // Declared file sequence: f0 (survives), f1 (when-false, None), f2 (survives).
    // One surviving directory entry d0.
    let files = vec![
        Some(resolved_entry(FileMode::Symlink, "f0", &["f0.target"])),
        None,
        Some(resolved_entry(FileMode::Copy, "f2", &["f2.target"])),
    ];
    let directories = vec![Some(resolved_entry(
        FileMode::SymlinkDir,
        "d0",
        &["d0.target"],
    ))];

    let (operations, resolved) = assemble_plan_operations(files, directories);

    assert_eq!(
        sources(&operations),
        vec!["/repo/f0", "/repo/f2", "/repo/d0"],
        "a `when`-false entry must emit no planned operation"
    );

    let indices: Vec<u32> = resolved.iter().map(|op| op.entry_index).collect();
    assert_eq!(
        indices,
        vec![0, 2, 3],
        "the gated-off entry occupies index 1, leaving a gap rather than \
         renumbering the survivors"
    );
}

/// The check of a source in its module.
fn check_local(source: &str, kind: EntryKind, facts: &SourceFacts) -> Result<(), EngineError> {
    let origin = EntryOrigin {
        source_root: Some("/repo/m".to_owned()),
        remote: None,
    };
    check_source(&origin, "/repo/m", "s", source, kind, facts, &vec![])
}

#[test]
fn file_entry_with_directory_source_is_a_kind_mismatch() {
    let dir_source = "/repo/m/confdir";
    let err = check_local(dir_source, EntryKind::File, &SourceFacts::Directory)
        .expect_err("a directory source under `[[file]]` must be rejected");
    assert!(
        matches!(
            &err,
            EngineError::SourceKindMismatch {
                path,
                found: "directory",
                declared_table: "[[file]]",
                expected_table: "[[directory]]",
            } if *path == dir_source
        ),
        "a `[[file]]` directory source must yield a mismatch naming the source, \
         `directory`, `[[file]]`, and `[[directory]]`, got: {err:?}"
    );
    assert_eq!(
        err.message(),
        "the source /repo/m/confdir is a directory, but it is declared under a [[file]] table; \
         move it to a [[directory]] entry"
    );
}

#[test]
fn directory_entry_with_file_source_is_a_kind_mismatch() {
    let file_source = "/repo/m/gitconfig";
    let err = check_local(file_source, EntryKind::Directory, &SourceFacts::File)
        .expect_err("a file source under `[[directory]]` must be rejected");
    assert!(
        matches!(
            &err,
            EngineError::SourceKindMismatch {
                path,
                found: "file",
                declared_table: "[[directory]]",
                expected_table: "[[file]]",
            } if *path == file_source
        ),
        "a `[[directory]]` file source must yield a mismatch naming the source, \
         `file`, `[[directory]]`, and `[[file]]`, got: {err:?}"
    );
}

#[test]
fn absent_source_is_source_not_found() {
    let ghost = "/repo/m/ghost";
    let err = check_local(ghost, EntryKind::File, &SourceFacts::Missing)
        .expect_err("an absent source must be rejected");
    assert!(
        matches!(&err, EngineError::SourceNotFound { path } if *path == ghost),
        "an absent source must yield SourceNotFound naming the source, got: {err:?}"
    );
    assert_eq!(
        err.message(),
        "the source /repo/m/ghost declared by a managed entry does not exist"
    );
}

#[test]
fn matching_kinds_validate_cleanly() {
    check_local("/repo/m/zshrc", EntryKind::File, &SourceFacts::File)
        .expect("a file source under `[[file]]` validates");
    check_local("/repo/m/mpv", EntryKind::Directory, &SourceFacts::Directory)
        .expect("a directory source under `[[directory]]` validates");
}

#[test]
fn a_source_that_cannot_be_looked_at_is_a_path_error() {
    let facts = SourceFacts::Unreadable {
        message: "permission denied".to_owned(),
    };
    let err = check_local("/repo/m/x", EntryKind::File, &facts).expect_err("unreadable");
    assert!(matches!(
        &err,
        EngineError::Path(PathError::Filesystem { .. })
    ));
    assert_eq!(
        err.message(),
        "failed to canonicalize /repo/m/x: permission denied"
    );
}

fn managed_entry(
    kind: EntryKind,
    mode: FileMode,
    source: &str,
    targets: &[&str],
    remote: Option<&str>,
) -> ManagedEntry {
    ManagedEntry {
        kind,
        mode,
        source: source.to_owned(),
        targets: targets.iter().map(|t| (*t).to_owned()).collect(),
        when: None,
        remote: remote.map(str::to_owned),
        ignore: vec![],
    }
}

fn local(root: &str) -> EntryOrigin {
    EntryOrigin {
        source_root: Some(root.to_owned()),
        remote: None,
    }
}

#[test]
fn insert_managed_targets_expands_symlink_tree_per_live_leaf() {
    let entry = managed_entry(
        EntryKind::Directory,
        FileMode::SymlinkTree,
        "d",
        &["/r/dest"],
        None,
    );
    let origin = local("/r/mod");
    let mut got = ManagedTargets::empty();
    let leaves = Some(vec!["a.conf".to_owned(), "sub/b.conf".to_owned()]);
    insert_managed_targets(&entry, &origin, "/r", &leaves, &mut got);
    assert_eq!(
        got.targets,
        vec!["/r/dest/a.conf", "/r/dest/sub/b.conf"],
        "a symlink-tree entry must contribute exactly one key per live leaf"
    );

    // Delete a source leaf: it drops out of the managed set, so its recorded
    // target leaf would now classify ORPHANED.
    let mut after = ManagedTargets::empty();
    let leaves = Some(vec!["a.conf".to_owned()]);
    insert_managed_targets(&entry, &origin, "/r", &leaves, &mut after);
    assert_eq!(
        after.targets,
        vec!["/r/dest/a.conf"],
        "a deleted source leaf must no longer be a managed target"
    );
}

#[test]
fn insert_managed_targets_marks_an_unmaterialized_remote_tree_indeterminate() {
    let entry = managed_entry(
        EntryKind::Directory,
        FileMode::CopyTree,
        "skills",
        &["/r/dest"],
        Some("humanizer"),
    );
    let origin = EntryOrigin {
        source_root: None,
        remote: Some("humanizer".to_owned()),
    };

    let mut got = ManagedTargets::empty();
    insert_managed_targets(&entry, &origin, "/r", &None, &mut got);
    insert_managed_targets(&entry, &origin, "/r", &None, &mut got);

    assert!(got.targets.is_empty(), "no leaf is enumerable");
    assert!(
        got.governs("/r/dest/SKILL.md"),
        "a recorded leaf under the declared target must still count as managed"
    );
    assert!(
        !got.governs("/r/elsewhere"),
        "a path outside the declared target is not governed"
    );
    assert_eq!(
        got.unmaterialized_remotes,
        ["humanizer"],
        "the remote must be reported so status can warn"
    );
}

#[test]
fn insert_managed_targets_inserts_declared_targets_for_non_tree_modes() {
    let entry = managed_entry(
        EntryKind::File,
        FileMode::Symlink,
        "zshrc",
        &["/r/a", "~/b"],
        None,
    );
    let mut got = ManagedTargets::empty();
    insert_managed_targets(&entry, &local("/r/mod"), "/home/u", &None, &mut got);
    assert_eq!(got.targets, vec!["/r/a", "/home/u/b"]);
}

#[test]
fn an_entry_that_is_not_active_manages_nothing() {
    let entry = managed_entry(EntryKind::File, FileMode::Copy, "a", &["/r/a"], None);
    let other = managed_entry(EntryKind::File, FileMode::Copy, "b", &["/r/b"], None);
    let gated = vec![
        GatedEntry {
            entry,
            active: false,
            origin: local("/m"),
            leaves: None,
        },
        GatedEntry {
            entry: other,
            active: true,
            origin: local("/m"),
            leaves: None,
        },
    ];
    let managed = current_managed_targets(&gated, "/home/u");
    assert_eq!(managed.targets, vec!["/r/b"]);
}

fn recorded(path: &str, presence: Presence) -> RecordedTarget {
    RecordedTarget {
        target: path.to_owned(),
        key: path.to_owned(),
        presence,
        ancestor_keys: ancestors_of(path),
    }
}

#[test]
fn only_unmanaged_files_are_orphans() {
    let managed = ManagedTargets {
        targets: vec!["/h/kept".to_owned(), "/h/linked".to_owned()],
        indeterminate_roots: vec!["/h/tree".to_owned()],
        unmaterialized_remotes: vec![],
    };
    let record = vec![
        recorded("/h/z", Presence::Other),
        recorded("/h/kept", Presence::Other),
        recorded("/h/gone", Presence::Absent),
        recorded("/h/dir", Presence::Directory),
        recorded("/h/linked/inner", Presence::Other),
        recorded("/h/tree/leaf", Presence::Other),
        recorded("/h/a", Presence::Other),
    ];
    assert_eq!(detect_orphans(&managed, &record), vec!["/h/z", "/h/a"]);
    assert_eq!(plan_orphans(&managed, &record), vec!["/h/a", "/h/z"]);
}

#[test]
fn ancestors_go_up_to_the_root() {
    assert_eq!(ancestors_of("/h/u/.config"), vec!["/h/u", "/h", "/"]);
}

fn operation(aggregate: Disposition) -> ResolvedOperation {
    ResolvedOperation {
        mode: FileMode::Copy,
        source: "/s".to_owned(),
        targets: vec!["/t".to_owned()],
        dispositions: vec![TargetDisposition {
            aggregate,
            leaves: vec![],
        }],
        entry_index: 0,
    }
}

#[test]
fn nothing_to_do_needs_every_condition() {
    let clean = vec![operation(Disposition::Unchanged)];
    let drifted = vec![
        operation(Disposition::Unchanged),
        operation(Disposition::Update),
    ];
    assert!(is_full_noop(true, &clean, true, false));
    assert!(!is_full_noop(false, &clean, true, false));
    assert!(!is_full_noop(true, &drifted, true, false));
    assert!(!is_full_noop(true, &clean, false, false));
    assert!(!is_full_noop(true, &clean, true, true));
}

#[test]
fn a_symlink_anywhere_under_a_remote_tree_source_fails_the_plan() {
    let plain = LeafFact {
        path: "/r/checkout/skills/ok.md".to_owned(),
        is_link: false,
    };
    let link = LeafFact {
        path: "/r/checkout/skills/sub/creds".to_owned(),
        is_link: true,
    };
    reject_symlink_leaves("humanizer", &vec![plain.clone()]).expect("a link-free tree passes");

    let err = reject_symlink_leaves("humanizer", &vec![plain, link])
        .expect_err("a nested symlink must fail the plan");
    let message = err.message();
    assert!(
        message.contains("creds") && message.contains("humanizer"),
        "the error must name the link and the remote: {message}"
    );
}

#[test]
fn a_source_that_leads_out_of_its_checkout_is_refused() {
    let origin = EntryOrigin {
        source_root: Some("/s/checkout".to_owned()),
        remote: Some("humanizer".to_owned()),
    };
    let err = check_source(
        &origin,
        "/s/checkout",
        "../etc",
        "/s/etc",
        EntryKind::File,
        &SourceFacts::File,
        &vec![],
    )
    .expect_err("outside the checkout");
    assert_eq!(
        err,
        EngineError::Remote(RemoteError::SourceEscapesCheckout {
            name: "humanizer".to_owned(),
            source_path: "../etc".to_owned(),
        })
    );
    check_source(
        &origin,
        "/s/checkout",
        "a",
        "/s/checkout/a",
        EntryKind::File,
        &SourceFacts::File,
        &vec![],
    )
    .expect("inside the checkout");
}

fn live(bytes: Option<&[u8]>, link: Option<&str>) -> LiveTarget {
    LiveTarget {
        present: bytes.is_some() || link.is_some(),
        link: link.map(str::to_owned),
        content: bytes.map(<[u8]>::to_vec),
    }
}

fn target_facts(
    path: &str,
    live: LiveTarget,
    source: &[u8],
    inputs: Vec<LeafInput>,
) -> TargetFacts {
    TargetFacts {
        resolved: path.rsplit_once('/').map_or(path, |(parent, _)| parent).to_owned(),
        live,
        source_bytes: Ok(source.to_vec()),
        inputs,
    }
}

fn leaf_input(relative: &str, live: LiveTarget, source: &[u8]) -> LeafInput {
    LeafInput {
        relative: relative.to_owned(),
        live,
        source_bytes: Ok(source.to_vec()),
    }
}

fn classify_one(
    mode: FileMode,
    source: &str,
    live: LiveTarget,
    bytes: &[u8],
    rendered: Option<&[u8]>,
) -> Disposition {
    let dispositions = classify_entry(
        mode,
        source,
        &rendered.map(<[u8]>::to_vec),
        &vec![target_facts("/d/t", live, bytes, vec![])],
    )
    .expect("classify entry");
    dispositions
        .first()
        .expect("one disposition per target")
        .aggregate
}

#[test]
fn satisfied_symlink_copy_and_template_all_classify_unchanged() {
    // symlink already pointing at the source.
    assert_eq!(
        classify_one(
            FileMode::Symlink,
            "/d/zshrc",
            live(Some(b"export X=1"), Some("/d/zshrc")),
            b"export X=1",
            None
        ),
        Disposition::Unchanged,
    );
    // copy whose target bytes already match the source.
    assert_eq!(
        classify_one(
            FileMode::Copy,
            "/d/config",
            live(Some(b"same bytes"), None),
            b"same bytes",
            None
        ),
        Disposition::Unchanged,
    );
    // template whose target already holds the rendered output.
    assert_eq!(
        classify_one(
            FileMode::TemplateRender,
            "/d/gitconfig.tmpl",
            live(Some(b"name = kevin"), None),
            b"name = {{ who }}",
            Some(b"name = kevin")
        ),
        Disposition::Unchanged,
    );
}

#[test]
fn mutated_copy_is_update_and_deleted_symlink_is_create() {
    // copy target present but bytes differ.
    assert_eq!(
        classify_one(
            FileMode::Copy,
            "/d/config",
            live(Some(b"stale contents"), None),
            b"new contents",
            None
        ),
        Disposition::Update,
    );
    // symlink target absent.
    assert_eq!(
        classify_one(
            FileMode::Symlink,
            "/d/zshrc",
            live(None, None),
            b"export X=1",
            None
        ),
        Disposition::Create,
    );
    // template target still matches the rendered output.
    assert_eq!(
        classify_one(
            FileMode::TemplateRender,
            "/d/gitconfig.tmpl",
            live(Some(b"static body"), None),
            b"static body",
            Some(b"static body")
        ),
        Disposition::Unchanged,
    );
}

fn present_directory() -> LiveTarget {
    LiveTarget {
        present: true,
        link: None,
        content: None,
    }
}

#[test]
fn copy_tree_with_one_drifted_leaf_aggregates_to_update() {
    let inputs = vec![
        leaf_input("a.conf", live(Some(b"alpha"), None), b"alpha"),
        leaf_input("b.conf", live(Some(b"DRIFTED"), None), b"beta"),
        leaf_input("c.conf", live(Some(b"gamma"), None), b"gamma"),
    ];
    let dispositions = classify_entry(
        FileMode::CopyTree,
        "/d/themes",
        &None,
        &vec![target_facts(
            "/d/out-themes",
            present_directory(),
            b"",
            inputs,
        )],
    )
    .expect("classify copy-tree");
    let tree = dispositions.first().expect("one disposition per target");

    // The durable per-op aggregate is Update: not every leaf is Unchanged.
    assert_eq!(tree.aggregate, Disposition::Update);

    // Exactly the drifted leaf (b.conf) is Update; the other two are Unchanged.
    let by_leaf: Vec<(String, Disposition)> = tree
        .leaves
        .iter()
        .map(|leaf| (leaf.relative.clone(), leaf.disposition))
        .collect();
    assert_eq!(
        by_leaf,
        vec![
            ("a.conf".to_owned(), Disposition::Unchanged),
            ("b.conf".to_owned(), Disposition::Update),
            ("c.conf".to_owned(), Disposition::Unchanged),
        ],
    );
}

#[test]
fn copy_tree_absent_target_is_create_aggregate() {
    let inputs = vec![leaf_input("a.conf", live(None, None), b"alpha")];
    let dispositions = classify_entry(
        FileMode::CopyTree,
        "/d/themes",
        &None,
        &vec![target_facts(
            "/d/absent-themes",
            live(None, None),
            b"",
            inputs,
        )],
    )
    .expect("classify copy-tree");
    let tree = dispositions.first().expect("one disposition per target");
    assert_eq!(tree.aggregate, Disposition::Create);
    assert!(
        tree.leaves.is_empty(),
        "an absent tree target needs no per-leaf classification"
    );
}

#[test]
fn copy_tree_all_leaves_match_aggregates_to_unchanged() {
    let inputs = vec![
        leaf_input("a.conf", live(Some(b"alpha"), None), b"alpha"),
        leaf_input("b.conf", live(Some(b"beta"), None), b"beta"),
    ];
    let dispositions = classify_entry(
        FileMode::CopyTree,
        "/d/themes",
        &None,
        &vec![target_facts(
            "/d/out-themes",
            present_directory(),
            b"",
            inputs,
        )],
    )
    .expect("classify copy-tree");
    assert_eq!(
        dispositions.first().expect("one disposition").aggregate,
        Disposition::Unchanged,
    );
}

#[test]
fn assemble_plan_threads_disposition_onto_durable_operation() {
    let resolved = ResolvedEntry {
        mode: FileMode::Copy,
        source: "/repo/config".to_owned(),
        targets: vec!["/home/out-config".to_owned()],
        dispositions: vec![TargetDisposition {
            aggregate: Disposition::Unchanged,
            leaves: Vec::new(),
        }],
        module: "m".to_owned(),
        declared_source: "config".to_owned(),
    };

    let (operations, resolved_ops) = assemble_plan_operations(vec![Some(resolved)], vec![]);

    assert_eq!(operations.len(), 1);
    let durable = operations.first().expect("one durable operation");
    assert_eq!(durable.disposition(), Disposition::Unchanged);
    let resolved_op = resolved_ops.first().expect("one resolved operation");
    let target_disposition = resolved_op
        .dispositions
        .first()
        .expect("one disposition per target");
    assert_eq!(target_disposition.aggregate, Disposition::Unchanged);
}

#[test]
fn a_condition_decides_whether_an_entry_is_active() {
    let none: Option<String> = None;
    let some = Some("patina.os == 'linux'".to_owned());
    assert_eq!(is_active(&none, &Err("unused".to_owned())), Ok(true));
    assert_eq!(is_active(&some, &Ok(false)), Ok(false));
    assert_eq!(is_active(&some, &Ok(true)), Ok(true));
    let err = is_active(&some, &Err("undefined value".to_owned())).expect_err("undefined");
    assert_eq!(err.message(), "undefined value");
}

#[test]
fn an_entry_resolves_to_its_source_and_targets() {
    let entry = managed_entry(EntryKind::File, FileMode::Copy, "zshrc", &["~/.zshrc"], None);
    let facts = EntryFacts {
        source: "/repo/m/zshrc".to_owned(),
        state: SourceFacts::File,
        leaves: vec![],
        rendered: None,
        targets: vec![target_facts(
            "/home/u/.zshrc",
            live(Some(b"old"), None),
            b"new",
            vec![],
        )],
    };
    let resolved = resolve_entry(&entry, &local("/repo/m"), "zsh", "/home/u", &facts).expect("resolves");
    assert_eq!(resolved.source, "/repo/m/zshrc");
    assert_eq!(resolved.targets, vec!["/home/u/.zshrc"]);
    assert_eq!(resolved.dispositions[0].aggregate, Disposition::Update);
    assert_eq!(resolved.module, "zsh");
    assert_eq!(resolved.declared_source, "zshrc");

    let absent = EntryOrigin {
        source_root: None,
        remote: Some("humanizer".to_owned()),
    };
    let err = resolve_entry(&entry, &absent, "zsh", "/home/u", &facts).expect_err("no checkout");
    assert_eq!(
        err,
        EngineError::Remote(RemoteError::CheckoutNotMaterialized {
            name: "humanizer".to_owned(),
        })
    );
}

#[test]
fn a_plan_is_refused_where_entries_fight() {
    let files = vec![Some(resolved_entry(FileMode::Copy, "f0", &["same"]))];
    let directories = vec![Some(resolved_entry(FileMode::SymlinkDir, "d0", &["same"]))];
    let err = plan_entries(files, directories, &vec![vec![]], &vec![vec![]], &vec![])
        .expect_err("one target, two entries");
    assert!(matches!(err, EngineError::Collision(_)));

    let files = vec![Some(resolved_entry(FileMode::Copy, "f0", &["one"])), None];
    let directories = vec![Some(resolved_entry(FileMode::SymlinkDir, "d0", &["two"]))];
    let (plan, ops) = plan_entries(
        files,
        directories,
        &vec![vec![], vec![]],
        &vec![vec![]],
        &vec![],
    )
    .expect("no collision");
    assert_eq!(sources(plan.operations()), vec!["/repo/f0", "/repo/d0"]);
    assert_eq!(ops[1].entry_index, 2);
}

#[test]
fn a_tree_claims_its_leaves_under_each_target() {
    let entries = vec![
        Some(resolved_entry(FileMode::CopyTree, "d", &["x", "y"])),
        None,
        Some(resolved_entry(FileMode::Copy, "f", &["z"])),
    ];
    let walks = vec![vec!["a".to_owned(), "s/b".to_owned()], vec![], vec![]];
    let claims = expand_claims(&entries, &walks);
    assert_eq!(claims.len(), 3);
    assert_eq!(claims[0].tree_target.as_deref(), Some("/home/x"));
    assert_eq!(claims[0].targets, vec!["/home/x/a", "/home/x/s/b"]);
    assert_eq!(claims[1].targets, vec!["/home/y/a", "/home/y/s/b"]);
    assert_eq!(claims[2].tree_target, None);
    assert_eq!(claims[2].targets, vec!["/home/z"]);
}

fn name(text: &str) -> RemoteName {
    RemoteName::parse(text).expect("a legal name")
}

#[test]
fn pins_are_found_however_a_name_is_spelled() {
    let lockfile = Lockfile {
        pins: vec![Pin {
            name: name("Humanizer"),
            rev: "abc".to_owned(),
        }],
    };
    assert_eq!(lockfile.get(&name("humanizer")), Some(&"abc".to_owned()));
    assert_eq!(lockfile.get(&name("other")), None);
    let declared = vec![name("other"), name("HUMANIZER")];
    let pins = declared_pins(&declared, &lockfile);
    assert_eq!(pins.len(), 1);
    assert_eq!(pins[0].0.as_str(), "HUMANIZER");
    assert_eq!(pins[0].1, "abc");

    assert_eq!(reread_pins(&vec![], &None).map(|p| p.len()), Some(0));
    assert!(reread_pins(&declared, &None).is_none());
    assert_eq!(
        reread_pins(&declared, &Some(lockfile)).map(|p| p.len()),
        Some(1)
    );
}

#[test]
fn an_undeclared_remote_fails_an_apply_and_not_status() {
    let declared = vec![RawRemote {
        name: None,
        url: "https://example.invalid/owner/humanizer".to_owned(),
        git_ref: None,
        min_age: None,
    }
    .validate()
    .expect("valid remote")];
    assert_eq!(
        find_remote(&declared, "HUMANIZER", CachePolicy::Fetch),
        Ok(Some(0))
    );
    assert_eq!(find_remote(&declared, "x", CachePolicy::ReadOnly), Ok(None));
    let err = find_remote(&declared, "x", CachePolicy::Fetch).expect_err("undeclared");
    assert!(err.message().contains("`x`"));
}

#[test]
fn status_probes_where_an_apply_fetches() {
    let humanizer = name("humanizer");
    let pinned = PinLookup::Pinned {
        rev: "abc".to_owned(),
    };
    assert_eq!(
        materialize(&humanizer, CachePolicy::ReadOnly, pinned.clone()),
        Ok(CheckoutStep::Probe {
            rev: "abc".to_owned()
        })
    );
    assert_eq!(
        materialize(&humanizer, CachePolicy::Fetch, pinned),
        Ok(CheckoutStep::Ensure {
            rev: "abc".to_owned()
        })
    );
    assert_eq!(
        materialize(&humanizer, CachePolicy::ReadOnly, PinLookup::Missing),
        Ok(CheckoutStep::NoRoot)
    );
    let err = materialize(&humanizer, CachePolicy::Fetch, PinLookup::Missing).expect_err("no pin");
    assert!(err.message().contains("patina remote update humanizer"));
    let unreadable = PinLookup::Unreadable {
        message: "bad lock".to_owned(),
    };
    assert_eq!(
        materialize(&humanizer, CachePolicy::ReadOnly, unreadable.clone()),
        Ok(CheckoutStep::NoRoot)
    );
    let err = materialize(&humanizer, CachePolicy::Fetch, unreadable).expect_err("bad lock");
    assert_eq!(err.message(), "bad lock");
}

#[test]
fn a_checkout_is_looked_up_once_for_every_spelling() {
    let mut checkouts = Checkouts::new();
    assert_eq!(checkouts.get("humanizer"), None);
    checkouts.insert("Humanizer", Some("/c/h".to_owned()));
    assert_eq!(checkouts.get("humanizer"), Some(&Some("/c/h".to_owned())));
    checkouts.insert("other", None);
    assert_eq!(checkouts.get("OTHER"), Some(&None));
}

#[test]
fn a_plan_by_itself_reconciles_everything() {
    assert!(plan_is_full_noop(&Vec::new(), true, false));
    assert!(!plan_is_full_noop(&Vec::new(), true, true));
    assert!(!plan_is_full_noop(&Vec::new(), false, false));
    assert!(!is_full_noop(false, &Vec::new(), true, false));
}

#[test]
fn a_source_lies_in_its_module_or_in_a_checkout() {
    let mut entry = managed_entry(EntryKind::File, FileMode::Copy, "zshrc", &["~/.zshrc"], None);
    let here = origin_of(&entry, "/repo/m", Some("/cache/x".to_owned()));
    assert_eq!(here, local("/repo/m"));
    assert_eq!(source_path(&here, "zshrc"), Ok("/repo/m/zshrc".to_owned()));

    entry.remote = Some("humanizer".to_owned());
    let there = origin_of(&entry, "/repo/m", Some("/cache/x".to_owned()));
    assert_eq!(there.source_root.as_deref(), Some("/cache/x"));
    assert_eq!(there.remote.as_deref(), Some("humanizer"));
    assert_eq!(source_path(&there, "zshrc"), Ok("/cache/x/zshrc".to_owned()));

    let absent = origin_of(&entry, "/repo/m", None);
    assert_eq!(
        source_path(&absent, "zshrc"),
        Err(RemoteError::CheckoutNotMaterialized { name: "humanizer".to_owned() })
    );
}
