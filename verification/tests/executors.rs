//! What each mode writes, and what is left alone.

use camino::Utf8Path;
use patina_core::apply::commit_record::build_apply_record;
use patina_core::apply::commit_record::committed_objects;
use patina_core::apply::executors::classify_symlink_error;
use patina_core::apply::executors::is_content_materialization;
use patina_core::apply::executors::materialize;
use patina_core::apply::executors::materialize_target;
use patina_core::apply::executors::reverse_completed;
use patina_core::apply::executors::undo_object;
use patina_core::apply::executors::CompletionRecord;
use patina_core::apply::executors::ExecutorError;
use patina_core::apply::executors::LeafWrite;
use patina_core::apply::executors::Materialization;
use patina_core::apply::executors::SourceState;
use patina_core::apply::executors::TargetWork;
use patina_core::apply::planning::LeafDisposition;
use patina_core::apply::planning::ResolvedOperation;
use patina_core::apply::planning::TargetDisposition;
use patina_core::apply::walk::walk_files;
use patina_core::apply::walk::SourceEntry;
use patina_core::config::file_entry::has_tmpl_suffix;
use patina_core::config::FileMode;
use patina_core::error::EngineError;
use patina_core::ignore_rules::build;
use patina_core::ignore_rules::none;
use patina_core::ignore_rules::prunes;
use patina_core::io_failure::IoFailure;
use patina_core::io_failure::IoKind;
use patina_core::journal::content_hash;
use patina_core::journal::Disposition;
use patina_core::journal::ExpectedTarget;
use patina_core::journal::Reversal;
use patina_core::path_order::sort_paths;

fn texts(list: &[&str]) -> Vec<String> {
    list.iter().map(|t| (*t).to_owned()).collect()
}

/// The objects that a mode writes, with every file of the source.
fn written(
    mode: FileMode,
    source: &str,
    state: SourceState,
    targets: &[&str],
    leaves: &[&str],
) -> Result<Vec<CompletionRecord>, ExecutorError> {
    materialize(
        mode,
        source,
        &state,
        &texts(targets),
        &texts(leaves),
        &LeafWrite::All,
    )
}

fn link(source: &str, target: &str) -> CompletionRecord {
    CompletionRecord {
        source: source.to_owned(),
        target: target.to_owned(),
        materialization: Materialization::Symlink {
            link_target: source.to_owned(),
        },
    }
}

fn copy(source: &str, target: &str) -> CompletionRecord {
    CompletionRecord {
        source: source.to_owned(),
        target: target.to_owned(),
        materialization: Materialization::Copy,
    }
}

#[test]
fn materialize_dispatches_copy_mode() {
    let records = written(
        FileMode::Copy,
        "/d/source.txt",
        SourceState::File,
        &["/d/out/dest.txt"],
        &[],
    )
    .expect("copy materializes");
    assert_eq!(records.len(), 1);
    let record = records.first().expect("one completion record");
    assert_eq!(record.materialization, Materialization::Copy);
    assert_eq!(record.target, "/d/out/dest.txt");
}

#[test]
fn copy_file_writes_bytes_to_each_target() {
    let records = written(
        FileMode::Copy,
        "/d/agent.toml",
        SourceState::File,
        &["/d/one/agent.toml", "/d/codex/agent.toml"],
        &[],
    )
    .expect("copies");
    assert_eq!(
        records,
        vec![
            copy("/d/agent.toml", "/d/one/agent.toml"),
            copy("/d/agent.toml", "/d/codex/agent.toml"),
        ]
    );
    assert!(is_content_materialization(&records[0].materialization));
}

#[test]
fn copy_file_missing_source_is_typed() {
    let err = written(
        FileMode::Copy,
        "/d/absent",
        SourceState::Missing,
        &["/d/t"],
        &[],
    )
    .expect_err("missing source");
    assert!(matches!(err, ExecutorError::SourceMissing { .. }));
    assert_eq!(err.message(), "symlink source /d/absent does not exist");
}

#[test]
fn copy_tree_mirrors_nested_files() {
    let records = written(
        FileMode::CopyTree,
        "/d/src",
        SourceState::Directory,
        &["/d/dest"],
        &["nested/deep.txt", "top.txt"],
    )
    .expect("copy tree");
    assert_eq!(records.len(), 2);
    assert_eq!(
        records,
        vec![
            copy("/d/src/nested/deep.txt", "/d/dest/nested/deep.txt"),
            copy("/d/src/top.txt", "/d/dest/top.txt"),
        ]
    );
}

#[test]
fn copy_tree_only_writes_selected_leaves() {
    // With a set naming one of two leaves, only that leaf is copied and only that
    // leaf yields a completion record.
    let only = LeafWrite::Only(texts(&["a.txt"]));
    let records = materialize(
        FileMode::CopyTree,
        "/d/src",
        &SourceState::Directory,
        &texts(&["/d/dest"]),
        &texts(&["a.txt", "b.txt"]),
        &only,
    )
    .expect("partial copy tree");
    assert_eq!(records.len(), 1, "only the selected leaf is recorded");
    assert_eq!(records, vec![copy("/d/src/a.txt", "/d/dest/a.txt")]);
    assert!(only.includes("a.txt"));
    assert!(!only.includes("b.txt"));
}

#[test]
fn copy_tree_rejects_file_source() {
    let err = written(
        FileMode::CopyTree,
        "/d/file",
        SourceState::File,
        &["/d/t"],
        &[],
    )
    .expect_err("file source rejected");
    assert!(matches!(err, ExecutorError::NotADirectory { .. }));
    assert_eq!(
        err.message(),
        "mode requires a directory source but /d/file is not a directory"
    );
}

#[test]
fn file_source_links_each_target() {
    let records = written(
        FileMode::Symlink,
        "/d/zshrc",
        SourceState::File,
        &["/d/home1/.zshrc", "/d/home2/.zshrc"],
        &[],
    )
    .expect("symlinks created");
    assert_eq!(records.len(), 2);
    assert_eq!(
        records,
        vec![
            link("/d/zshrc", "/d/home1/.zshrc"),
            link("/d/zshrc", "/d/home2/.zshrc"),
        ]
    );
    assert!(!is_content_materialization(&records[0].materialization));
}

#[test]
fn directory_source_walks_into_per_file_links() {
    let records = written(
        FileMode::Symlink,
        "/d/config",
        SourceState::Directory,
        &["/d/dest"],
        &["a.conf", "nested/b.conf"],
    )
    .expect("walked links");
    // One symlink per source file, mirrored under the target.
    assert_eq!(records.len(), 2);
    assert_eq!(
        records,
        vec![
            link("/d/config/a.conf", "/d/dest/a.conf"),
            link("/d/config/nested/b.conf", "/d/dest/nested/b.conf"),
        ]
    );
}

#[test]
fn dir_symlink_creates_single_link_no_walk() {
    let records = written(
        FileMode::SymlinkDir,
        "/d/nvim",
        SourceState::Directory,
        &["/d/.config/nvim"],
        &["init.lua"],
    )
    .expect("dir symlink");
    assert_eq!(records.len(), 1);
    // The target itself is the link; no per-file walk occurred.
    assert_eq!(records, vec![link("/d/nvim", "/d/.config/nvim")]);
}

#[test]
fn dir_symlink_rejects_file_source() {
    let err = written(
        FileMode::SymlinkDir,
        "/d/not-a-dir",
        SourceState::File,
        &["/d/t"],
        &[],
    )
    .expect_err("file source rejected");
    assert!(matches!(err, ExecutorError::NotADirectory { .. }));
}

#[test]
fn missing_source_is_typed() {
    let err = written(
        FileMode::Symlink,
        "/d/absent",
        SourceState::Missing,
        &["/d/t"],
        &[],
    )
    .expect_err("missing source rejected");
    assert!(matches!(err, ExecutorError::SourceMissing { .. }));
}

#[test]
fn a_source_that_cannot_be_looked_at_is_an_io_error() {
    let state = SourceState::Unreadable {
        message: "denied".to_owned(),
    };
    let err = written(FileMode::Symlink, "/d/s", state, &["/d/t"], &[]).expect_err("unreadable");
    assert_eq!(
        err.message(),
        "filesystem operation failed for /d/s: denied"
    );
}

#[test]
fn tree_symlink_links_each_leaf_and_keeps_intermediate_dirs_real() {
    let records = written(
        FileMode::SymlinkTree,
        "/d/d",
        SourceState::Directory,
        &["/d/dest"],
        &["a.conf", "sub/b.conf"],
    )
    .expect("tree links");
    assert_eq!(records.len(), 2, "one record per leaf");
    assert_eq!(
        records,
        vec![
            link("/d/d/a.conf", "/d/dest/a.conf"),
            link("/d/d/sub/b.conf", "/d/dest/sub/b.conf"),
        ]
    );
}

#[test]
fn tree_symlink_skips_empty_source_subdirectories() {
    // The walk yields files alone, so an empty subdirectory yields no record.
    let records = written(
        FileMode::SymlinkTree,
        "/d/d",
        SourceState::Directory,
        &["/d/dest"],
        &["a.conf"],
    )
    .expect("tree links");
    assert_eq!(records.len(), 1, "only the one real leaf is linked");
}

#[test]
fn tree_symlink_rejects_file_source() {
    let err = written(
        FileMode::SymlinkTree,
        "/d/not-a-dir",
        SourceState::File,
        &["/d/t"],
        &[],
    )
    .expect_err("file source rejected");
    assert!(matches!(err, ExecutorError::NotADirectory { .. }));
}

#[test]
fn tree_symlink_missing_source_is_typed() {
    let err = written(
        FileMode::SymlinkTree,
        "/d/absent",
        SourceState::Missing,
        &["/d/t"],
        &[],
    )
    .expect_err("missing source typed");
    assert!(matches!(err, ExecutorError::SourceMissing { .. }));
}

#[test]
fn tree_symlink_re_apply_over_unchanged_source_is_a_noop() {
    let apply = || {
        written(
            FileMode::SymlinkTree,
            "/d/d",
            SourceState::Directory,
            &["/d/dest"],
            &["a.conf", "sub/b.conf"],
        )
        .expect("apply")
    };
    let first = apply();
    let second = apply();
    assert_eq!(first.len(), second.len());
    assert_eq!(first, second);
}

#[test]
fn renders_once_and_writes_each_declared_target() {
    let records = written(
        FileMode::TemplateRender,
        "/d/agent.toml.tmpl",
        SourceState::File,
        &["/d/one/agent.toml", "/d/codex/agent.toml"],
        &[],
    )
    .expect("render");
    // The declared targets are written verbatim.
    let targets: Vec<&str> = records.iter().map(|r| r.target.as_str()).collect();
    assert_eq!(targets, vec!["/d/one/agent.toml", "/d/codex/agent.toml"]);
    assert!(records
        .iter()
        .all(|r| r.materialization == Materialization::Render));
}

#[test]
fn non_tmpl_source_is_rejected() {
    let err = written(
        FileMode::TemplateRender,
        "/d/gitconfig",
        SourceState::File,
        &["/d/out"],
        &[],
    )
    .expect_err("non-`.tmpl` source must not render");
    assert!(matches!(err, ExecutorError::NotATemplate { .. }));
    assert_eq!(
        err.message(),
        "template source /d/gitconfig does not carry a `.tmpl` suffix"
    );
}

#[test]
fn has_tmpl_suffix_handles_case_and_absence() {
    assert!(has_tmpl_suffix("/x/y.toml.tmpl"));
    assert!(has_tmpl_suffix("/x/y.toml.TMPL"));
    assert!(!has_tmpl_suffix("/x/y.toml"));
}

#[test]
fn walk_files_is_sorted_and_relative() {
    let td = tempfile::TempDir::new().expect("create tempdir");
    let dir = Utf8Path::from_path(td.path()).expect("tempdir path is utf-8");
    let root = dir.join("tree");
    fs_err::create_dir_all(root.join("z")).expect("mkdir z");
    fs_err::write(root.join("z").join("zz.txt"), b"1").expect("write zz");
    fs_err::write(root.join("a.txt"), b"2").expect("write a");
    let files = walk_files(&listed(&root), &none()).expect("walk");
    assert_eq!(files, ["a.txt", "z/zz.txt"]);
}

/// What a directory holds.
fn listed(dir: &Utf8Path) -> Vec<SourceEntry> {
    let entries = dir.read_dir_utf8().expect("list");
    entries
        .map(|entry| {
            let entry = entry.expect("entry");
            let name = entry.file_name().to_owned();
            if entry.file_type().expect("type").is_dir() {
                SourceEntry::Directory { name, children: listed(entry.path()) }
            } else {
                SourceEntry::Leaf { name }
            }
        })
        .collect()
}

fn leaf(name: &str) -> SourceEntry {
    SourceEntry::Leaf { name: name.to_owned() }
}

fn folder(name: &str, children: Vec<SourceEntry>) -> SourceEntry {
    SourceEntry::Directory { name: name.to_owned(), children }
}

#[test]
fn a_walk_drops_what_prunes_drops() {
    let rules = build(&Vec::new(), &texts(&["build/", "!build/keep.txt", "*.log"]), "/repo/src")
        .expect("rules build");
    let tree = vec![
        folder("build", vec![leaf("keep.txt")]),
        folder("pkg", vec![leaf("noise.log"), leaf("mod.py")]),
        leaf("top.txt"),
    ];
    let whole = walk_files(&tree, &none()).expect("walk");
    assert_eq!(whole, ["build/keep.txt", "pkg/mod.py", "pkg/noise.log", "top.txt"]);
    let left: Vec<String> = whole.into_iter().filter(|rel| !prunes(&rules, rel)).collect();
    assert_eq!(left, ["pkg/mod.py", "top.txt"]);
    assert_eq!(walk_files(&tree, &rules), Ok(left));
}

#[test]
fn a_walk_ends_at_the_first_fault_that_it_meets() {
    let fault = SourceEntry::Fault { path: "/s/x".to_owned(), message: "denied".to_owned() };
    let tree = vec![leaf("a"), folder("x", vec![fault])];
    assert_eq!(
        walk_files(&tree, &none()),
        Err(ExecutorError::Io { path: "/s/x".to_owned(), message: "denied".to_owned() })
    );
    let closed = build(&Vec::new(), &texts(&["x/"]), "/s").expect("rules build");
    assert_eq!(walk_files(&tree, &closed), Ok(texts(&["a"])));
}

#[test]
fn paths_sort_by_their_components() {
    let mut files = texts(&["z/zz.txt", "a.txt", "a/b.txt", "a-c/d.txt"]);
    sort_paths(&mut files);
    assert_eq!(files, vec!["a/b.txt", "a-c/d.txt", "a.txt", "z/zz.txt"]);
}

#[test]
fn a_denied_link_on_windows_asks_for_developer_mode() {
    let denied = IoFailure {
        kind: IoKind::PermissionDenied,
        os_code: Some(1314),
        message: "privilege not held".to_owned(),
    };
    let err = classify_symlink_error("/d/t", &denied, true);
    assert_eq!(
        err.message(),
        "creating a symbolic link at /d/t requires Windows Developer Mode or an elevated \
         process: privilege not held"
    );
    assert!(matches!(
        classify_symlink_error("/d/t", &denied, false),
        ExecutorError::Io { .. }
    ));
    assert_eq!(
        ExecutorError::Template {
            message: "undefined value".to_owned()
        }
        .message(),
        "undefined value"
    );
}

fn relation(aggregate: Disposition, leaves: &[(&str, Disposition)]) -> TargetDisposition {
    TargetDisposition {
        aggregate,
        leaves: leaves
            .iter()
            .map(|(relative, disposition)| LeafDisposition {
                relative: (*relative).to_owned(),
                disposition: *disposition,
            })
            .collect(),
    }
}

#[test]
fn unchanged_targets_and_clean_leaves_are_left_alone() {
    assert_eq!(
        materialize_target(FileMode::Copy, &relation(Disposition::Unchanged, &[])),
        TargetWork::Skip
    );
    assert_eq!(
        materialize_target(FileMode::Copy, &relation(Disposition::Update, &[])),
        TargetWork::Write {
            write: LeafWrite::All
        }
    );
    assert_eq!(
        materialize_target(FileMode::CopyTree, &relation(Disposition::Create, &[])),
        TargetWork::Write {
            write: LeafWrite::All
        }
    );
    let drifted = relation(
        Disposition::Update,
        &[
            ("a", Disposition::Unchanged),
            ("b", Disposition::Update),
            ("c", Disposition::Create),
        ],
    );
    assert_eq!(
        materialize_target(FileMode::SymlinkTree, &drifted),
        TargetWork::Write {
            write: LeafWrite::Only(texts(&["b", "c"]))
        }
    );
}

#[test]
fn what_was_written_is_taken_back_from_the_last() {
    let completed = vec![copy("/s/a", "/h/a"), copy("/s/b", "/h/b")];
    let steps = reverse_completed(&completed, "/state/backups", "TS");
    let targets: Vec<&str> = steps.iter().map(|s| s.target.as_str()).collect();
    assert_eq!(targets, vec!["/h/b", "/h/a"]);
    assert_eq!(steps[1].backup, "/state/backups/TS/h/a");
}

fn operation(mode: FileMode, target: &str, relation: TargetDisposition) -> ResolvedOperation {
    ResolvedOperation {
        mode,
        source: "/repo/s".to_owned(),
        targets: texts(&[target]),
        dispositions: vec![relation],
        entry_index: 7,
    }
}

#[test]
fn the_record_holds_unchanged_targets_and_every_leaf() {
    let ops = vec![
        operation(
            FileMode::Symlink,
            "/h/link",
            relation(Disposition::Unchanged, &[]),
        ),
        operation(
            FileMode::CopyTree,
            "/h/new",
            relation(Disposition::Create, &[]),
        ),
        operation(
            FileMode::CopyTree,
            "/h/old",
            relation(Disposition::Update, &[("x", Disposition::Unchanged)]),
        ),
    ];
    let walks = vec![vec![], texts(&["p", "q"]), texts(&["ignored"])];
    let objects = committed_objects(&ops, &walks);
    let targets: Vec<&str> = objects.iter().map(|o| o.target.as_str()).collect();
    assert_eq!(targets, vec!["/h/link", "/h/new/p", "/h/new/q", "/h/old/x"]);
    assert_eq!(objects[1].source, "/repo/s/p");
    assert_eq!(objects[1].disposition, Disposition::Create);
    assert_eq!(objects[3].disposition, Disposition::Unchanged);

    let contents = vec![
        Err("a link is not read".to_owned()),
        Ok(b"p".to_vec()),
        Ok(b"q".to_vec()),
        Ok(b"x".to_vec()),
    ];
    let record = build_apply_record(
        "20260530T120000Z",
        "u",
        "h",
        &objects,
        &contents,
        texts(&["/h/gone"]),
    )
    .expect("every content was read");
    assert_eq!(record.last_apply.at, "2026-05-30T12:00:00Z");
    assert_eq!(record.last_apply.user, "u");
    assert_eq!(record.last_apply.host, "h");
    assert_eq!(record.reaped, vec!["/h/gone"]);
    assert_eq!(
        record.targets[0],
        ExpectedTarget::Symlink {
            target: "/h/link".to_owned(),
            link_target: "/repo/s".to_owned(),
            entry: 7,
            disposition: Disposition::Unchanged,
        }
    );
    assert_eq!(
        record.targets[2],
        ExpectedTarget::Content {
            target: "/h/new/q".to_owned(),
            source: "/repo/s/q".to_owned(),
            hash: content_hash(b"q"),
            entry: 7,
            disposition: Disposition::Create,
        }
    );
}

#[test]
fn a_content_that_cannot_be_read_back_fails_the_record() {
    let ops = vec![operation(
        FileMode::Copy,
        "/h/a",
        relation(Disposition::Create, &[]),
    )];
    let objects = committed_objects(&ops, &vec![vec![]]);
    let err = build_apply_record(
        "20260530T120000Z",
        "u",
        "h",
        &objects,
        &vec![Err("gone".to_owned())],
        vec![],
    )
    .expect_err("unreadable");
    assert!(matches!(err, EngineError::Journal(_)));
    assert_eq!(err.message(), "journal filesystem operation failed");
}

#[test]
fn an_object_is_restored_from_its_backup_or_removed() {
    assert_eq!(undo_object(true), Reversal::Restore);
    assert_eq!(undo_object(false), Reversal::Delete);
}

#[test]
fn a_path_sorts_right_before_what_lies_below_it() {
    let mut paths = ["b", "a/c", "a.b", "a", "/z", "a-b"].map(str::to_owned).to_vec();
    sort_paths(&mut paths);
    assert_eq!(paths, ["/z", "a", "a/c", "a-b", "a.b", "b"]);
}
