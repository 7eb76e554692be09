//! Paths: their absolute forms, and the orders that they are kept in.

use camino::Utf8Path;
use camino::Utf8PathBuf;
use patina_core::paths::canonical_step;
use patina_core::paths::canonicalize_lexical;
use patina_core::paths::expand_tilde;
use patina_core::paths::fold_dot_segments;
use patina_core::paths::locate;
use patina_core::paths::split_location;
use patina_core::paths::under_parent;
use patina_core::paths::CanonicalStep;
use patina_core::paths::PathError;
use tempfile::TempDir;

fn resolved(path: &Utf8Path) -> String {
    path.canonicalize_utf8().expect("canonicalize").into_string()
}

fn utf8_tempdir() -> (TempDir, Utf8PathBuf) {
    let td = TempDir::new().expect("create tempdir");
    let path = Utf8Path::from_path(td.path()).expect("tempdir path is utf-8");
    let canonical = Utf8PathBuf::from(resolved(path));
    (td, canonical)
}

fn parent_exists(path: &Utf8Path) -> bool {
    split_location(path.as_str()).is_some_and(|(parent, _)| Utf8Path::new(&parent).exists())
}

/// Does what the library decides with the filesystem.
fn canonicalize(path: &Utf8Path) -> Utf8PathBuf {
    match canonical_step(path.as_str(), path.exists(), parent_exists(path)) {
        CanonicalStep::Whole => Utf8PathBuf::from(resolved(path)),
        CanonicalStep::UnderParent { parent, name } => {
            Utf8PathBuf::from(under_parent(&resolved(Utf8Path::new(&parent)), &name))
        }
        CanonicalStep::OnPaper { relative } => {
            let base = if relative { resolved(Utf8Path::new(".")) } else { String::new() };
            Utf8PathBuf::from(canonicalize_lexical(&base, path.as_str()))
        }
    }
}

/// The place of a path, with a link at its end left alone.
fn resolve_location(path: &Utf8Path) -> Utf8PathBuf {
    match split_location(path.as_str()) {
        Some((parent, name)) => canonicalize(Utf8Path::new(&parent)).join(name),
        None => canonicalize(path),
    }
}

#[test]
fn existing_path_canonicalizes_through_filesystem() {
    let (_td, dir) = utf8_tempdir();
    let resolved = canonicalize(&dir.join("."));
    assert_eq!(resolved, dir);
    assert!(!resolved.as_str().contains("/./"));
}

#[test]
fn nonexistent_leaf_under_existing_parent_uses_parent_canonical() {
    let (_td, dir) = utf8_tempdir();
    let resolved = canonicalize(&dir.join("not-created-yet.conf"));
    assert_eq!(resolved, dir.join("not-created-yet.conf"));
    assert!(resolved.is_absolute());
}

#[test]
fn nonexistent_relative_path_joins_canonical_cwd() {
    let resolved = canonicalize(Utf8Path::new("definitely-absent-7f3a/nested/leaf.txt"));
    assert!(resolved.is_absolute());
    assert!(resolved.ends_with("definitely-absent-7f3a/nested/leaf.txt"));
    assert!(!resolved.as_str().contains("/./"));
}

#[test]
fn resolve_location_does_not_follow_a_leaf_symlink() {
    let (_td, dir) = utf8_tempdir();
    let source = dir.join("real.conf");
    fs_err::write(&source, b"x").expect("write source");
    let link = dir.join("link.conf");
    fs_err::os::unix::fs::symlink(&source, &link).expect("create symlink");

    assert_eq!(canonicalize(&link), source);
    assert_eq!(resolve_location(&link), link);
}

#[test]
fn resolve_location_matches_canonicalize_for_a_missing_leaf() {
    let (_td, dir) = utf8_tempdir();
    let target = dir.join("not-created-yet.conf");
    assert_eq!(resolve_location(&target), canonicalize(&target));
}

#[test]
fn fold_dot_segments_removes_cur_and_parent() {
    assert_eq!(fold_dot_segments("/a/./b/../c"), "/a/c");
}

#[test]
fn a_leading_parent_stays_on_paper() {
    assert_eq!(canonicalize_lexical("/cwd", "../x"), "/x");
    assert_eq!(canonicalize_lexical("", "/a/b/../c"), "/a/c");
}

#[test]
fn expand_tilde_replaces_leading_tilde() {
    assert_eq!(expand_tilde("~/.config/foo", "/home/kevin"), "/home/kevin/.config/foo");
    assert_eq!(expand_tilde("~", "/home/kevin"), "/home/kevin");
}

#[test]
fn expand_tilde_leaves_non_leading_tilde_untouched() {
    assert_eq!(expand_tilde("/etc/~/hosts", "/home/kevin"), "/etc/~/hosts");
    assert_eq!(expand_tilde("relative/path", "/home/kevin"), "relative/path");
}

#[test]
fn a_location_is_a_parent_and_a_name() {
    assert_eq!(split_location("/a/b"), Some(("/a".to_owned(), "b".to_owned())));
    assert_eq!(split_location("b"), None);
    assert_eq!(split_location("/"), None);
}

#[test]
fn path_errors_name_the_path() {
    let err = PathError::CwdUnavailable { path: "x".to_owned(), message: "gone".to_owned() };
    assert_eq!(
        err.message(),
        "failed to read current working directory while canonicalizing x: gone"
    );
}

#[test]
fn nothing_is_above_the_root() {
    assert_eq!(fold_dot_segments("/../x/y"), "/x/y");
    assert_eq!(fold_dot_segments("/a/../../../b"), "/b");
    assert_eq!(fold_dot_segments("../a/../.."), "../..");
    assert_eq!(canonicalize_lexical("", "/../x/y"), "/x/y");
    assert!(canonicalize(Utf8Path::new("/../absent-9c1e/y")).is_absolute());
}

#[test]
fn a_path_behind_the_tilde_stays_under_home() {
    assert_eq!(expand_tilde("~//etc/hosts", "/home/kevin"), "/home/kevin/etc/hosts");
    assert_eq!(expand_tilde("~////x", "/home/kevin"), "/home/kevin/x");
    assert_eq!(expand_tilde("~/", "/home/kevin"), "/home/kevin/");
    assert_eq!(expand_tilde("~user/x", "/home/kevin"), "~user/x");
}

#[test]
fn a_place_is_a_name_under_its_resolved_parent() {
    assert_eq!(locate("/link/x", "/real"), "/real/x");
    assert_eq!(locate("/", "/"), "/");
}
