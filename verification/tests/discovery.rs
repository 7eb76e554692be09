//! The repository and its modules.

use patina_core::discovery::discover_modules;
use patina_core::discovery::modules::ManifestHead;
use patina_core::discovery::modules::ModuleEntry;
use patina_core::discovery::modules::TreeEntry;
use patina_core::discovery::persisted_default_repo_path;
use patina_core::discovery::repo::RootFacts;
use patina_core::discovery::repo::StoredDefault;
use patina_core::discovery::repo::WalkRung;
use patina_core::discovery::resolve_repository_root_with;
use patina_core::discovery::state_dir_root;
use patina_core::host::HostOs;

fn head(root: Option<bool>) -> ManifestHead {
    ManifestHead::Read { root }
}

fn module(path: &str, head: Option<ManifestHead>, children: Vec<TreeEntry>) -> ModuleEntry {
    ModuleEntry::Directory {
        path: path.to_owned(),
        head,
        children,
    }
}

fn directory(path: &str, manifest: bool, children: Vec<TreeEntry>) -> TreeEntry {
    TreeEntry::Directory {
        path: path.to_owned(),
        manifest,
        children,
    }
}

#[test]
fn modules_come_sorted_by_name() {
    let entries = vec![
        module("/r/zsh", Some(head(None)), vec![]),
        module("/r/.git", None, vec![]),
        module("/r/git", Some(head(Some(false))), vec![]),
    ];
    let modules = discover_modules("/r", &head(Some(true)), &entries).expect("two modules");
    let names: Vec<&str> = modules.iter().map(|m| m.name.as_str()).collect();
    assert_eq!(names, vec!["git", "zsh"]);
    assert_eq!(modules[0].path, "/r/git");
}

#[test]
fn the_root_manifest_must_declare_itself() {
    let err = discover_modules("/r", &head(None), &vec![]).expect_err("no root key");
    assert_eq!(
        err.message(),
        "/r/patina.toml: missing `root = true` in `[patina]` table; the repository-root manifest \
         must declare it"
    );
    let unreadable = ManifestHead::Unreadable {
        message: "gone".to_owned(),
    };
    let err = discover_modules("/r", &unreadable, &vec![]).expect_err("unreadable");
    assert_eq!(err.message(), "failed to read /r/patina.toml: gone");
    let malformed = ManifestHead::Malformed {
        message: "bad".to_owned(),
    };
    let err = discover_modules("/r", &malformed, &vec![]).expect_err("malformed");
    assert_eq!(err.message(), "failed to parse /r/patina.toml as TOML: bad");
}

#[test]
fn a_module_must_not_declare_itself_the_root() {
    let entries = vec![module("/r/zsh", Some(head(Some(true))), vec![])];
    let err = discover_modules("/r", &head(Some(true)), &entries).expect_err("two roots");
    assert_eq!(
        err.message(),
        "/r/zsh/patina.toml: unexpected `root = true` key; only the repository-root patina.toml \
         may declare `root`"
    );
}

#[test]
fn a_manifest_below_a_module_is_too_deep() {
    let deep = vec![
        directory("/r/zsh/a", false, vec![]),
        directory(
            "/r/zsh/b",
            false,
            vec![directory("/r/zsh/b/c", true, vec![])],
        ),
    ];
    // It is found even under a directory that is no module.
    let entries = vec![module("/r/zsh", None, deep)];
    let err = discover_modules("/r", &head(Some(true)), &entries).expect_err("too deep");
    assert_eq!(
        err.message(),
        "/r/zsh/b/c/patina.toml: maximum module depth (1) exceeded; modules must live in \
         immediate subdirectories of the repository root"
    );
}

#[test]
fn a_failed_listing_is_the_error() {
    let entries = vec![ModuleEntry::Fault {
        message: "denied".to_owned(),
    }];
    let err = discover_modules("/r", &head(Some(true)), &entries).expect_err("listing failed");
    assert_eq!(err.message(), "failed to read /r: denied");
    let below = vec![TreeEntry::Fault {
        path: "/r/zsh".to_owned(),
        message: "denied".to_owned(),
    }];
    let entries = vec![module("/r/zsh", Some(head(None)), below)];
    let err = discover_modules("/r", &head(Some(true)), &entries).expect_err("listing failed");
    assert_eq!(err.message(), "failed to read /r/zsh: denied");
}

fn facts(is_dir: bool, head: Option<ManifestHead>, canonical: &str) -> RootFacts {
    RootFacts {
        is_dir,
        head,
        canonical: Ok(canonical.to_owned()),
    }
}

fn nothing() -> RootFacts {
    facts(false, None, "")
}

fn rung(dir: &str, head: Option<ManifestHead>) -> WalkRung {
    WalkRung {
        dir: dir.to_owned(),
        head,
        canonical: Ok(format!("/canonical{dir}")),
    }
}

#[test]
fn the_environment_comes_first_and_decides() {
    let env = Some("/env".to_owned());
    let rungs = vec![rung("/w", Some(head(Some(true))))];
    let root = resolve_repository_root_with(
        &env,
        &facts(true, Some(head(Some(true))), "/real/env"),
        "/w",
        &rungs,
        &None,
    )
    .expect("the environment names a root");
    assert_eq!(root, "/real/env");

    let cases = [
        (nothing(), "/env is not a directory"),
        (facts(true, None, ""), "no patina.toml found at /env/patina.toml"),
        (
            facts(true, Some(head(Some(false))), ""),
            "/env/patina.toml is missing `root = true` in its `[patina]` table",
        ),
        (
            facts(
                true,
                Some(ManifestHead::Unreadable {
                    message: "x".to_owned(),
                }),
                "",
            ),
            "read failed: x",
        ),
        (
            facts(
                true,
                Some(ManifestHead::Malformed {
                    message: "y".to_owned(),
                }),
                "",
            ),
            "parse failed: y",
        ),
        (
            RootFacts {
                is_dir: true,
                head: Some(head(Some(true))),
                canonical: Err("z".to_owned()),
            },
            "canonicalize failed: z",
        ),
    ];
    for (facts, reason) in cases {
        let err = resolve_repository_root_with(&env, &facts, "/w", &rungs, &None)
            .expect_err("the environment names no root");
        assert_eq!(
            err.message(),
            format!(
                "PATINA_REPO points at /env but no valid root patina.toml was found there: {reason}"
            )
        );
    }
}

#[test]
fn the_nearest_root_above_is_found() {
    let rungs = vec![
        rung("/w/a/b", None),
        rung("/w/a", Some(head(None))),
        rung("/w", Some(head(Some(true)))),
        rung("/", Some(head(Some(true)))),
    ];
    let root =
        resolve_repository_root_with(&Some(String::new()), &nothing(), "/w/a/b", &rungs, &None)
            .expect("a root above");
    assert_eq!(root, "/canonical/w");

    let broken = vec![WalkRung {
        dir: "/w".to_owned(),
        head: Some(head(Some(true))),
        canonical: Err("loop".to_owned()),
    }];
    let err = resolve_repository_root_with(&None, &nothing(), "/w", &broken, &None)
        .expect_err("no canonical path");
    assert_eq!(
        err.message(),
        "failed to canonicalize repository root /w: loop"
    );
}

#[test]
fn the_stored_default_comes_last() {
    let stored = |text: Option<&str>, facts: RootFacts| {
        Some(StoredDefault {
            path: "/state/patina/default_repo".to_owned(),
            text: text.map(str::to_owned),
            facts,
        })
    };
    let good = || facts(true, Some(head(Some(true))), "/real/dots");
    let root =
        resolve_repository_root_with(&None, &nothing(), "/w", &vec![], &stored(Some(" /dots\n"), good()))
            .expect("a stored default");
    assert_eq!(root, "/real/dots");

    for default in [stored(None, good()), stored(Some("  \n"), good()), stored(Some("/x"), nothing())] {
        let err = resolve_repository_root_with(&None, &nothing(), "/w", &vec![], &default)
            .expect_err("nothing found");
        assert_eq!(
            err.message(),
            "could not resolve a Patina repository root.\n\
             tried PATINA_REPO env var: not set\n\
             tried walk-up from /w: no patina.toml with root = true found between this directory \
             and the filesystem root\n\
             tried persisted default at /state/patina/default_repo"
        );
    }
    let err = resolve_repository_root_with(&None, &nothing(), "/w", &vec![], &None)
        .expect_err("nothing found");
    assert!(err
        .message()
        .ends_with("no per-machine state directory available"));
}

#[test]
fn the_state_directory_is_that_of_the_platform() {
    let some = |t: &str| Some(t.to_owned());
    assert_eq!(
        state_dir_root(HostOs::Linux, &some("/x"), &some("/h"), &None).as_deref(),
        Some("/x")
    );
    assert_eq!(
        state_dir_root(HostOs::Linux, &some(""), &some("/h"), &None).as_deref(),
        Some("/h/.local/state")
    );
    assert_eq!(
        state_dir_root(HostOs::MacOs, &None, &some("/h"), &None).as_deref(),
        Some("/h/Library/Application Support")
    );
    assert_eq!(
        state_dir_root(HostOs::Windows, &None, &some("/h"), &some("/l")).as_deref(),
        Some("/l")
    );
    assert_eq!(state_dir_root(HostOs::Linux, &None, &some(""), &None), None);
    assert_eq!(
        persisted_default_repo_path(&some("/s")).as_deref(),
        Some("/s/patina/default_repo")
    );
    assert_eq!(persisted_default_repo_path(&None), None);
}
