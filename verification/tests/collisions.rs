//! Entries that fight over a target.

use patina_core::apply::collisions::anchor;
use patina_core::apply::collisions::comparison_key;
use patina_core::apply::collisions::respelled;
use patina_core::apply::collisions::validate_targets;
use patina_core::apply::collisions::CollisionError;
use patina_core::apply::collisions::TargetClaim;
use patina_core::config::FileMode;
use tempfile::TempDir;

fn claim(module: &str, source: &str, mode: FileMode, targets: &[String]) -> TargetClaim {
    TargetClaim {
        module: module.to_owned(),
        source: source.to_owned(),
        mode,
        tree_target: None,
        targets: targets.to_vec(),
    }
}

/// The claim for a tree-mode entry: leaf targets, plus the directory target they
/// were expanded from.
fn leaf_claim(
    module: &str,
    source: &str,
    mode: FileMode,
    tree_target: &str,
    targets: &[String],
) -> TargetClaim {
    TargetClaim {
        tree_target: Some(tree_target.to_owned()),
        ..claim(module, source, mode, targets)
    }
}

fn targets(paths: &[&str]) -> Vec<String> {
    paths.iter().map(|p| (*p).to_owned()).collect()
}

/// How the filesystem spells the parent directory of a target: the deepest
/// directory above it that exists is canonicalized, and the rest is put behind.
fn spelled_parent(parent: &camino::Utf8Path) -> Option<String> {
    for rung in anchor(parent.as_str()) {
        if let Ok(resolved) = camino::Utf8Path::new(&rung.path).canonicalize_utf8() {
            return Some(respelled(&rung, resolved.as_str()));
        }
    }
    None
}

/// The respellings of the parents of every target of a row of claims.
fn anchors_of(claims: &[TargetClaim]) -> Vec<(String, String)> {
    let mut anchors = Vec::new();
    for claim in claims {
        for target in &claim.targets {
            let parent = camino::Utf8Path::new(target).parent().expect("a parent");
            if let Some(spelled) = spelled_parent(parent) {
                anchors.push((parent.as_str().to_owned(), spelled));
            }
        }
    }
    anchors
}

fn validate(claims: &[TargetClaim]) -> Result<(), CollisionError> {
    validate_targets(&claims.to_vec(), &anchors_of(claims))
}

#[test]
fn two_entries_on_one_target_collide() {
    let a = targets(&["/home/u/.gitconfig"]);
    let b = targets(&["/home/u/.gitconfig"]);
    let claims = [
        claim("git", "gitconfig", FileMode::Symlink, &a),
        claim("work", "gitconfig", FileMode::Copy, &b),
    ];
    let err = validate(&claims).expect_err("one target, two entries");
    assert!(
        matches!(
            &err,
            CollisionError::SameTarget { first_module, second_module, .. }
                if first_module == "git" && second_module == "work"
        ),
        "the first-declared entry must be reported first, got {err:?}"
    );
}

#[test]
fn distinct_targets_do_not_collide() {
    let a = targets(&["/home/u/.gitconfig"]);
    let b = targets(&["/home/u/.zshrc"]);
    let claims = [
        claim("git", "gitconfig", FileMode::Symlink, &a),
        claim("zsh", "zshrc", FileMode::Symlink, &b),
    ];
    validate(&claims).expect("distinct targets are legal");
}

#[test]
fn a_target_nested_under_a_whole_directory_symlink_collides() {
    let outer = targets(&["/home/u/.config/nvim"]);
    let inner = targets(&["/home/u/.config/nvim/init.lua"]);
    let claims = [
        claim("nvim", "nvim", FileMode::SymlinkDir, &outer),
        claim("nvim-extra", "init.lua", FileMode::Symlink, &inner),
    ];
    let err = validate(&claims).expect_err("nested under a whole-directory symlink");
    assert!(
        matches!(
            &err,
            CollisionError::ContainedTarget { inner_target, .. }
                if inner_target == "/home/u/.config/nvim/init.lua"
        ),
        "the contained target must be named, got {err:?}"
    );
}

#[test]
fn containment_is_detected_when_the_inner_entry_is_declared_first() {
    // Declaration order must not decide whether containment is found: the
    // directory entry is the *second* claim here.
    let inner = targets(&["/home/u/.config/nvim/init.lua"]);
    let outer = targets(&["/home/u/.config/nvim"]);
    let claims = [
        claim("nvim-extra", "init.lua", FileMode::Symlink, &inner),
        claim("nvim", "nvim", FileMode::SymlinkDir, &outer),
    ];
    validate(&claims).expect_err("order must not hide containment");
}

#[test]
fn a_tree_entry_does_not_own_the_paths_between_its_leaves() {
    // A tree materializes one object per leaf, so another entry may fill a
    // different part of the same directory.
    let leaves = targets(&["/home/u/.config/nvim/init.lua"]);
    let other = targets(&["/home/u/.config/nvim/lua/extra.lua"]);
    let claims = [
        leaf_claim(
            "nvim",
            "nvim",
            FileMode::CopyTree,
            "/home/u/.config/nvim",
            &leaves,
        ),
        claim("nvim-extra", "extra.lua", FileMode::Symlink, &other),
    ];
    validate(&claims).expect("a tree entry owns only the leaves it materializes");
}

#[test]
fn a_tree_leaf_colliding_with_another_entry_is_refused() {
    let leaves = targets(&["/home/u/.config/nvim/init.lua"]);
    let other = targets(&["/home/u/.config/nvim/init.lua"]);
    let claims = [
        leaf_claim(
            "nvim",
            "nvim",
            FileMode::SymlinkTree,
            "/home/u/.config/nvim",
            &leaves,
        ),
        claim("nvim-extra", "init.lua", FileMode::Symlink, &other),
    ];
    let err = validate(&claims).expect_err("one leaf, two entries");
    assert!(
        err.message().contains("/home/u/.config/nvim"),
        "the error must name the directory target the leaf came from, got: {err:?}"
    );
}

#[test]
fn a_sibling_sharing_a_path_prefix_is_not_contained() {
    // `/home/u/.config/nvim-backup` shares the textual prefix
    // `/home/u/.config/nvim` but is not under it.
    let outer = targets(&["/home/u/.config/nvim"]);
    let sibling = targets(&["/home/u/.config/nvim-backup"]);
    let claims = [
        claim("nvim", "nvim", FileMode::SymlinkDir, &outer),
        claim("backup", "nvim-backup", FileMode::SymlinkDir, &sibling),
    ];
    validate(&claims).expect("a prefix-sharing sibling is not contained");
}

#[test]
fn a_file_target_does_not_contain_anything() {
    // Only directory-mode entries own a subtree.
    let file_target = targets(&["/home/u/a"]);
    let under = targets(&["/home/u/a/b"]);
    let claims = [
        claim("m", "a", FileMode::Symlink, &file_target),
        claim("m", "b", FileMode::Symlink, &under),
    ];
    validate(&claims).expect("a file-mode entry owns only its own path");
}

#[test]
fn every_element_of_a_multi_target_fan_out_participates() {
    // The collision is on the *second* element of the first entry's fan-out, so a
    // check that only looked at the first target would miss it.
    let fan_out = targets(&["/home/u/.a", "/home/u/.b"]);
    let single = targets(&["/home/u/.b"]);
    let claims = [
        claim("m", "shared", FileMode::Copy, &fan_out),
        claim("n", "other", FileMode::Copy, &single),
    ];
    let err = validate(&claims).expect_err("fan-out element collides");
    assert!(
        matches!(
            &err,
            CollisionError::SameTarget { target, .. } if target == "/home/u/.b"
        ),
        "the colliding fan-out element must be named, got {err:?}"
    );
}

#[test]
fn a_fan_out_containing_its_own_sibling_target_collides() {
    // One entry declaring both a whole-directory link and something inside it is
    // the same hazard as two entries doing so.
    let fan_out = targets(&["/home/u/d", "/home/u/d/inner"]);
    let claims = [claim("m", "d", FileMode::SymlinkDir, &fan_out)];
    validate(&claims).expect_err("a self-contained fan-out collides");
}

#[test]
fn containment_is_found_when_the_two_targets_are_spelled_differently() {
    // A `..` hop stands in for the spelling divergence, since the components of a
    // path preserve it while canonicalization resolves it away.
    let temp = TempDir::new().expect("tempdir");
    let home = camino::Utf8Path::from_path(temp.path())
        .expect("utf8 temp path")
        .join("home");
    fs_err::create_dir_all(home.as_std_path()).expect("mkdir home");

    let outer_target = home.join(".agents").join("skills");
    let inner_target = home
        .join("..")
        .join("home")
        .join(".agents")
        .join("skills")
        .join("note.md");
    assert!(
        !inner_target.starts_with(&outer_target),
        "the fixture must actually produce two different spellings"
    );

    let outer = vec![outer_target.into_string()];
    let inner = vec![inner_target.into_string()];
    let claims = [
        claim("skills", "skills", FileMode::SymlinkDir, &outer),
        claim("extra", "note.md", FileMode::Copy, &inner),
    ];
    validate(&claims)
        .expect_err("containment must be found regardless of how each target is spelled");
}

#[test]
fn a_target_that_is_a_symlink_is_keyed_by_its_location_not_its_source() {
    // The collision key must stay at the target location; only the parent
    // directory is respelled.
    let temp = TempDir::new().expect("tempdir");
    let dir = camino::Utf8Path::from_path(temp.path()).expect("utf8 temp path");
    let source = dir.join("real.conf");
    fs_err::write(source.as_std_path(), b"x").expect("write source");
    let link = dir.join("link.conf");

    let key = comparison_key(link.as_str(), &spelled_parent(dir));
    let canonical_source = source.canonicalize_utf8().expect("canonicalize source");
    assert_ne!(
        key.to_lowercase(),
        canonical_source.as_str().to_lowercase(),
        "the key must not resolve the leaf symlink to its source"
    );
    assert!(
        key.to_lowercase().ends_with("link.conf"),
        "the key must keep the declared leaf name, got {key}"
    );
}

#[test]
fn case_only_targets_collide_on_every_host() {
    let a = targets(&["/home/u/.config/app/config.toml"]);
    let b = targets(&["/home/u/.config/app/Config.toml"]);
    let claims = [
        claim("m", "config.toml", FileMode::Symlink, &a),
        claim("n", "Config.toml", FileMode::Copy, &b),
    ];
    validate(&claims).expect_err("case-only-differing targets must collide");
}

#[test]
fn targets_differing_only_in_unicode_normalization_collide() {
    // `café.conf` with a precomposed é, then with `e` plus a combining acute.
    let precomposed = targets(&["/home/u/.config/caf\u{e9}.conf"]);
    let decomposed = targets(&["/home/u/.config/cafe\u{301}.conf"]);
    assert_ne!(
        precomposed, decomposed,
        "the two spellings must differ as raw paths, or the test proves nothing"
    );
    let claims = [
        claim("m", "cafe.conf", FileMode::Symlink, &precomposed),
        claim("n", "cafe.conf", FileMode::Copy, &decomposed),
    ];
    validate(&claims).expect_err("NFC and NFD spellings of one name must collide");
}

#[test]
fn normalization_folding_survives_the_case_mapping() {
    let upper = targets(&["/home/u/.config/CAF\u{c9}.conf"]);
    let lower = targets(&["/home/u/.config/cafe\u{301}.conf"]);
    let claims = [
        claim("m", "a.conf", FileMode::Symlink, &upper),
        claim("n", "b.conf", FileMode::Copy, &lower),
    ];
    validate(&claims).expect_err("case and normalization must fold together");
}

#[test]
fn collisions_sharp_s_stays_distinct_from_its_two_letter_spelling() {
    let sharp = targets(&["/home/u/.config/stra\u{df}e.conf"]);
    let spelled = targets(&["/home/u/.config/strasse.conf"]);
    let claims = [
        claim("m", "a.conf", FileMode::Symlink, &sharp),
        claim("n", "b.conf", FileMode::Copy, &spelled),
    ];
    validate(&claims).expect("ß and ss name different files");
}

#[test]
fn a_directory_entry_contains_a_target_spelled_in_another_case() {
    let outer = targets(&["/home/u/.config/App"]);
    let inner = targets(&["/home/u/.config/app/init.lua"]);
    let claims = [
        claim("m", "App", FileMode::SymlinkDir, &outer),
        claim("n", "init.lua", FileMode::Symlink, &inner),
    ];
    validate(&claims).expect_err("containment must ignore case, like the same-target check");
}

#[test]
fn an_empty_claim_set_is_legal() {
    validate(&[]).expect("a repository with no active entries validates");
}

#[test]
fn same_target_error_renders_both_entries() {
    let a = targets(&["/home/u/.gitconfig"]);
    let b = targets(&["/home/u/.gitconfig"]);
    let claims = [
        claim("git", "gitconfig", FileMode::Symlink, &a),
        claim("work", "config/gitconfig", FileMode::Copy, &b),
    ];
    let err = validate(&claims).expect_err("collision");
    assert_eq!(
        err.message(),
        "two entries resolve to the same target /home/u/.gitconfig: `gitconfig` in module `git` \
         and `config/gitconfig` in module `work`. Give them distinct targets, or guard them with \
         mutually exclusive `when` predicates"
    );
}

#[test]
fn contained_target_error_renders_both_entries() {
    let outer = targets(&["/home/u/.agents/skills"]);
    let inner = targets(&["/home/u/.agents/skills/humanizer/SKILL.md"]);
    let claims = [
        claim("skills", "skills", FileMode::SymlinkDir, &outer),
        leaf_claim(
            "humanizer",
            "humanizer",
            FileMode::CopyTree,
            "/home/u/.agents/skills/humanizer",
            &inner,
        ),
    ];
    let err = validate(&claims).expect_err("containment");
    let message = err.message();
    assert!(message.starts_with(
        "the directory entry `skills` in module `skills` links its whole target \
         /home/u/.agents/skills, which contains the target \
         /home/u/.agents/skills/humanizer/SKILL.md of `humanizer` in module `humanizer`"
    ));
    assert!(message.contains("/home/u/.agents/skills/humanizer"));
    assert!(message.ends_with(
        "move one of the two \u{2014} or switch it to `symlink-tree`, which owns only the leaves \
         it materializes"
    ));
}
