//! What the walk of a source tree leaves out.

use ignore::gitignore::Gitignore;
use patina_core::ignore_rules::build;
use patina_core::ignore_rules::none;
use patina_core::ignore_rules::prunes;
use patina_core::ignore_rules::IgnoreRulesError;

fn rules(repo_wide: &[&str], entry: &[&str]) -> Gitignore {
    build(&texts(repo_wide), &texts(entry), "/repo/mod/src").expect("rules build")
}

fn texts(patterns: &[&str]) -> Vec<String> {
    patterns.iter().map(|pattern| (*pattern).to_owned()).collect()
}

fn matches(rules: &Gitignore, path: &str) -> bool {
    rules.matched(path, false).is_ignore()
}

#[test]
fn an_entry_negation_overrides_a_repo_wide_pattern() {
    let rules = rules(&["*.log"], &["!keep.log"]);
    assert!(matches(&rules, "noise.log"));
    assert!(rules.matched("keep.log", false).is_whitelist());
}

#[test]
fn a_repo_wide_pattern_applies_to_an_entry_that_declares_none() {
    let rules = rules(&[".DS_Store"], &[]);
    assert!(matches(&rules, ".DS_Store"));
    assert!(matches(&rules, "nested/.DS_Store"));
}

#[test]
fn matching_folds_case() {
    let rules = rules(&["thumbs.db"], &["*.pyc"]);
    assert!(matches(&rules, "Thumbs.db"));
    assert!(matches(&rules, "FOO.PYC"));
}

#[test]
fn a_trailing_slash_pattern_matches_a_directory_and_not_a_file() {
    let rules = rules(&[], &["__pycache__/"]);
    assert!(rules.matched("__pycache__", true).is_ignore());
    assert!(!rules.matched("__pycache__", false).is_ignore());
}

#[test]
fn a_leading_slash_anchors_at_the_entry_source_not_the_repository() {
    let rules = rules(&["/build"], &[]);
    assert!(matches(&rules, "build"));
    assert!(!matches(&rules, "nested/build"));
}

#[test]
fn a_malformed_glob_names_the_offending_pattern() {
    let err = build(&Vec::new(), &texts(&["log[9-1].txt"]), "/repo/mod/src")
        .expect_err("a reversed character range is not a valid glob");
    assert!(
        matches!(err, IgnoreRulesError::Pattern { ref pattern, .. } if pattern == "log[9-1].txt"),
        "got {err:?}"
    );
    assert!(err.message().starts_with("ignore pattern `log[9-1].txt` is not a valid glob: "));
}

#[test]
fn prunes_drops_a_leaf_under_an_ignored_directory() {
    let rules = rules(&[], &["__pycache__/"]);
    assert!(prunes(&rules, "__pycache__/mod.pyc"));
    assert!(prunes(&rules, "pkg/__pycache__/mod.pyc"));
    assert!(!prunes(&rules, "pkg/mod.py"));
}

#[test]
fn prunes_lets_an_ancestor_outrank_a_leaf_negation() {
    let rules = rules(&[], &["build/", "!build/keep.txt"]);
    assert!(prunes(&rules, "build/keep.txt"));
    assert!(rules.matched_path_or_any_parents("build/keep.txt", false).is_whitelist());
}

#[test]
fn prunes_honours_a_negation_the_walk_can_reach() {
    let rules = rules(&["*.log"], &["!keep.log"]);
    assert!(prunes(&rules, "noise.log"));
    assert!(!prunes(&rules, "keep.log"));
}

#[test]
fn the_empty_matcher_matches_nothing() {
    let rules = none();
    assert!(!matches(&rules, "anything.pyc"));
    assert!(!rules.matched("__pycache__", true).is_ignore());
    assert!(!prunes(&rules, "__pycache__/mod.pyc"));
}

#[test]
fn comments_and_blank_lines_are_no_patterns() {
    let lines = |texts: &[&str]| -> Vec<String> { texts.iter().map(|t| t.to_string()).collect() };
    let empty = build(&Vec::new(), &Vec::new(), "/repo").expect("rules");
    assert_eq!(empty.path(), none().path());
    assert_eq!(empty.len(), 0);
    let idle = build(&lines(&["# note", "", "  "]), &Vec::new(), "/repo").expect("rules");
    assert_eq!(idle.len(), 0);
    assert_eq!(idle.path(), none().path());
    let rules = build(&lines(&["#x", "*.log  "]), &Vec::new(), "/repo").expect("rules");
    assert_eq!(rules.len(), 1);
    assert_eq!(rules.path(), std::path::Path::new("/repo"));
    assert!(prunes(&rules, "a.log"));
    assert!(!prunes(&rules, "#x"));
    let rules = build(&lines(&["*.log"]), &Vec::new(), "./repo").expect("rules");
    assert_eq!(rules.path(), std::path::Path::new("repo"));
}
