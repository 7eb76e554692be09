//! Backups and how many of them stay.

use patina_core::backups::backup_before_overwrite;
use patina_core::backups::gc_retain;
use patina_core::backups::retention::BackupEntry;
use patina_core::backups::BackupError;
use patina_core::backups::RETENTION_COUNT;
use patina_core::journal::mirror_backup_path;

/// `count` cycles whose names sort chronologically.
fn seed(count: usize) -> (Vec<String>, Vec<BackupEntry>) {
    let names: Vec<String> = (0..count).map(|i| format!("2026{i:05}")).collect();
    let entries = names
        .iter()
        .rev()
        .map(|name| BackupEntry {
            name: Some(name.clone()),
            is_dir: true,
        })
        .collect();
    (names, entries)
}

#[test]
fn prunes_oldest_keeping_the_newest_keep() {
    let (names, entries) = seed(15);
    let removed = gc_retain(&entries, 10);
    // The five oldest are removed, the ten newest survive.
    let (oldest_five, _) = names.split_at(5);
    assert_eq!(removed, oldest_five);
    assert_eq!(RETENTION_COUNT, 10);
}

#[test]
fn fewer_than_keep_removes_nothing() {
    let (_, entries) = seed(3);
    let removed = gc_retain(&entries, 10);
    assert!(removed.is_empty(), "nothing to prune below the keep count");
}

#[test]
fn exactly_keep_removes_nothing() {
    let (_, entries) = seed(10);
    let removed = gc_retain(&entries, 10);
    assert!(removed.is_empty());
}

#[test]
fn stray_files_are_not_retention_candidates() {
    let (names, mut entries) = seed(12);
    // A non-directory entry must be ignored rather than counted toward `keep` or
    // removed, and so must one whose name is no text.
    entries.push(BackupEntry {
        name: Some("README".to_owned()),
        is_dir: false,
    });
    entries.push(BackupEntry {
        name: None,
        is_dir: true,
    });
    let removed = gc_retain(&entries, 10);
    let (oldest_two, _) = names.split_at(2);
    assert_eq!(removed, oldest_two);
}

#[test]
fn missing_backups_dir_is_a_clean_no_op() {
    let removed = gc_retain(&vec![], 10);
    assert!(removed.is_empty());
}

#[test]
fn pre_existing_target_is_copied_to_mirrored_backup_path() {
    let made = backup_before_overwrite("/state/backups", "TS", "/home/u/.zshrc", true);
    assert_eq!(
        made,
        Some(mirror_backup_path("/state/backups", "TS", "/home/u/.zshrc"))
    );
    assert_eq!(
        made.as_deref(),
        Some("/state/backups/TS/home/u/.zshrc")
    );
}

#[test]
fn absent_target_produces_no_backup_entry() {
    let made = backup_before_overwrite("/state/backups", "TS", "/home/u/.gitconfig", false);
    assert!(
        made.is_none(),
        "an absent target must report no backup was made"
    );
}

#[test]
fn a_backup_error_says_what_failed() {
    let err = BackupError::Filesystem {
        message: "disk full".to_owned(),
    };
    assert_eq!(err.message(), "backup filesystem operation failed");
}
