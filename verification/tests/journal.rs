//! The journal: what its files say of the runs, and what recovery does.

use camino::Utf8Path;
use camino::Utf8PathBuf;
use patina_core::backups::RETENTION_COUNT;
use patina_core::clock::is_timestamp;
use patina_core::io_failure::IoFailure;
use patina_core::io_failure::IoKind;
use patina_core::journal::checkpoint_record;
use patina_core::journal::classify_target;
use patina_core::journal::content_hash;
use patina_core::journal::discards_backups;
use patina_core::journal::is_unsupported_dir_sync;
use patina_core::journal::journal_file;
use patina_core::journal::mirror_backup_path;
use patina_core::journal::mirror_components;
use patina_core::journal::next_operation_id;
use patina_core::journal::operation_id_at;
use patina_core::journal::operation_id_parts;
use patina_core::journal::operation_target;
use patina_core::journal::orphan_plans;
use patina_core::journal::pending_removal;
use patina_core::journal::prune_cycles;
use patina_core::journal::prune_history;
use patina_core::journal::read_latest_commit;
use patina_core::journal::reverse_operation;
use patina_core::journal::reverse_steps;
use patina_core::journal::unrolled_commit_timestamps;
use patina_core::journal::ApplyRecord;
use patina_core::journal::Disposition;
use patina_core::journal::ExpectedTarget;
use patina_core::journal::JournalError;
use patina_core::journal::LastApply;
use patina_core::journal::OsSyncer;
use patina_core::journal::Plan;
use patina_core::journal::PlannedOperation;
use patina_core::journal::Probe;
use patina_core::journal::ProgressCursor;
use patina_core::journal::RecoveryReport;
use patina_core::journal::Removal;
use patina_core::journal::RemovalStep;
use patina_core::journal::Reversal;
use patina_core::journal::COMMIT_SUFFIX;
use patina_core::journal::FILE_MAJOR_VERSION;
use patina_core::journal::PLAN_SUFFIX;
use patina_core::journal::RECORD_LEN;
use patina_core::journal::ROLLED_BACK_SUFFIX;
use patina_core::utf8_path::PathComponent;
use patina_core::utf8_path::PathPrefix;
use tempfile::TempDir;

fn texts(names: &[&str]) -> Vec<String> {
    names.iter().map(|name| (*name).to_owned()).collect()
}

fn last_apply() -> LastApply {
    LastApply {
        at: "2026-05-28T12:00:00Z".to_owned(),
        user: "u".to_owned(),
        host: "h".to_owned(),
    }
}

fn sample_record() -> ApplyRecord {
    ApplyRecord::new(last_apply(), Vec::new(), Vec::new())
}

/// The names in a directory, or none where it does not exist.
fn listed(dir: &Utf8Path) -> Vec<String> {
    match fs_err::read_dir(dir) {
        Ok(entries) => entries
            .map(|entry| {
                let name = entry.expect("entry").file_name();
                name.into_string().expect("utf8 name")
            })
            .collect(),
        Err(_) => Vec::new(),
    }
}

fn write_commit(dir: &Utf8Path, ts: &str) {
    let bytes = sample_record().encode().expect("encode record");
    fs_err::write(dir.join(journal_file(ts, COMMIT_SUFFIX)), bytes).expect("write commit sentinel");
}

/// Reads every commit that is not rolled back, and asks for the latest.
fn latest(dir: &Utf8Path) -> Result<Option<(String, ApplyRecord)>, JournalError> {
    let candidates: Vec<(String, Vec<u8>)> = unrolled_commit_timestamps(&listed(dir))
        .into_iter()
        .map(|id| {
            let bytes = fs_err::read(dir.join(journal_file(&id, COMMIT_SUFFIX))).expect("read");
            (id, bytes)
        })
        .collect();
    read_latest_commit(&candidates)
}

/// Deletes what pruning names, and stops at the first failure.
fn prune(dir: &Utf8Path, ids: &[&str]) -> bool {
    prune_cycles(&texts(ids)).iter().all(|name| match fs_err::remove_file(dir.join(name)) {
        Ok(()) => true,
        Err(e) => e.kind() == std::io::ErrorKind::NotFound,
    })
}

fn temp_root() -> (TempDir, Utf8PathBuf) {
    let temp = TempDir::new().expect("tempdir");
    let root = Utf8Path::from_path(temp.path()).expect("utf8 temp path").to_owned();
    (temp, root)
}

#[test]
fn label_maps_each_variant_to_its_stable_word() {
    assert_eq!(Disposition::Create.label(), "create");
    assert_eq!(Disposition::Update.label(), "update");
    assert_eq!(Disposition::Unchanged.label(), "unchanged");
}

#[test]
fn prune_cycles_drops_commit_and_rolled_back_sentinels_for_the_named_timestamps() {
    let (_temp, dir) = temp_root();
    fs_err::write(dir.join(format!("OLD{COMMIT_SUFFIX}")), b"x").expect("old commit");
    fs_err::write(dir.join(format!("OLD{ROLLED_BACK_SUFFIX}")), b"x").expect("old rolled-back");
    fs_err::write(dir.join(format!("NEW{COMMIT_SUFFIX}")), b"x").expect("new commit");

    assert!(prune(&dir, &["OLD"]));

    assert!(!dir.join(format!("OLD{COMMIT_SUFFIX}")).exists());
    assert!(!dir.join(format!("OLD{ROLLED_BACK_SUFFIX}")).exists());
    assert!(dir.join(format!("NEW{COMMIT_SUFFIX}")).exists());
}

#[test]
fn prune_cycles_tolerates_absent_sentinels() {
    let (_temp, dir) = temp_root();
    assert!(prune(&dir, &["GHOST"]));
}

#[test]
fn pruned_files_go_plan_first_and_commit_last() {
    let files = prune_cycles(&texts(&["A", "B"]));
    assert_eq!(files.first().map(String::as_str), Some("A.plan"));
    let commit = files.iter().position(|name| name == "A.COMMIT").expect("commit of A");
    let plan = files.iter().position(|name| name == "A.plan").expect("plan of A");
    assert!(plan < commit);
    assert!(files.contains(&"B.ROLLED_BACK".to_owned()));
}

#[test]
fn discard_keeps_a_backup_cycle_a_committed_apply_shares() {
    let (_temp, root) = temp_root();
    let journal_dir = root.join("journal");
    let backups_dir = root.join("backups");
    let ts = "20260528T120000Z";
    let shared = backups_dir.join(ts).join("home").join(".rc");
    fs_err::create_dir_all(shared.parent().expect("backup parent")).expect("mkdir cycle");
    fs_err::create_dir_all(&journal_dir).expect("mkdir journal");
    fs_err::write(&shared, b"committed-backup").expect("seed the committed backup");
    let plan = journal_dir.join(journal_file(ts, PLAN_SUFFIX));
    fs_err::write(&plan, Plan::new(vec![]).encode().expect("encode")).expect("flush the plan");
    write_commit(&journal_dir, ts);

    if discards_backups(&listed(&journal_dir), ts) {
        fs_err::remove_dir_all(backups_dir.join(ts)).expect("discard backups");
    }
    fs_err::remove_file(&plan).expect("discard plan");

    assert_eq!(fs_err::read(&shared).expect("read the committed backup"), b"committed-backup");
    assert!(!journal_dir.join(format!("{ts}{PLAN_SUFFIX}")).exists());
    assert!(discards_backups(&texts(&["20260528T120000Z.plan"]), ts));
}

#[test]
fn read_latest_commit_is_none_on_missing_or_empty_dir() {
    let (_temp, dir) = temp_root();
    assert!(latest(&dir.join("nope")).expect("missing").is_none());
    assert!(latest(&dir).expect("empty").is_none());
}

#[test]
fn read_latest_commit_picks_the_newest_committed_apply() {
    let (_temp, dir) = temp_root();
    write_commit(&dir, "20260101T000000Z");
    write_commit(&dir, "20260102T000000Z");
    let (ts, record) = latest(&dir).expect("scan").expect("a committed apply");
    assert_eq!(ts, "20260102T000000Z");
    assert_eq!(record, sample_record());
}

#[test]
fn read_latest_commit_skips_a_rolled_back_apply_and_picks_the_prior() {
    let (_temp, dir) = temp_root();
    write_commit(&dir, "20260101T000000Z");
    write_commit(&dir, "20260102T000000Z");
    fs_err::write(dir.join(format!("20260102T000000Z{ROLLED_BACK_SUFFIX}")), [])
        .expect("rolled-back sentinel");
    let (ts, _record) = latest(&dir).expect("scan").expect("the prior committed apply");
    assert_eq!(ts, "20260101T000000Z");
}

#[test]
fn read_latest_commit_is_none_when_every_apply_is_rolled_back() {
    let (_temp, dir) = temp_root();
    write_commit(&dir, "20260101T000000Z");
    fs_err::write(dir.join(format!("20260101T000000Z{ROLLED_BACK_SUFFIX}")), [])
        .expect("rolled-back sentinel");
    assert!(latest(&dir).expect("scan").is_none());
}

#[test]
fn read_latest_commit_skips_a_torn_newest_sentinel_and_falls_back() {
    let (_temp, dir) = temp_root();
    write_commit(&dir, "20260101T000000Z");
    fs_err::write(dir.join(format!("20260102T000000Z{COMMIT_SUFFIX}")), []).expect("torn sentinel");
    let (ts, _record) = latest(&dir).expect("scan").expect("the prior valid commit");
    assert_eq!(ts, "20260101T000000Z");
}

#[test]
fn read_latest_commit_is_none_when_the_only_sentinel_is_torn() {
    let (_temp, dir) = temp_root();
    fs_err::write(dir.join(format!("20260102T000000Z{COMMIT_SUFFIX}")), []).expect("torn sentinel");
    assert!(latest(&dir).expect("a torn sole sentinel reads as none").is_none());
}

#[test]
fn read_latest_commit_propagates_a_newer_major_sentinel() {
    let (_temp, dir) = temp_root();
    write_commit(&dir, "20260101T000000Z");
    let mut bytes = sample_record().encode().expect("encode");
    bytes
        .get_mut(..2)
        .expect("the encoded record has a 2-byte envelope")
        .copy_from_slice(&(FILE_MAJOR_VERSION + 1).to_le_bytes());
    fs_err::write(dir.join(format!("20260102T000000Z{COMMIT_SUFFIX}")), bytes)
        .expect("newer-major sentinel");
    assert!(matches!(latest(&dir), Err(JournalError::VersionMismatch { .. })));
}

fn content(target: &str, disposition: Disposition) -> ExpectedTarget {
    ExpectedTarget::Content {
        target: target.to_owned(),
        source: format!("/repo{target}"),
        hash: content_hash(target.as_bytes()),
        entry: 0,
        disposition,
    }
}

#[test]
fn operation_ids_advance_with_a_frozen_or_backward_clock() {
    let now = "20260101T000000Z";
    let first = operation_id_at(&Vec::new(), now).expect("first ID");
    let mut names = vec![format!("{first}.COMMIT")];
    let second = operation_id_at(&names, now).expect("second ID");
    assert!(second > first);
    names.push(format!("{second}.ROLLED_BACK"));
    let third = operation_id_at(&names, "20250101T000000Z").expect("ID after clock rollback");
    assert!(third > second);
    names.push(format!("{third}.1"));
    assert!(operation_id_at(&names, now).expect("ID after recovery") > third);
    assert_eq!(first, "20260101T000000Z-00000000000000000000");
    assert_eq!(second, "20260101T000000Z-00000000000000000001");
}

#[test]
fn malformed_operation_ids_are_not_allocated_from() {
    let names = texts(&[
        "99990101T000000Z-short.COMMIT",
        "99990101T000000Z-99999999999999999999.COMMIT",
        "99990101T000000Z-0000000000000000000x.COMMIT",
    ]);
    assert!(operation_id_at(&names, "20260101T000000Z")
        .expect("allocate ID")
        .starts_with("20260101T000000Z-"));
}

#[test]
fn operation_ids_part_into_a_date_and_a_sequence() {
    assert_eq!(
        operation_id_parts("20260101T000000Z-00000000000000000042"),
        Some(("20260101T000000Z".to_owned(), 42))
    );
    assert_eq!(operation_id_parts("20260101T000000Z"), Some(("20260101T000000Z".to_owned(), 0)));
    assert_eq!(operation_id_parts("20260101T000000Z-42"), None);
    assert_eq!(operation_id_parts("today"), None);
}

#[test]
fn a_fresh_id_starts_with_the_time_of_day() {
    let id = next_operation_id(&Vec::new()).expect("an ID");
    let (date, sequence) = operation_id_parts(&id).expect("an operation ID");
    assert!(is_timestamp(&date));
    assert_eq!(sequence, 0);
}

#[test]
fn retention_preserves_pending_operations_and_newest_backups() {
    let (_temp, state) = temp_root();
    let journal = state.join("journal");
    let backups = state.join("backups");
    fs_err::create_dir_all(&journal).expect("create journal");
    let mut ids = Vec::new();
    for i in 0..(RETENTION_COUNT + 2) {
        let id = format!("20260101T000000Z-{i:020}");
        write_commit(&journal, &id);
        fs_err::write(
            journal.join(format!("{id}.plan")),
            Plan::new(Vec::new()).encode().expect("encode plan"),
        )
        .expect("leave a committed plan");
        let backup = backups.join(&id);
        fs_err::create_dir_all(&backup).expect("create backup");
        fs_err::write(backup.join("payload"), b"preserved").expect("write backup");
        ids.push(id);
    }
    let pending = "20200101T000000Z";
    fs_err::write(journal.join(format!("{pending}.plan")), []).expect("write pending plan");
    fs_err::create_dir_all(backups.join(pending)).expect("create pending backup");

    let gone = prune_history(&listed(&journal), &listed(&backups));
    let cycles: Vec<&str> = gone.cycles.iter().map(String::as_str).collect();
    assert!(prune(&journal, &cycles));
    for id in &gone.backups {
        fs_err::remove_dir_all(backups.join(id)).expect("remove backup");
    }

    assert!(backups.join(pending).exists());
    for (i, id) in ids.iter().enumerate() {
        assert_eq!(journal.join(format!("{id}.COMMIT")).exists(), i >= 2);
        assert_eq!(backups.join(id).exists(), i >= 2);
    }
    assert_eq!(gone.retained, ids[2..]);
}

#[test]
fn a_failed_plan_cleanup_keeps_the_commit_authoritative() {
    let (_temp, journal) = temp_root();
    let id = "20260101T000000Z";
    write_commit(&journal, id);
    fs_err::create_dir(journal.join(format!("{id}.plan"))).expect("block plan deletion");

    assert!(!prune(&journal, &[id]));

    assert!(latest(&journal).expect("read retained commit").is_some());
    assert!(orphan_plans(&listed(&journal)).is_empty());
}

#[test]
fn a_record_only_commit_records_every_target_unchanged_and_nothing_reaped() {
    let record = checkpoint_record(
        last_apply(),
        vec![
            content("/home/u/.a", Disposition::Create),
            content("/home/u/.b", Disposition::Update),
        ],
    );
    assert_eq!(
        record.targets,
        [
            content("/home/u/.a", Disposition::Unchanged),
            content("/home/u/.b", Disposition::Unchanged),
        ]
    );
    assert!(record.reaped.is_empty());
    assert!(record.checkpoint);
    assert_eq!(record.last_apply, last_apply());
}

#[test]
fn a_record_only_commit_after_the_last_representable_sequence_is_refused() {
    let names = texts(&["99991231T235959Z-18446744073709551615"]);
    let result = next_operation_id(&names);
    assert!(
        matches!(&result, Err(JournalError::TimestampExhausted { newest })
            if newest == "99991231T235959Z-18446744073709551615"),
        "{result:?}"
    );
}

#[test]
fn a_record_only_commit_follows_a_journal_or_backup_timestamp_the_clock_has_not_passed() {
    let (_temp, journal) = temp_root();
    write_commit(&journal, "29990101T000000Z");
    let mut names = listed(&journal);
    names.push("29990101T000005Z".to_owned());

    let ts = next_operation_id(&names).expect("commit");

    assert_eq!(ts, "29990101T000005Z-00000000000000000001");
    write_commit(&journal, &ts);
    let (newest, _record) = latest(&journal).expect("scan").expect("a commit");
    assert_eq!(newest, ts);
}

#[test]
fn mirror_nests_target_beneath_timestamped_root() {
    let got = mirror_backup_path("/state/backups", "TS", "/home/u/.zshrc");
    assert!(Utf8Path::new(&got).starts_with("/state/backups/TS"));
    assert_eq!(Utf8Path::new(&got).file_name(), Some(".zshrc"));
    assert!(!got.contains("//"));
    assert_eq!(got, "/state/backups/TS/home/u/.zshrc");
}

#[test]
fn mirror_strips_dot_and_parent_segments() {
    let got = mirror_backup_path("/b", "TS", "/home/../home/u/x");
    assert!(Utf8Path::new(&got).starts_with("/b/TS"));
    assert!(!got.contains(".."));
    assert_eq!(Utf8Path::new(&got).file_name(), Some("x"));
}

#[test]
fn distinct_targets_mirror_to_distinct_backup_paths() {
    let a = mirror_backup_path("/b", "TS", "/home/u/.a");
    let b = mirror_backup_path("/b", "TS", "/home/u/.b");
    assert_ne!(a, b);
}

/// The components of a path on a volume.
fn on_volume(names: &[&str]) -> Vec<PathComponent> {
    let mut parts = vec![
        PathComponent::Prefix { text: "volume".to_owned() },
        PathComponent::RootDir { text: "\\".to_owned() },
    ];
    for name in names {
        parts.push(PathComponent::Normal { text: (*name).to_owned() });
    }
    parts
}

fn unc(host: &str, share: &str) -> Option<PathPrefix> {
    Some(PathPrefix::Unc { host: host.to_owned(), share: share.to_owned() })
}

#[test]
fn two_unc_shares_that_flatten_alike_mirror_to_distinct_paths() {
    let parts = on_volume(&["conf.toml"]);
    let a = mirror_components(&parts, &unc("srv", "a"));
    let b = mirror_components(&parts, &unc("sr", "va"));
    assert_ne!(a, b);
    assert_eq!(a.last().map(String::as_str), Some("conf.toml"));
    assert_eq!(b.last().map(String::as_str), Some("conf.toml"));
}

#[test]
fn a_unc_host_named_like_a_drive_does_not_collide_with_that_drive() {
    let share = mirror_components(&on_volume(&["conf.toml"]), &unc("C", "share"));
    let disk = mirror_components(
        &on_volume(&["share", "conf.toml"]),
        &Some(PathPrefix::Disk { letter: 'C' }),
    );
    assert_ne!(share, disk);
}

#[test]
fn each_drive_keeps_its_single_letter_component() {
    let parts = on_volume(&["u", ".zshrc"]);
    let c = mirror_components(&parts, &Some(PathPrefix::Disk { letter: 'C' }));
    let d = mirror_components(&parts, &Some(PathPrefix::Disk { letter: 'D' }));
    assert_ne!(c, d);
    assert_eq!(c, ["C", "u", ".zshrc"]);
}

#[test]
fn classify_reports_present_for_existing_and_absent_for_missing() {
    let (_temp, dir) = temp_root();
    let present = dir.join("here");
    fs_err::write(&present, b"x").expect("write file");
    assert_eq!(classify_target(fs_err::symlink_metadata(&present).is_ok()), Probe::Present);
    let missing = dir.join("nope");
    assert_eq!(classify_target(fs_err::symlink_metadata(&missing).is_ok()), Probe::Absent);
}

#[test]
fn operation_target_extracts_the_target_of_each_variant() {
    let create = Disposition::Create;
    assert_eq!(operation_target(&PlannedOperation::symlink("s", "/t/sym", create)), "/t/sym");
    assert_eq!(operation_target(&PlannedOperation::render("s", "/t/ren", create)), "/t/ren");
    assert_eq!(operation_target(&PlannedOperation::copy("s", "/t/cp", create)), "/t/cp");
    assert_eq!(operation_target(&PlannedOperation::remove("/t/rm")), "/t/rm");
}

fn encoded(indices: &[u32]) -> Vec<u8> {
    let cursor = ProgressCursor::create("/journal", "ts");
    indices.iter().flat_map(|i| cursor.record(*i)).collect()
}

#[test]
fn records_decode_in_append_order() {
    let bytes = encoded(&[0, 1, 2]);
    assert_eq!(ProgressCursor::decode_completed(&bytes), vec![0, 1, 2]);
}

#[test]
fn each_record_is_fixed_width() {
    let bytes = encoded(&[7, 42]);
    assert_eq!(bytes.len(), 2 * RECORD_LEN);
    assert_eq!(bytes, [7, 0, 0, 0, 1, 42, 0, 0, 0, 1]);
}

#[test]
fn torn_trailing_record_is_discarded() {
    let mut bytes = encoded(&[3, 9]);
    bytes.extend_from_slice(&[0xFF, 0xFF]);
    assert_eq!(ProgressCursor::decode_completed(&bytes), vec![3, 9]);
}

#[test]
fn a_cursor_writes_beside_its_plan() {
    assert_eq!(ProgressCursor::create("/journal", "ts").path(), "/journal/ts.progress");
}

struct Dirs {
    _temp: TempDir,
    journal: Utf8PathBuf,
    backups: Utf8PathBuf,
}

fn dirs() -> Dirs {
    let (temp, root) = temp_root();
    let journal = root.join("journal");
    let backups = root.join("backups");
    fs_err::create_dir_all(&journal).expect("create journal dir");
    fs_err::create_dir_all(&backups).expect("create backups dir");
    Dirs { _temp: temp, journal, backups }
}

fn write_plan(journal: &Utf8Path, ts: &str, plan: &Plan) {
    let bytes = plan.encode().expect("encode plan");
    fs_err::write(journal.join(format!("{ts}{PLAN_SUFFIX}")), bytes).expect("write plan");
}

fn is_present(path: &str) -> bool {
    fs_err::symlink_metadata(path).is_ok()
}

/// Reverses every orphan plan as the library says.
fn recover_orphans(journal: &Utf8Path, backups: &Utf8Path) -> RecoveryReport {
    let orphans = orphan_plans(&listed(journal));
    for id in &orphans {
        let plan = journal.join(journal_file(id, PLAN_SUFFIX));
        let bytes = fs_err::read(&plan).expect("read plan");
        for step in reverse_steps(backups.as_str(), id, &bytes).expect("steps") {
            match reverse_operation(step.disposition, is_present(&step.backup)) {
                Reversal::Leave => {}
                Reversal::Restore => {
                    if is_present(&step.target) {
                        fs_err::remove_file(&step.target).expect("clear target");
                    }
                    fs_err::rename(&step.backup, &step.target).expect("restore");
                }
                Reversal::Delete => {
                    if is_present(&step.target) {
                        fs_err::remove_file(&step.target).expect("delete target");
                    }
                }
            }
        }
        fs_err::remove_file(&plan).expect("close the run");
    }
    RecoveryReport::of(orphans)
}

#[test]
fn missing_journal_dir_is_a_clean_no_op() {
    let (_temp, root) = temp_root();
    let report = recover_orphans(&root.join("nope"), &root.join("backups"));
    assert!(!report.recovered_any());
}

#[test]
fn committed_plan_is_not_an_orphan() {
    let d = dirs();
    let ts = "20260528T100000Z";
    write_plan(&d.journal, ts, &Plan::new(vec![]));
    fs_err::write(d.journal.join(format!("{ts}{COMMIT_SUFFIX}")), []).expect("commit sentinel");

    assert!(!recover_orphans(&d.journal, &d.backups).recovered_any());
    assert!(d.journal.join(format!("{ts}{PLAN_SUFFIX}")).exists());
}

#[test]
fn rolled_back_plan_is_not_an_orphan() {
    let d = dirs();
    let ts = "20260528T100000Z";
    write_plan(&d.journal, ts, &Plan::new(vec![]));
    fs_err::write(d.journal.join(format!("{ts}{ROLLED_BACK_SUFFIX}")), [])
        .expect("rolled-back sentinel");

    assert!(!recover_orphans(&d.journal, &d.backups).recovered_any());
}

#[test]
fn unchanged_marked_orphan_target_is_left_in_place() {
    let d = dirs();
    let root = d.journal.parent().expect("journal has a parent");
    let ts = "20260528T130000Z";
    let target = root.join("home").join(".gitconfig");
    fs_err::create_dir_all(target.parent().expect("target parent")).expect("mkdir home");
    fs_err::write(&target, b"matches-the-source").expect("write unchanged target");
    assert!(!is_present(&mirror_backup_path(d.backups.as_str(), ts, target.as_str())));
    write_plan(
        &d.journal,
        ts,
        &Plan::new(vec![PlannedOperation::copy("src", target.as_str(), Disposition::Unchanged)]),
    );

    let report = recover_orphans(&d.journal, &d.backups);
    assert!(report.recovered_any());
    assert_eq!(report.recovered_timestamps(), [ts]);
    assert_eq!(fs_err::read(&target).expect("read preserved target"), b"matches-the-source");
}

#[test]
fn create_marked_orphan_target_with_no_backup_is_deleted() {
    let d = dirs();
    let root = d.journal.parent().expect("journal has a parent");
    let ts = "20260528T140000Z";
    let target = root.join("home").join(".vimrc");
    fs_err::create_dir_all(target.parent().expect("target parent")).expect("mkdir home");
    fs_err::write(&target, b"freshly-created").expect("write create target");
    assert!(!is_present(&mirror_backup_path(d.backups.as_str(), ts, target.as_str())));
    write_plan(
        &d.journal,
        ts,
        &Plan::new(vec![PlannedOperation::copy("src", target.as_str(), Disposition::Create)]),
    );

    assert!(recover_orphans(&d.journal, &d.backups).recovered_any());
    assert!(!target.exists());
}

#[test]
fn overwrite_of_a_pre_existing_symlink_restores_the_symlink() {
    let d = dirs();
    let root = d.journal.parent().expect("journal has a parent");
    let ts = "20260528T120000Z";
    let target = root.join("home").join(".zshrc");
    fs_err::create_dir_all(target.parent().expect("target parent")).expect("mkdir home");
    let backup = Utf8PathBuf::from(mirror_backup_path(d.backups.as_str(), ts, target.as_str()));
    fs_err::create_dir_all(backup.parent().expect("backup parent")).expect("mkdir backup tree");
    fs_err::os::unix::fs::symlink("/orig/dest", &backup).expect("stash original as symlink");
    fs_err::write(&target, b"new-content").expect("write orphan target");
    write_plan(
        &d.journal,
        ts,
        &Plan::new(vec![PlannedOperation::copy("src", target.as_str(), Disposition::Create)]),
    );

    assert!(recover_orphans(&d.journal, &d.backups).recovered_any());
    let meta = fs_err::symlink_metadata(&target).expect("stat restored target");
    assert!(meta.file_type().is_symlink());
    assert_eq!(
        fs_err::read_link(&target).expect("readlink restored target"),
        std::path::Path::new("/orig/dest")
    );
}

#[test]
fn reversal_goes_by_disposition_and_backup() {
    assert_eq!(reverse_operation(Disposition::Unchanged, true), Reversal::Leave);
    assert_eq!(reverse_operation(Disposition::Unchanged, false), Reversal::Leave);
    assert_eq!(reverse_operation(Disposition::Create, true), Reversal::Restore);
    assert_eq!(reverse_operation(Disposition::Create, false), Reversal::Delete);
    assert_eq!(reverse_operation(Disposition::Update, true), Reversal::Restore);
    assert_eq!(reverse_operation(Disposition::Update, false), Reversal::Leave);
}

#[test]
fn every_operation_has_a_step_back() {
    let plan = Plan::new(vec![
        PlannedOperation::copy("a", "/t/a", Disposition::Create),
        PlannedOperation::copy("b", "/t/b", Disposition::Update),
    ]);
    let steps = reverse_steps("/b", "TS", &plan.encode().expect("encode")).expect("steps");
    let targets: Vec<&str> = steps.iter().map(|step| step.target.as_str()).collect();
    assert_eq!(targets, ["/t/a", "/t/b"]);
    assert_eq!(steps[1].backup, "/b/TS/t/b");
    assert_eq!(steps[1].disposition, Disposition::Update);
    assert_eq!(reverse_steps("/b", "TS", &[1]), Err(JournalError::Truncated { got: 1, need: 2 }));
}

#[test]
fn a_removal_plans_its_target_and_its_manifest() {
    let removal = Removal {
        target: "/home/u/.rc".to_owned(),
        content: Some(b"kept".to_vec()),
        manifest: "/repo/m/patina.toml".to_owned(),
        edited_manifest: Vec::new(),
    };
    let plan = removal.plan(true);
    assert!(plan.removes("/home/u/.rc"));
    assert!(!plan.removes("/home/u/.other"));
    assert_eq!(
        plan.operations(),
        [
            PlannedOperation::copy("/home/u/.rc", "/home/u/.rc", Disposition::Update),
            PlannedOperation::copy(
                "/repo/m/patina.toml",
                "/repo/m/patina.toml",
                Disposition::Update
            ),
        ]
    );
    assert_eq!(removal.plan(false).operations()[0].disposition(), Disposition::Create);
    let steps = removal.execute();
    assert_eq!(steps.first(), Some(&RemovalStep::FlushPlan));
    assert!(steps.contains(&RemovalStep::WriteTarget));
    assert!(!Removal { content: None, ..removal }.execute().contains(&RemovalStep::WriteTarget));
}

#[test]
fn a_pending_removal_is_found_by_its_target() {
    let apply = Plan::new(Vec::new()).encode().expect("encode");
    let removal = Plan::removal("/t", Vec::new()).encode().expect("encode");
    let plans = vec![apply, removal];
    assert_eq!(pending_removal(&plans, "/t"), Ok(true));
    assert_eq!(pending_removal(&plans, "/other"), Ok(false));
    assert_eq!(
        pending_removal(&vec![vec![0]], "/t"),
        Err(JournalError::Truncated { got: 1, need: 2 })
    );
}

fn failure(kind: IoKind, os_code: Option<i32>) -> IoFailure {
    IoFailure { kind, os_code, message: "failed".to_owned() }
}

#[test]
fn a_platform_that_cannot_flush_directories_is_no_failure() {
    assert!(is_unsupported_dir_sync(&failure(IoKind::Unsupported, None)));
    assert!(is_unsupported_dir_sync(&failure(IoKind::PermissionDenied, None)));
    assert!(!is_unsupported_dir_sync(&failure(IoKind::NotFound, Some(2))));
    assert_eq!(OsSyncer.settle_dir(Ok(())), Ok(()));
    assert_eq!(OsSyncer.settle_dir(Err(failure(IoKind::Unsupported, None))), Ok(()));
    let lost = failure(IoKind::NotFound, Some(2));
    assert_eq!(OsSyncer.settle_dir(Err(lost.clone())), Err(lost));
}

#[test]
fn journal_errors_say_what_was_wrong() {
    assert_eq!(
        JournalError::Truncated { got: 1, need: 2 }.message(),
        "journal record is truncated: 1 bytes, need at least 2 for the version envelope"
    );
    let newer = JournalError::VersionMismatch { found: 2, supported: 1 }.message();
    assert!(newer.contains('2') && newer.contains('1'), "{newer}");
    assert_eq!(JournalError::Encode.message(), "failed to encode plan to postcard");
    assert_eq!(JournalError::Decode.message(), "failed to decode plan from postcard");
}

#[test]
fn an_empty_report_names_no_run() {
    let report = RecoveryReport::default();
    assert!(!report.recovered_any());
    assert!(report.recovered_timestamps().is_empty());
}
