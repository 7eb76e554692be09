//! Plans and commit records as bytes and as text, and the times in them.

use patina_core::clock::MAX_EPOCH;
use patina_core::clock::MIN_EPOCH;
use patina_core::clock::current_epoch_seconds;
use patina_core::clock::current_rfc3339;
use patina_core::clock::current_timestamp;
use patina_core::clock::epoch_to_rfc3339;
use patina_core::clock::is_timestamp;
use patina_core::clock::timestamp_to_rfc3339;
use patina_core::journal::content_hash;
use patina_core::journal::describe;
use patina_core::journal::load_commit_file;
use patina_core::journal::load_plan_file;
use patina_core::journal::render_plan;
use patina_core::journal::render_plan_at;
use patina_core::journal::render_record;
use patina_core::journal::render_record_at;
use patina_core::journal::timestamp_from_path;
use patina_core::journal::ApplyRecord;
use patina_core::journal::Disposition;
use patina_core::journal::ExpectedTarget;
use patina_core::journal::JournalError;
use patina_core::journal::LastApply;
use patina_core::journal::Plan;
use patina_core::journal::PlanRenderError;
use patina_core::journal::PlannedOperation;
use patina_core::journal::FILE_MAJOR_VERSION;
use patina_core::version_envelope;

fn plan_sample() -> Plan {
    Plan::new(vec![
        PlannedOperation::symlink("a", "/x/a", Disposition::Create),
        PlannedOperation::render("b.j2", "/x/b", Disposition::Update),
        PlannedOperation::copy("c", "/x/c", Disposition::Unchanged),
    ])
}

/// Writes a major version over the envelope.
fn with_major(mut bytes: Vec<u8>, major: u16) -> Vec<u8> {
    bytes.get_mut(..2).expect("a 2-byte envelope").copy_from_slice(&major.to_le_bytes());
    bytes
}

#[test]
fn plan_encode_decode_round_trips() {
    let plan = plan_sample();
    let bytes = plan.encode().expect("encode");
    assert_eq!(Plan::decode(&bytes).expect("decode"), plan);
}

#[test]
fn a_removal_plan_round_trips() {
    let plan = Plan::removal("/x/a", vec![PlannedOperation::remove("/x/a")]);
    let bytes = plan.encode().expect("encode");
    assert_eq!(Plan::decode(&bytes).expect("decode"), plan);
}

#[test]
fn per_op_dispositions_round_trip() {
    let plan = plan_sample();
    let decoded = Plan::decode(&plan.encode().expect("encode")).expect("decode");
    let got: Vec<Disposition> =
        decoded.operations().iter().map(PlannedOperation::disposition).collect();
    assert_eq!(got, vec![Disposition::Create, Disposition::Update, Disposition::Unchanged]);
}

#[test]
fn envelope_carries_current_major_at_offset_zero() {
    let bytes = plan_sample().encode().expect("encode");
    assert_eq!(Plan::read_envelope_version(&bytes).expect("read envelope"), FILE_MAJOR_VERSION);
    assert_eq!(bytes.get(..2), Some(FILE_MAJOR_VERSION.to_le_bytes().as_slice()));
}

#[test]
fn a_plan_is_spelled_byte_for_byte() {
    let plan = Plan::new(vec![PlannedOperation::symlink("a", "/t", Disposition::Update)]);
    assert_eq!(
        plan.encode().expect("encode"),
        [1, 0, 1, 0, 1, b'a', 2, b'/', b't', 1, 0]
    );
}

#[test]
fn truncated_buffer_is_rejected_before_decode() {
    let err = Plan::decode(&[0u8]).expect_err("one byte cannot hold the envelope");
    assert!(matches!(err, JournalError::Truncated { got: 1, need: 2 }));
}

#[test]
fn a_damaged_body_is_refused() {
    assert_eq!(Plan::decode(&[1, 0]), Err(JournalError::Decode));
    assert_eq!(ApplyRecord::decode(&[1, 0, 255]), Err(JournalError::Decode));
}

#[test]
fn current_major_decodes_but_newer_major_is_refused() {
    let bytes = plan_sample().encode().expect("encode");
    Plan::decode(&bytes).expect("current major version decodes");
    assert!(matches!(
        Plan::decode(&with_major(bytes, FILE_MAJOR_VERSION + 1)),
        Err(JournalError::VersionMismatch { .. })
    ));
}

#[test]
fn on_disk_major_is_held_at_one() {
    assert_eq!(FILE_MAJOR_VERSION, 1);
}

#[test]
fn plan_envelope_major_byte_reads_as_one() {
    let bytes = plan_sample().encode().expect("encode");
    assert_eq!(Plan::read_envelope_version(&bytes).expect("read envelope"), 1);
}

#[test]
fn plan_major_two_buffer_is_refused_not_misdecoded() {
    let bytes = with_major(plan_sample().encode().expect("encode"), 2);
    assert!(matches!(
        Plan::decode(&bytes),
        Err(JournalError::VersionMismatch { found: 2, supported: 1 })
    ));
}

#[test]
fn empty_plan_is_empty_and_round_trips() {
    let plan = Plan::new(vec![]);
    assert!(plan.is_empty());
    assert_eq!(plan.len(), 0);
    let bytes = plan.encode().expect("encode");
    assert_eq!(Plan::decode(&bytes).expect("decode"), plan);
    assert_eq!(plan_sample().len(), 3);
    assert!(!plan_sample().is_empty());
}

fn record() -> ApplyRecord {
    ApplyRecord::new(
        LastApply {
            at: "2026-05-28T12:00:00Z".to_owned(),
            user: "u".to_owned(),
            host: "h".to_owned(),
        },
        vec![
            ExpectedTarget::Symlink {
                target: "/home/u/.zshrc".to_owned(),
                link_target: "/repo/zsh/zshrc".to_owned(),
                entry: 0,
                disposition: Disposition::Create,
            },
            ExpectedTarget::Content {
                target: "/home/u/.gitconfig".to_owned(),
                source: "/repo/git/gitconfig".to_owned(),
                hash: content_hash(b"payload"),
                entry: 1,
                disposition: Disposition::Update,
            },
            ExpectedTarget::Content {
                target: "/home/u/.vimrc".to_owned(),
                source: "/repo/vim/vimrc".to_owned(),
                hash: content_hash(b"clean"),
                entry: 2,
                disposition: Disposition::Unchanged,
            },
        ],
        vec![],
    )
}

#[test]
fn record_encode_decode_round_trips() {
    let r = record();
    let bytes = r.encode().expect("encode");
    assert_eq!(ApplyRecord::decode(&bytes).expect("decode"), r);
}

#[test]
fn a_record_keeps_what_it_reaped() {
    let mut r = record();
    r.reaped = vec!["/home/u/.old".to_owned(), "/home/u/.older".to_owned()];
    let bytes = r.encode().expect("encode");
    assert_eq!(ApplyRecord::decode(&bytes).expect("decode"), r);
}

#[test]
fn per_leaf_dispositions_round_trip_at_major_one() {
    let bytes = record().encode().expect("encode");
    assert_eq!(version_envelope::read_envelope_version(&bytes).expect("read envelope"), 1);
    let decoded = ApplyRecord::decode(&bytes).expect("decode");
    let got: Vec<Disposition> = decoded.targets.iter().map(ExpectedTarget::disposition).collect();
    assert_eq!(got, vec![Disposition::Create, Disposition::Update, Disposition::Unchanged]);
}

#[test]
fn newer_major_is_refused() {
    let bytes = with_major(record().encode().expect("encode"), FILE_MAJOR_VERSION + 1);
    assert!(matches!(ApplyRecord::decode(&bytes), Err(JournalError::VersionMismatch { .. })));
}

#[test]
fn record_envelope_major_byte_reads_as_one() {
    let bytes = record().encode().expect("encode");
    assert_eq!(version_envelope::read_envelope_version(&bytes).expect("read envelope"), 1);
}

#[test]
fn record_major_two_buffer_is_refused_not_misdecoded() {
    let bytes = with_major(record().encode().expect("encode"), 2);
    assert!(matches!(
        ApplyRecord::decode(&bytes),
        Err(JournalError::VersionMismatch { found: 2, supported: 1 })
    ));
}

#[test]
fn empty_buffer_is_truncated_not_misdecoded() {
    assert!(matches!(
        ApplyRecord::decode(&[]),
        Err(JournalError::Truncated { got: 0, need: 2 })
    ));
}

#[test]
fn content_hash_changes_when_bytes_change() {
    assert_ne!(content_hash(b"a"), content_hash(b"b"));
    assert_eq!(content_hash(b"same"), content_hash(b"same"));
}

#[test]
fn content_hash_is_blake3_of_the_bytes() {
    assert_eq!(content_hash(b"payload"), *blake3::hash(b"payload").as_bytes());
}

fn one_link() -> ExpectedTarget {
    ExpectedTarget::Symlink {
        target: "/t/s".to_owned(),
        link_target: "/r/s".to_owned(),
        entry: 0,
        disposition: Disposition::Unchanged,
    }
}

fn one_content() -> ExpectedTarget {
    ExpectedTarget::Content {
        target: "/t/c".to_owned(),
        source: "/r/c".to_owned(),
        hash: [0u8; 32],
        entry: 3,
        disposition: Disposition::Update,
    }
}

#[test]
fn source_accessor_returns_origin_for_each_variant() {
    assert_eq!(one_link().source(), "/r/s");
    assert_eq!(one_content().source(), "/r/c");
}

#[test]
fn target_accessor_returns_the_path_for_each_variant() {
    assert_eq!(one_link().target(), "/t/s");
    assert_eq!(one_content().target(), "/t/c");
    assert_eq!(one_link().entry(), 0);
    assert_eq!(one_content().entry(), 3);
    assert_eq!(one_link().disposition(), Disposition::Unchanged);
    assert_eq!(one_content().disposition(), Disposition::Update);
}

#[test]
fn a_new_disposition_keeps_the_rest() {
    let moved = one_content().with_disposition(Disposition::Create);
    assert_eq!(moved.disposition(), Disposition::Create);
    assert_eq!(moved.with_disposition(Disposition::Update), one_content());
}

#[test]
fn compact_timestamp_becomes_rfc3339() {
    assert_eq!(timestamp_to_rfc3339("20260528T120000Z"), "2026-05-28T12:00:00Z");
}

#[test]
fn non_compact_timestamp_passes_through_unchanged() {
    assert_eq!(timestamp_to_rfc3339("not-a-ts"), "not-a-ts");
    assert_eq!(timestamp_to_rfc3339("2026052812000099"), "2026052812000099");
}

#[test]
fn timestamp_is_compact_utc() {
    let ts = current_timestamp();
    assert_eq!(ts.len(), 16, "timestamp {ts} should be 16 chars");
    assert!(ts.ends_with('Z'));
    assert_eq!(ts.as_bytes().get(8), Some(&b'T'));
    assert!(is_timestamp(&ts));
}

#[test]
fn is_timestamp_rejects_a_name_that_only_starts_like_one() {
    assert!(is_timestamp("20260528T120000Z"));
    assert!(!is_timestamp("20260528T120000"));
    assert!(!is_timestamp(""));
    assert!(!is_timestamp("rollback-stage-20260528T120000Z-0"));
}

#[test]
fn is_timestamp_rejects_an_unpadded_spelling() {
    assert!(!is_timestamp("2026528T120000Z"));
    assert!(!is_timestamp("20260528T12000Z"));
}

#[test]
fn seconds_since_the_epoch_become_rfc3339() {
    assert_eq!(epoch_to_rfc3339(1_786_456_800), "2026-08-11T14:00:00Z");
    assert_eq!(epoch_to_rfc3339(0), "1970-01-01T00:00:00Z");
    assert_eq!(epoch_to_rfc3339(i64::MIN), "-9223372036854775808");
    assert!((1_577_836_800..4_102_444_800).contains(&current_epoch_seconds()));
    assert!(current_rfc3339().ends_with('Z'));
}

#[test]
fn the_current_time_is_an_instant() {
    let now = current_epoch_seconds();
    assert!((MIN_EPOCH..=MAX_EPOCH).contains(&now));
    let text = epoch_to_rfc3339(now);
    assert_eq!(text.len(), 20);
    assert!(text.ends_with('Z'));
    assert_eq!(epoch_to_rfc3339(MIN_EPOCH - 1), "-377705023202");
    assert!(epoch_to_rfc3339(MIN_EPOCH).ends_with('Z'));
    assert!(epoch_to_rfc3339(MAX_EPOCH).ends_with('Z'));
    assert_eq!(epoch_to_rfc3339(MAX_EPOCH + 1), "253402207201");
}

fn rendered_plan() -> Plan {
    Plan::new(vec![
        PlannedOperation::symlink("zsh/zshrc", "/home/u/.zshrc", Disposition::Create),
        PlannedOperation::copy("git/gitconfig", "/home/u/.gitconfig", Disposition::Create),
        PlannedOperation::render("git/c.tmpl", "/home/u/.c", Disposition::Create),
    ])
}

#[test]
fn render_names_each_mode_source_and_target() {
    let text = render_plan(&rendered_plan(), "20260528T120000Z");
    assert!(text.contains("symlink"), "{text}");
    assert!(text.contains("copy"), "{text}");
    assert!(text.contains("template-render"), "{text}");
    assert!(text.contains("/home/u/.zshrc"), "{text}");
    assert!(text.contains("/home/u/.gitconfig"), "{text}");
    assert!(text.contains("zsh/zshrc"), "{text}");
}

#[test]
fn render_shows_a_remove_as_its_target_without_a_source() {
    let plan = Plan::new(vec![PlannedOperation::remove("/home/u/.old")]);
    let text = render_plan(&plan, "20260528T120000Z");
    assert!(text.contains("[0] remove\n    target: /home/u/.old\n"), "{text}");
    assert!(!text.contains("source:"), "{text}");
}

#[test]
fn render_header_carries_both_timestamp_forms_and_count() {
    let text = render_plan(&rendered_plan(), "20260528T120000Z");
    assert!(text.contains("20260528T120000Z"), "{text}");
    assert!(text.contains("2026-05-28T12:00:00Z"), "{text}");
    assert!(text.contains("3 operation(s)"), "{text}");
}

#[test]
fn a_rendered_time_is_the_one_given() {
    let text = render_plan_at(&rendered_plan(), "ID", "noon");
    assert!(text.contains("ID (noon)"), "{text}");
    let text = render_record_at(&sample_record(), "ID", "noon");
    assert!(text.starts_with("commit ID (noon), 1 target(s), 1 reaped\n"), "{text}");
}

#[test]
fn an_operation_is_described_by_mode_source_and_target() {
    let op = PlannedOperation::render("a.tmpl", "/x/a", Disposition::Create);
    assert_eq!(describe(&op), ("template-render", Some("a.tmpl"), "/x/a"));
    assert_eq!(describe(&PlannedOperation::remove("/x/a")), ("remove", None, "/x/a"));
}

fn sample_record() -> ApplyRecord {
    ApplyRecord::new(
        LastApply {
            at: "2026-05-28T12:00:00Z".to_owned(),
            user: "u".to_owned(),
            host: "h".to_owned(),
        },
        vec![ExpectedTarget::Symlink {
            target: "/home/u/.zshrc".to_owned(),
            link_target: "/repo/zsh/zshrc".to_owned(),
            entry: 2,
            disposition: Disposition::Update,
        }],
        vec!["/home/u/.old".to_owned()],
    )
}

#[test]
fn render_record_lists_each_target_and_then_the_reaped_targets() {
    let text = render_record(&sample_record(), "20260528T120000Z");
    assert_eq!(
        text,
        "commit 20260528T120000Z (2026-05-28T12:00:00Z), 1 target(s), 1 reaped\n\
         applied by u on h\n\
         [0] symlink, update, entry 2\n    source: /repo/zsh/zshrc\n    target: /home/u/.zshrc\n\
         reaped:\n    /home/u/.old\n"
    );
}

#[test]
fn render_record_omits_the_reaped_block_when_nothing_was_reaped() {
    let mut record = sample_record();
    record.reaped.clear();
    let text = render_record(&record, "20260528T120000Z");
    assert!(!text.contains("reaped:"), "{text}");
}

/// The bytes at a path, or what stopped the reading.
fn read(path: &camino::Utf8Path) -> Result<Vec<u8>, String> {
    fs_err::read(path).map_err(|e| e.to_string())
}

#[test]
fn load_commit_file_round_trips_and_recovers_timestamp() {
    let dir = tempfile::tempdir().expect("tempdir");
    let dir = camino::Utf8Path::from_path(dir.path()).expect("utf8 tempdir");
    let path = dir.join("20260528T120000Z.COMMIT");
    fs_err::write(&path, sample_record().encode().expect("encode")).expect("write commit");

    let (record, ts) = load_commit_file(path.as_str(), read(&path)).expect("load");
    assert_eq!(record, sample_record());
    assert_eq!(ts, "20260528T120000Z");
}

#[test]
fn load_round_trips_through_encode_and_recovers_timestamp() {
    let dir = tempfile::tempdir().expect("tempdir");
    let dir = camino::Utf8Path::from_path(dir.path()).expect("utf8 tempdir");
    let path = dir.join("20260528T120000Z.plan");
    fs_err::write(&path, rendered_plan().encode().expect("encode")).expect("write plan");

    let (plan, ts) = load_plan_file(path.as_str(), read(&path)).expect("load");
    assert_eq!(plan, rendered_plan());
    assert_eq!(ts, "20260528T120000Z");
}

#[test]
fn load_missing_path_is_a_read_error_naming_the_path() {
    let path = camino::Utf8Path::new("/no/such/plan.plan");
    let err = load_plan_file(path.as_str(), read(path)).expect_err("missing path must error");
    assert!(
        matches!(&err, PlanRenderError::Read { path, .. } if path.as_str() == "/no/such/plan.plan"),
        "expected a Read error naming the path, got {err:?}"
    );
    assert_eq!(err.message(), "could not read journal file `/no/such/plan.plan`");
}

#[test]
fn load_newer_major_is_a_decode_version_mismatch() {
    let bytes = with_major(rendered_plan().encode().expect("encode"), FILE_MAJOR_VERSION + 1);
    let err = load_plan_file("/j/20260528T120000Z.plan", Ok(bytes)).expect_err("newer major");
    assert!(
        matches!(
            &err,
            PlanRenderError::Decode {
                source: JournalError::VersionMismatch { found, supported },
                ..
            } if *found == FILE_MAJOR_VERSION + 1 && *supported == FILE_MAJOR_VERSION
        ),
        "expected a Decode version-mismatch naming both majors, got {err:?}"
    );
}

#[test]
fn a_file_name_without_the_suffix_is_kept_whole() {
    assert_eq!(timestamp_from_path("/j/20260528T120000Z.plan", ".plan"), "20260528T120000Z");
    assert_eq!(timestamp_from_path("/j/notes.txt", ".plan"), "/j/notes.txt");
}

#[test]
fn envelopes_open_to_their_payload() {
    let bytes = version_envelope::encode_with_envelope(3, &[7, 8]);
    assert_eq!(bytes, [3, 0, 7, 8]);
    assert_eq!(version_envelope::decode_envelope(&bytes, 3), Ok([7u8, 8].as_slice()));
    assert!(version_envelope::decode_envelope(&bytes, 2).is_err());
    assert!(version_envelope::decode_envelope(&[3], 3).is_err());
}

#[test]
fn a_plan_file_of_another_name_shows_its_stem() {
    let bytes = rendered_plan().encode().expect("bytes");
    let (plan, id) = load_plan_file("/tmp/crash/journal-copy.bin", Ok(bytes)).expect("load");
    assert_eq!(plan, rendered_plan());
    assert_eq!(id, "journal-copy");
}
