//! How a target relates to what would be written to it.

use patina_core::apply::classify::classify_leaf;
use patina_core::apply::classify::ClassifyError;
use patina_core::config::FileMode;
use patina_core::journal::content_hash;
use patina_core::journal::Disposition;
use patina_core::journal::ExpectedTarget;
use patina_core::status::classify as classify_status;
use patina_core::status::LiveTarget;
use patina_core::status::TargetState;

/// Nothing.
fn absent() -> LiveTarget {
    LiveTarget {
        present: false,
        link: None,
        content: None,
    }
}

/// A symbolic link to a file with the given bytes.
fn link(to: &str, bytes: &[u8]) -> LiveTarget {
    LiveTarget {
        present: true,
        link: Some(to.to_owned()),
        content: Some(bytes.to_vec()),
    }
}

/// A regular file with the given bytes.
fn file(bytes: &[u8]) -> LiveTarget {
    LiveTarget {
        present: true,
        link: None,
        content: Some(bytes.to_vec()),
    }
}

fn leaf(
    mode: FileMode,
    source: &str,
    live: &LiveTarget,
    source_bytes: &[u8],
    rendered: Option<&[u8]>,
) -> Disposition {
    classify_leaf(
        mode,
        source,
        live,
        &Ok(source_bytes.to_vec()),
        &rendered.map(<[u8]>::to_vec),
    )
    .expect("classify")
}

#[test]
fn symlink_pointing_at_source_is_unchanged() {
    let live = link("/d/src", b"payload");
    assert_eq!(
        leaf(FileMode::Symlink, "/d/src", &live, b"payload", None),
        Disposition::Unchanged
    );
}

#[test]
fn symlink_pointing_elsewhere_is_update() {
    let live = link("/d/other", b"other");
    assert_eq!(
        leaf(FileMode::Symlink, "/d/src", &live, b"payload", None),
        Disposition::Update
    );
}

#[test]
fn symlink_target_absent_is_create() {
    assert_eq!(
        leaf(FileMode::Symlink, "/d/src", &absent(), b"payload", None),
        Disposition::Create
    );
}

#[test]
fn symlink_target_is_regular_file_is_update() {
    // A regular file where a symlink is desired is present-but-not-a-link:
    // Update, not Unchanged.
    assert_eq!(
        leaf(FileMode::Symlink, "/d/src", &file(b"payload"), b"payload", None),
        Disposition::Update
    );
}

#[test]
fn copy_matching_bytes_is_unchanged() {
    assert_eq!(
        leaf(FileMode::Copy, "/d/src", &file(b"identical"), b"identical", None),
        Disposition::Unchanged
    );
}

#[test]
fn copy_differing_bytes_is_update() {
    assert_eq!(
        leaf(FileMode::Copy, "/d/src", &file(b"old"), b"new", None),
        Disposition::Update
    );
}

#[test]
fn copy_target_absent_is_create() {
    assert_eq!(
        leaf(FileMode::Copy, "/d/src", &absent(), b"bytes", None),
        Disposition::Create
    );
}

#[test]
fn copy_tree_leaf_classifies_like_copy() {
    // A copy-tree leaf is a single regular-file comparison, identical to copy.
    // One leaf matching, one differing.
    assert_eq!(
        leaf(FileMode::CopyTree, "/d/s_clean", &file(b"same"), b"same", None),
        Disposition::Unchanged
    );
    assert_eq!(
        leaf(FileMode::CopyTree, "/d/s_drift", &file(b"old"), b"new", None),
        Disposition::Update
    );
}

#[test]
fn copy_unreadable_source_surfaces_io_error() {
    // The target is present (so we pass the Create short-circuit) but the source
    // cannot be read: the classifier surfaces the typed error rather than
    // mis-classifying.
    let err = classify_leaf(
        FileMode::Copy,
        "/d/does-not-exist",
        &file(b"present"),
        &Err("No such file or directory".to_owned()),
        &None,
    )
    .expect_err("missing source must error");
    assert!(matches!(err, ClassifyError::Io { .. }));
    assert_eq!(
        err.message(),
        "failed to read source /d/does-not-exist for classification: No such file or directory"
    );
}

#[test]
fn template_matching_rendered_output_is_unchanged() {
    let rendered = b"name = kevin";
    assert_eq!(
        leaf(
            FileMode::TemplateRender,
            "/d/conf.tmpl",
            &file(rendered),
            b"",
            Some(rendered)
        ),
        Disposition::Unchanged
    );
}

#[test]
fn template_differing_output_is_update() {
    assert_eq!(
        leaf(
            FileMode::TemplateRender,
            "/d/conf.tmpl",
            &file(b"name = old"),
            b"",
            Some(b"name = new")
        ),
        Disposition::Update
    );
}

#[test]
fn template_target_absent_is_create() {
    assert_eq!(
        leaf(
            FileMode::TemplateRender,
            "/d/conf.tmpl",
            &absent(),
            b"",
            Some(b"rendered")
        ),
        Disposition::Create
    );
}

#[test]
fn state_status_calls_clean_classifies_unchanged_symlink() {
    // Drive both the status and the plan-time classifier on the exact same live
    // symlink state and assert they agree: Clean <=> Unchanged.
    let live = link("/d/src", b"payload");
    let expected = ExpectedTarget::Symlink {
        target: "/d/link".to_owned(),
        link_target: "/d/src".to_owned(),
        entry: 0,
        disposition: Disposition::Create,
    };
    assert_eq!(classify_status(&expected, true, &live), TargetState::Clean);
    assert_eq!(
        leaf(FileMode::Symlink, "/d/src", &live, b"payload", None),
        Disposition::Unchanged
    );
}

#[test]
fn state_status_calls_clean_classifies_unchanged_content() {
    // Same tie for the content comparison (copy/template share the seam).
    let live = file(b"identical");
    let expected = ExpectedTarget::Content {
        target: "/d/dst".to_owned(),
        source: "/d/src".to_owned(),
        hash: content_hash(b"identical"),
        entry: 0,
        disposition: Disposition::Update,
    };
    assert_eq!(classify_status(&expected, true, &live), TargetState::Clean);
    assert_eq!(
        leaf(FileMode::Copy, "/d/src", &live, b"identical", None),
        Disposition::Unchanged
    );
}

#[test]
fn status_tells_drift_absence_and_orphans_apart() {
    let expected = ExpectedTarget::Content {
        target: "/d/dst".to_owned(),
        source: "/d/src".to_owned(),
        hash: content_hash(b"identical"),
        entry: 0,
        disposition: Disposition::Update,
    };
    assert_eq!(
        classify_status(&expected, true, &file(b"edited")),
        TargetState::Drifted
    );
    assert_eq!(
        classify_status(&expected, true, &absent()),
        TargetState::Missing
    );
    assert_eq!(
        classify_status(&expected, false, &file(b"identical")),
        TargetState::Orphaned
    );
}
