//! The registry of remotes: durations, names and the checks of a table.

use patina_core::config::remote::derive_name;
use patina_core::config::remote::parse_duration;
use patina_core::config::remote::RawRemote;
use patina_core::config::remote::RemoteConfigError;
use patina_core::config::remote::RemoteName;


#[test]
fn each_unit_suffix_scales_correctly() {
    for (input, expected_secs) in [
        ("0s", 0),
        ("45s", 45),
        ("30m", 30 * 60),
        ("72h", 72 * 60 * 60),
        ("7d", 7 * 24 * 60 * 60),
    ] {
        let parsed = parse_duration("min_age", input).expect("valid duration");
        assert_eq!(
            parsed.as_secs(),
            expected_secs,
            "`{input}` must parse to {expected_secs}s"
        );
    }
}

#[test]
fn surrounding_whitespace_is_tolerated() {
    assert_eq!(
        parse_duration("min_age", "  72h ")
            .expect("padded duration")
            .as_secs(),
        72 * 60 * 60
    );
}

#[test]
fn malformed_durations_are_rejected() {
    for input in ["72", "72w", "1h30m", "1.5h", "-1h", "h", "", "72 h", "72H"] {
        let err =
            parse_duration("min_age", input).expect_err(&format!("`{input}` must be rejected"));
        assert!(
            matches!(
                err,
                RemoteConfigError::InvalidDuration { key: "min_age", .. }
            ),
            "`{input}` must fail as an invalid duration, got {err:?}"
        );
    }
}

#[test]
fn an_overflowing_duration_is_rejected_rather_than_wrapping() {
    let err = parse_duration("min_age", &format!("{}d", u64::MAX))
        .expect_err("an overflowing day count must be rejected");
    assert!(matches!(err, RemoteConfigError::InvalidDuration { .. }));
}

/// A raw table over the given url and ref, with no name and no `min_age`.
fn raw(url: &str, git_ref: Option<&str>) -> RawRemote {
    RawRemote {
        name: None,
        url: url.to_owned(),
        git_ref: git_ref.map(str::to_owned),
        min_age: None,
    }
}

#[test]
fn a_remote_table_needs_a_non_empty_url() {
    assert!(matches!(
        raw("   ", None).validate().expect_err("blank url"),
        RemoteConfigError::EmptyUrl
    ));
}

#[test]
fn a_url_beginning_with_a_dash_is_rejected() {
    assert!(matches!(
        raw("--upload-pack=touch /tmp/pwn", Some("main"))
            .validate()
            .expect_err("a dash-led url must be rejected"),
        RemoteConfigError::LeadingDash { key: "url", .. }
    ));
}

#[test]
fn a_ref_beginning_with_a_dash_is_rejected() {
    assert!(matches!(
        raw("https://example.invalid/r", Some("--output=/etc/cron.d/x"))
            .validate()
            .expect_err("a dash-led ref must be rejected"),
        RemoteConfigError::LeadingDash { key: "ref", .. }
    ));
}

#[test]
fn a_name_colliding_with_a_cache_metadata_file_is_rejected() {
    // `<state>/remotes/` holds the `notice`, `pending`, and `last_check`
    // files beside the per-remote directories, so a remote by any of those
    // names (in any case) would fight Patina's own metadata over one path.
    for name in ["notice", "pending", "last_check", "Notice", "PENDING"] {
        let err = RawRemote {
            name: Some(name.to_owned()),
            url: "https://example.invalid/r".to_owned(),
            git_ref: None,
            min_age: None,
        }
        .validate()
        .expect_err("a reserved name must be rejected");
        assert!(
            matches!(err, RemoteConfigError::ReservedName { .. }),
            "`{name}` must be reserved, got: {err:?}"
        );
    }
}

#[test]
fn a_reserved_name_derived_from_a_url_is_rejected() {
    raw("https://example.invalid/owner/notice", None)
        .validate()
        .expect_err("a derived reserved name must be rejected the same way");
}

#[test]
fn a_blank_ref_reads_as_the_default_branch() {
    // An author who writes `ref = ""` means "no opinion", not "a branch
    // whose name is the empty string": the latter would be handed to git
    // verbatim and fail obscurely later.
    let spec = raw("https://example.invalid/r", Some("  "))
        .validate()
        .expect("valid remote");
    assert_eq!(spec.git_ref, None);
}

#[test]
fn a_ref_is_stored_trimmed() {
    // The stored value reaches git as a bare argv element and is committed
    // to patina.lock, so padding is not merely cosmetic.
    let spec = raw("https://example.invalid/r", Some("  main\n"))
        .validate()
        .expect("valid remote");
    assert_eq!(spec.git_ref.as_deref(), Some("main"));
}

#[test]
fn a_name_is_taken_from_the_last_segment_of_every_url_spelling() {
    for url in [
        "https://github.com/blader/humanizer",
        "https://github.com/blader/humanizer.git",
        "https://github.com/blader/humanizer/",
        "git@github.com:blader/humanizer",
        "git@github.com:blader/humanizer.git",
        "git@github.com:humanizer.git",
        "ssh://git@github.com:22/blader/humanizer.git",
        "/srv/mirrors/humanizer.git",
        "C:\\mirrors\\humanizer",
    ] {
        assert_eq!(
            derive_name(url).expect("a name is derivable").as_str(),
            "humanizer",
            "`{url}` must name the remote `humanizer`"
        );
    }
}

#[test]
fn a_url_with_no_usable_last_segment_asks_for_an_explicit_name() {
    for url in [
        "https://example.invalid/repo?ref=main",
        "https://example.invalid/.git",
        "https://example.invalid/../",
        "https://example.invalid/\u{540d}\u{524d}",
    ] {
        let err = derive_name(url).expect_err("no legal name is takeable");
        assert!(
            matches!(err, RemoteConfigError::UnderivableName { .. }),
            "`{url}` must ask for an explicit name, got {err:?}"
        );
        assert!(
            err.message().contains("name = "),
            "the message must say which key to write, got: {err:?}"
        );
    }
}

#[test]
fn a_written_name_overrides_the_derived_one() {
    let spec = RawRemote {
        name: Some("  agents  ".to_owned()),
        ..raw("https://github.com/blader/humanizer.git", None)
    }
    .validate()
    .expect("valid remote");
    assert_eq!(spec.name.as_str(), "agents");
}

#[test]
fn identity_is_the_folded_key_while_display_keeps_the_authored_spelling() {
    // The whole point of the type: a map keyed by it cannot hold one remote
    // twice, yet a message still shows the name as its author wrote it.
    let written = RemoteName::parse("Humanizer").expect("a legal name");
    let respelled = RemoteName::parse("humanizer").expect("a legal name");

    assert_eq!(written, respelled, "a case-only respelling is one remote");
    assert_eq!(written.key(), respelled.key());
    assert_eq!(written.as_str(), "Humanizer", "the spelling is preserved");
    assert!(written.matches("HUMANIZER"), "a raw selector folds too");

    let hashed: std::collections::HashSet<RemoteName> =
        [written.clone(), respelled.clone()].into_iter().collect();
    assert_eq!(hashed.len(), 1, "two spellings must hash to one slot");

    let set: std::collections::BTreeSet<RemoteName> = [written, respelled].into_iter().collect();
    assert_eq!(set.len(), 1, "two spellings must occupy one slot");
}

#[test]
fn both_normal_forms_of_one_name_are_refused_together() {
    // `café` precomposed against `e` plus a combining acute. Both are
    // outside the legal alphabet; what must not happen is one being
    // accepted and the other not, which would make a manifest's legality
    // depend on the editor that saved it.
    RemoteName::parse("caf\u{e9}").expect_err("a precomposed non-ASCII name is refused");
    RemoteName::parse("cafe\u{301}").expect_err("its decomposed spelling is refused too");
}

#[test]
fn a_dos_device_name_is_refused_on_every_platform() {
    // These are devices rather than paths on Windows, with or without an
    // extension, so a manifest carrying one would apply on Linux and fail
    // on Windows.
    for name in [
        "con", "CON", "PRN", "aux", "NUL", "com1", "LPT9", "con.git", "nul.d",
    ] {
        let err = RemoteName::parse(name).expect_err("a device name must be refused");
        assert!(
            matches!(err, RemoteConfigError::NonPortableName { .. }),
            "`{name}` must be refused as non-portable, got {err:?}"
        );
    }
}

#[test]
fn a_name_windows_would_resolve_elsewhere_is_refused() {
    // Windows strips a trailing dot, so `notice.` would land on Patina's
    // own notice file and `humanizer.` on a directory of another name.
    for name in ["notice.", "humanizer.", "a.."] {
        let err = RemoteName::parse(name).expect_err("a trailing dot must be refused");
        assert!(
            matches!(err, RemoteConfigError::NonPortableName { .. }),
            "`{name}` must be refused as non-portable, got {err:?}"
        );
    }
}

#[test]
fn names_that_merely_contain_a_device_word_stay_legal() {
    // The rule is about the stem Windows resolves, not about the substring:
    // refusing these would reject ordinary repository names.
    for name in ["console", "com", "lpt", "my-con", "conf.d", "aux-tools"] {
        let parsed = RemoteName::parse(name);
        assert!(
            parsed.is_ok(),
            "`{name}` must stay legal, got: {:?}",
            parsed.err()
        );
    }
}

#[test]
fn a_written_name_that_could_escape_the_cache_is_rejected() {
    // The name becomes a directory under `<state>/remotes/`, so a separator
    // or a traversal component would steer a checkout out of the cache.
    for name in ["..", ".", "", "a/b", "a\\b", "a b", "sk!lls"] {
        let err = RawRemote {
            name: Some(name.to_owned()),
            ..raw("https://example.invalid/r", None)
        }
        .validate()
        .expect_err("an unusable name must be rejected");
        assert!(
            matches!(err, RemoteConfigError::IllegalName { .. }),
            "`{name}` must be refused as a name, got {err:?}"
        );
    }
}

#[test]
fn an_accepted_name_parses_again() {
    let name = RemoteName::parse("  My-Fonts ").expect("a legal name");
    assert_eq!(name.as_str(), "My-Fonts");
    let again = RemoteName::parse(name.as_str()).expect("a legal name");
    assert_eq!(again.as_str(), name.as_str());
    assert_eq!(again.key(), name.key());
}

#[test]
fn a_bare_host_suggests_no_name() {
    for url in ["https://github.com", "https://github.com/", "ssh://git@host:22", " http://h "] {
        assert_eq!(
            derive_name(url).expect_err("a host is no name"),
            RemoteConfigError::UnderivableName { url: url.trim().to_owned() }
        );
    }
    assert_eq!(derive_name("https://h/x").expect("a name").as_str(), "x");
    assert_eq!(derive_name("/srv//x").expect("a name").as_str(), "x");
    assert_eq!(derive_name("file:///srv/x").expect("a name").as_str(), "x");
}

#[test]
fn endings_leave_a_derived_name_as_it_is() {
    for url in ["https://h/a/x", "git@h:x", "x", "C:\\a\\x"] {
        for ending in ["", "/", ".git", ".git/"] {
            let spelled = format!(" {url}{ending} ");
            assert_eq!(derive_name(&spelled).expect("a name").as_str(), "x", "{spelled}");
        }
    }
}

#[test]
fn a_selector_goes_by_the_key() {
    let name = RemoteName::parse("Humanizer").expect("a name");
    assert!(name.matches("HUMANIZER"));
    assert!(name.matches("humanizer"));
    assert!(!name.matches(" humanizer"));
    assert!(!name.matches("h\u{fc}manizer"));
    assert!(!name.matches("\u{fc} x"));
    let other = RemoteName::parse("Notes").expect("a name");
    assert!(name < other);
    assert!(!(other < name));
    assert!(RemoteName::parse("HUMANIZER").expect("a name") <= name);
}

#[test]
fn names_compare_as_their_keys_do() {
    let names = ["b", "A", "a-b", "a.b", "B2", "a"].map(|n| RemoteName::parse(n).expect("a name"));
    for x in &names {
        for y in &names {
            assert_eq!(x.cmp(y), x.key().cmp(y.key()));
            assert_eq!(x.partial_cmp(y), Some(x.cmp(y)));
            assert_eq!(x == y, x.key() == y.key());
        }
    }
}
