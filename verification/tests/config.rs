//! Manifests: what they declare, what is refused, and how they are edited.

use camino::Utf8Path;
use camino::Utf8PathBuf;
use patina_core::config::append_file_entry;
use patina_core::config::file_entry::first_control_character;
use patina_core::config::file_entry::has_tmpl_suffix;
use patina_core::config::file_entry::TemplatePolicy;
use patina_core::config::remove_file_entry;
use patina_core::config::scaffold_root_manifest;
use patina_core::config::ConfigParseError;
use patina_core::config::ConfigWriteError;
use patina_core::config::EntryKind;
use patina_core::config::FileEntryError;
use patina_core::config::FileMode;
use patina_core::config::HookEntryError;
use patina_core::config::HookEvent;
use patina_core::config::ManagedEntry;
use patina_core::config::ModuleConfig;
use patina_core::config::ProfileVariables;
use patina_core::config::RawEntry;
use patina_core::config::RawHookEntry;
use patina_core::config::RawModule;
use patina_core::config::RawProfile;
use patina_core::config::RawRoot;
use patina_core::config::RootConfig;
use patina_core::config::RootConfigError;
use patina_core::variables::reject_reserved_keys;
use patina_core::variables::table_to_layer;
use patina_core::variables::Variable;
use patina_core::variables::VariableError;
use patina_core::variables::VariableValue;
use tempfile::TempDir;

fn text_at(table: &toml::Table, key: &str) -> Option<String> {
    table.get(key).and_then(toml::Value::as_str).map(str::to_owned)
}

fn texts_at(table: &toml::Table, key: &str) -> Option<Vec<String>> {
    let array = table.get(key)?.as_array()?;
    Some(array.iter().filter_map(toml::Value::as_str).map(str::to_owned).collect())
}

fn tables_at(table: &toml::Table, key: &str) -> Vec<toml::Table> {
    match table.get(key).and_then(toml::Value::as_array) {
        Some(array) => array.iter().filter_map(toml::Value::as_table).cloned().collect(),
        None => Vec::new(),
    }
}

fn variables_of(table: &toml::Table) -> Vec<Variable> {
    table
        .iter()
        .map(|(key, value)| Variable {
            key: key.clone(),
            value: match value.as_str() {
                Some(text) => VariableValue::Text { text: text.to_owned() },
                None => VariableValue::Other,
            },
        })
        .collect()
}

fn variables_at(table: &toml::Table, key: &str) -> Option<Vec<Variable>> {
    table.get(key).and_then(toml::Value::as_table).map(variables_of)
}

fn entry_of(table: &toml::Table) -> RawEntry {
    RawEntry {
        source: text_at(table, "source").expect("source"),
        target: text_at(table, "target"),
        targets: texts_at(table, "targets"),
        mode: text_at(table, "mode"),
        when: text_at(table, "when"),
        remote: text_at(table, "remote"),
        ignore: texts_at(table, "ignore").unwrap_or_default(),
    }
}

fn hook_of(table: &toml::Table) -> RawHookEntry {
    RawHookEntry {
        event: text_at(table, "event").expect("event"),
        command: text_at(table, "command").expect("command"),
        shell: text_at(table, "shell"),
        when: text_at(table, "when"),
        must_succeed: table.get("must_succeed").and_then(toml::Value::as_bool),
    }
}

fn parse_module_config_str(text: &str) -> Result<ModuleConfig, ConfigParseError> {
    let table: toml::Table = toml::from_str(text).expect("TOML");
    ModuleConfig::from_raw(RawModule {
        variables: variables_at(&table, "variables"),
        file: tables_at(&table, "file").iter().map(entry_of).collect(),
        directory: tables_at(&table, "directory").iter().map(entry_of).collect(),
        hook: tables_at(&table, "hook").iter().map(hook_of).collect(),
    })
}

fn raw_root(table: &toml::Table) -> RawRoot {
    let profiles = match table.get("profiles").and_then(toml::Value::as_table) {
        Some(profiles) => profiles
            .iter()
            .map(|(name, profile)| RawProfile {
                name: name.clone(),
                variables: profile.as_table().and_then(|t| variables_at(t, "variables")),
            })
            .collect(),
        None => Vec::new(),
    };
    RawRoot { variables: variables_at(table, "variables"), profiles }
}

fn parse_root_config_str(text: &str) -> Result<RootConfig, RootConfigError> {
    RootConfig::from_raw(raw_root(&toml::from_str(text).expect("TOML")))
}

/// Reads a root manifest, which may be missing.
fn parse_root_config(path: &Utf8Path) -> Result<RootConfig, RootConfigError> {
    let Ok(text) = fs_err::read_to_string(path) else {
        return Ok(RootConfig::empty());
    };
    match toml::from_str::<toml::Table>(&text) {
        Ok(table) => RootConfig::from_raw(raw_root(&table)),
        Err(e) => {
            Err(RootConfigError::Toml { path: path.as_str().to_owned(), message: e.to_string() })
        }
    }
}

fn value_of<'a>(table: &'a [Variable], key: &str) -> Option<&'a str> {
    table.iter().find(|variable| variable.key == key).and_then(|variable| match &variable.value {
        VariableValue::Text { text } => Some(text.as_str()),
        VariableValue::Other => None,
    })
}

fn profile<'a>(config: &'a RootConfig, name: &str) -> Option<&'a ProfileVariables> {
    config.per_profile.iter().find(|profile| profile.name == name)
}

#[test]
fn reads_root_repo_shared_variables() {
    let config =
        parse_root_config_str("[variables]\neditor = \"nvim\"\n").expect("root variables parse");
    assert_eq!(value_of(&config.repo_shared, "editor"), Some("nvim"));
    assert!(config.per_profile.is_empty());
}

#[test]
fn reads_per_profile_variables_keyed_by_name() {
    let config = parse_root_config_str("[profiles.work.variables]\neditor = \"code\"\n")
        .expect("profile variables parse");
    let work = profile(&config, "work").expect("work profile present");
    assert_eq!(value_of(&work.table, "editor"), Some("code"));
    assert!(config.repo_shared.is_empty());
}

#[test]
fn reads_both_repo_shared_and_per_profile_together() {
    let text = "[variables]\neditor = \"nvim\"\n\n\
         [profiles.work.variables]\neditor = \"code\"\n";
    let config = parse_root_config_str(text).expect("combined parse");
    assert_eq!(value_of(&config.repo_shared, "editor"), Some("nvim"));
    let work = profile(&config, "work").expect("work profile present");
    assert_eq!(value_of(&work.table, "editor"), Some("code"));
}

#[test]
fn rejects_reserved_key_in_repo_shared_table() {
    let err = parse_root_config_str("[variables]\n\"patina.os\" = \"linux\"\n")
        .expect_err("reserved key in repo-shared must be rejected");
    assert!(matches!(
        err,
        RootConfigError::Variable(VariableError::ReservedKey { ref key }) if key == "patina.os"
    ));
}

#[test]
fn rejects_reserved_key_in_per_profile_table() {
    let err = parse_root_config_str("[profiles.work.variables]\n\"patina.os\" = \"linux\"\n")
        .expect_err("reserved key in per-profile must be rejected");
    assert!(matches!(
        err,
        RootConfigError::Variable(VariableError::ReservedKey { ref key }) if key == "patina.os"
    ));
}

#[test]
fn absent_sections_yield_empty_results() {
    let config = parse_root_config_str("[patina]\nname = \"dots\"\n")
        .expect("manifest with no variable tables parses");
    assert!(config.repo_shared.is_empty());
    assert!(config.per_profile.is_empty());
}

#[test]
fn a_profile_without_a_variables_table_yields_an_empty_table() {
    let config = parse_root_config_str("[profiles.work]\n").expect("bare profile parses");
    let work = profile(&config, "work").expect("work profile registered");
    assert!(work.table.is_empty());
}

fn manifest_path(dir: &TempDir) -> Utf8PathBuf {
    Utf8PathBuf::from_path_buf(dir.path().join("patina.toml")).expect("utf8 tempdir path")
}

#[test]
fn missing_manifest_file_yields_empty_results() {
    let dir = TempDir::new().expect("tempdir");
    let config = parse_root_config(&manifest_path(&dir)).expect("missing manifest is empty");
    assert!(config.repo_shared.is_empty());
    assert!(config.per_profile.is_empty());
}

#[test]
fn reads_variables_from_an_on_disk_manifest() {
    let dir = TempDir::new().expect("tempdir");
    let path = manifest_path(&dir);
    fs_err::write(&path, "[variables]\neditor = \"nvim\"\n").expect("write root manifest");
    let config = parse_root_config(&path).expect("on-disk manifest parses");
    assert_eq!(value_of(&config.repo_shared, "editor"), Some("nvim"));
}

#[test]
fn malformed_toml_is_a_typed_error_naming_the_path() {
    let dir = TempDir::new().expect("tempdir");
    let path = manifest_path(&dir);
    fs_err::write(&path, "[variables\n").expect("write malformed manifest");
    let err = parse_root_config(&path).expect_err("malformed TOML must error");
    assert!(matches!(
        &err,
        RootConfigError::Toml { path: errored, .. } if *errored == path.as_str()
    ));
    assert!(err.message().contains(path.as_str()));
}

#[test]
fn only_texts_reach_a_layer() {
    let table: toml::Table =
        toml::from_str("editor = \"vim\"\nwidth = 80\nshell = \"zsh\"\n").expect("TOML");
    let variables = variables_of(&table);
    assert_eq!(reject_reserved_keys(&variables), Ok(()));
    let mut layer = table_to_layer(&variables);
    layer.sort();
    assert_eq!(
        layer,
        [("editor".to_owned(), "vim".to_owned()), ("shell".to_owned(), "zsh".to_owned())]
    );
}

#[test]
fn remove_file_entry_preserves_siblings_hook_variables_and_comments() {
    let text = "\
[[file]]
source = \"zshrc\"
target = \"~/.zshrc\"
mode = \"symlink\"

# hand-written comment
[[file]]
source = \"vimrc\"
target = \"~/.vimrc\"
mode = \"copy\"

[[hook]]
event = \"pre_apply\"
command = \"echo hi\"

[variables]
editor = \"vim\"
";

    let pruned = remove_file_entry(text, "~/.zshrc").expect("removal succeeds");

    let config = parse_module_config_str(&pruned).expect("pruned text parses");
    assert_eq!(config.files.len(), 1, "only ~/.vimrc remains");
    let survivor = config.files.first().expect("one entry remains");
    assert_eq!(survivor.targets, vec!["~/.vimrc"]);
    assert_eq!(config.hooks.len(), 1, "the [[hook]] survives");
    assert!(config.variables.is_some(), "the [variables] table survives");
    assert!(pruned.contains("# hand-written comment"), "comment must be preserved verbatim");
    assert!(!pruned.contains("~/.zshrc"), "no [[file]] entry for the removed target remains");
}

#[test]
fn append_file_entry_into_empty_text_round_trips_through_parser() {
    let text =
        append_file_entry("", "zshrc", "~/.zshrc", FileMode::Symlink).expect("append succeeds");

    let config = parse_module_config_str(&text).expect("appended text parses");
    assert_eq!(config.files.len(), 1);
    let entry = config.files.first().expect("one entry present");
    assert_eq!(entry.source, "zshrc");
    assert_eq!(entry.targets, vec!["~/.zshrc"]);
    assert_eq!(entry.mode, FileMode::Symlink);
}

#[test]
fn scaffold_root_manifest_emits_root_marker_and_timestamp() {
    let text = scaffold_root_manifest("2026-05-30T12:00:00Z");

    let parsed: toml::Table = toml::from_str(&text).expect("scaffold parses as TOML");
    let patina = parsed
        .get("patina")
        .and_then(toml::Value::as_table)
        .expect("[patina] table present");
    assert_eq!(patina.get("root").and_then(toml::Value::as_bool), Some(true));
    assert_eq!(
        patina.get("created_at").and_then(toml::Value::as_str),
        Some("2026-05-30T12:00:00Z")
    );
}

#[test]
fn append_each_mode_uses_the_parser_accepted_spelling() {
    for (mode, spelling) in [
        (FileMode::Symlink, "symlink"),
        (FileMode::SymlinkDir, "symlink-dir"),
        (FileMode::Copy, "copy"),
        (FileMode::CopyTree, "copy-tree"),
    ] {
        let text = append_file_entry("", "src", "~/.dst", mode).expect("append succeeds");
        assert!(
            text.contains(&format!("mode = \"{spelling}\"")),
            "mode {mode:?} should serialize as `{spelling}`, got:\n{text}"
        );
    }
}

#[test]
fn append_template_render_omits_mode_key() {
    let text =
        append_file_entry("", "dot.tmpl", "~/.dot", FileMode::TemplateRender).expect("appends");
    assert!(!text.contains("mode ="), "TemplateRender must not emit a mode key, got:\n{text}");
}

#[test]
fn remove_file_entry_errors_when_no_entry_matches() {
    let text = append_file_entry("", "zshrc", "~/.zshrc", FileMode::Symlink).expect("appends");
    let err = remove_file_entry(&text, "~/.nope").expect_err("missing target errors");
    assert!(matches!(&err, ConfigWriteError::EntryNotFound { target } if target == "~/.nope"));
}

#[test]
fn append_to_malformed_text_surfaces_a_parse_error() {
    let err = append_file_entry("not = = toml", "s", "t", FileMode::Symlink)
        .expect_err("malformed text errors");
    assert!(matches!(err, ConfigWriteError::Parse { .. }));
    let err = remove_file_entry("not = = toml", "t").expect_err("malformed text errors");
    assert!(matches!(err, ConfigWriteError::Parse { .. }));
}

#[test]
fn append_does_not_displace_a_file_key_of_another_kind() {
    assert_eq!(
        append_file_entry("file = 3\n", "s", "t", FileMode::Symlink),
        Err(ConfigWriteError::MalformedFileArray)
    );
}

#[test]
fn removing_takes_back_what_was_appended() {
    let start = append_file_entry("", "a", "~/.a", FileMode::Copy).expect("appends");
    let grown = append_file_entry(&start, "b", "~/.b", FileMode::Symlink).expect("appends");
    assert_eq!(parse_module_config_str(&grown).expect("parses").files.len(), 2);
    let back = remove_file_entry(&grown, "~/.b").expect("removes");
    assert_eq!(parse_module_config_str(&back), parse_module_config_str(&start));
}

#[test]
fn the_first_entry_of_a_target_is_the_one_removed() {
    let text = "[[file]]\nsource = \"a\"\ntarget = \"~/.x\"\n\
         [[file]]\nsource = \"b\"\ntarget = \"~/.x\"\n";
    let pruned = remove_file_entry(text, "~/.x").expect("removes");
    let config = parse_module_config_str(&pruned).expect("parses");
    assert_eq!(config.files.len(), 1);
    assert_eq!(config.files[0].source, "b");
}

fn raw(source: &str, target: &str) -> RawEntry {
    RawEntry {
        source: source.to_owned(),
        target: Some(target.to_owned()),
        targets: None,
        mode: None,
        when: None,
        remote: None,
        ignore: Vec::new(),
    }
}

fn with_mode(source: &str, mode: &str) -> RawEntry {
    RawEntry { mode: Some(mode.to_owned()), ..raw(source, "~/.x") }
}

fn file(entry: RawEntry) -> Result<ManagedEntry, FileEntryError> {
    ManagedEntry::from_raw_file(entry)
}

fn directory(entry: RawEntry) -> Result<ManagedEntry, FileEntryError> {
    ManagedEntry::from_raw_directory(entry)
}

#[test]
fn a_file_is_a_link_unless_it_says_otherwise() {
    let entry = file(raw("zshrc", "~/.zshrc")).expect("legal");
    assert_eq!(entry.kind, EntryKind::File);
    assert_eq!(entry.mode, FileMode::Symlink);
    assert_eq!(entry.targets, ["~/.zshrc"]);
    assert_eq!(file(with_mode("zshrc", "copy")).expect("legal").mode, FileMode::Copy);
    assert_eq!(file(raw("a.tmpl", "~/.a")).expect("legal").mode, FileMode::TemplateRender);
    assert_eq!(file(raw("a.TMPL", "~/.a")).expect("legal").mode, FileMode::TemplateRender);
}

#[test]
fn a_directory_takes_its_three_modes() {
    let mode = |word: &str| directory(with_mode("d", word)).expect("legal").mode;
    assert_eq!(mode("symlink"), FileMode::SymlinkDir);
    assert_eq!(mode("symlink-tree"), FileMode::SymlinkTree);
    assert_eq!(mode("copy"), FileMode::CopyTree);
    assert_eq!(directory(raw("d", "~/.d")).expect("legal").kind, EntryKind::Directory);
}

#[test]
fn an_entry_has_exactly_one_way_to_name_its_targets() {
    let both = RawEntry { targets: Some(vec!["~/.y".to_owned()]), ..raw("a", "~/.x") };
    assert_eq!(file(both), Err(FileEntryError::TargetAndTargets));
    let none = RawEntry { target: None, ..raw("a", "~/.x") };
    assert_eq!(file(none), Err(FileEntryError::TargetMissing));
    let empty = RawEntry { target: None, targets: Some(Vec::new()), ..raw("a", "~/.x") };
    assert_eq!(file(empty), Err(FileEntryError::TargetsEmpty));
    let two = RawEntry {
        target: None,
        targets: Some(vec!["~/.x".to_owned(), "~/.y".to_owned()]),
        ..raw("a", "~/.x")
    };
    assert_eq!(file(two).expect("legal").targets, ["~/.x", "~/.y"]);
}

#[test]
fn control_characters_are_refused_and_spelled_out() {
    let err = file(raw("a", "~/.x\ny")).expect_err("a line break");
    assert_eq!(
        err,
        FileEntryError::TargetControlCharacter { target: "~/.x\ny".to_owned(), codepoint: 10 }
    );
    assert_eq!(
        err.message(),
        "target `~/.x\\ny` contains the control character U+000A; \
         a target path must not contain an ASCII control character"
    );
    assert_eq!(
        file(raw("a\tb", "~/.x")),
        Err(FileEntryError::SourceControlCharacter {
            source_path: "a\tb".to_owned(),
            codepoint: 9
        })
    );
    assert_eq!(first_control_character("plain"), None);
    assert_eq!(first_control_character("del\u{7f}"), Some(0x7f));
}

#[test]
fn unknown_modes_are_refused_by_kind() {
    assert_eq!(
        file(with_mode("a", "hardlink")),
        Err(FileEntryError::UnsupportedFileMode { value: "hardlink".to_owned() })
    );
    assert_eq!(
        directory(with_mode("a", "hardlink")),
        Err(FileEntryError::UnsupportedDirectoryMode { value: "hardlink".to_owned() })
    );
    assert_eq!(
        FileEntryError::UnsupportedFileMode { value: "hardlink".to_owned() }.message(),
        "[[file]] entry declares unsupported mode `hardlink`; \
         the accepted `[[file]]` modes are `symlink`, `copy`"
    );
}

#[test]
fn a_template_declares_no_mode_and_is_no_directory() {
    assert_eq!(
        file(with_mode("a.tmpl", "copy")),
        Err(FileEntryError::ImplicitTemplateModeDeclared {
            source_path: "a.tmpl".to_owned(),
            mode: "copy".to_owned()
        })
    );
    assert_eq!(
        directory(raw("a.tmpl", "~/.a")),
        Err(FileEntryError::DirectoryTemplateSource { source_path: "a.tmpl".to_owned() })
    );
    assert!(has_tmpl_suffix("dir/a.tmpl"));
    assert!(!has_tmpl_suffix(".tmpl"));
    assert_eq!(TemplatePolicy::for_source(None), TemplatePolicy::Implicit);
    assert_eq!(TemplatePolicy::for_source(Some("fonts")), TemplatePolicy::Never);
}

#[test]
fn ignore_needs_a_walk_of_the_tree() {
    let ignoring = |entry: RawEntry| RawEntry { ignore: vec!["*.log".to_owned()], ..entry };
    assert_eq!(
        file(ignoring(raw("a", "~/.a"))),
        Err(FileEntryError::FileIgnoreDeclared { source_path: "a".to_owned() })
    );
    assert_eq!(
        directory(ignoring(with_mode("d", "symlink"))),
        Err(FileEntryError::DirectorySymlinkIgnoreDeclared { source_path: "d".to_owned() })
    );
    let tree = directory(ignoring(with_mode("d", "symlink-tree"))).expect("legal");
    assert_eq!(tree.ignore, ["*.log"]);
}

#[test]
fn a_blank_remote_is_refused() {
    let blank = RawEntry { remote: Some("  ".to_owned()), ..raw("a", "~/.a") };
    assert_eq!(file(blank), Err(FileEntryError::EmptyRemote { source_path: "a".to_owned() }));
    let named = RawEntry { remote: Some("fonts".to_owned()), ..raw("a.tmpl", "~/.a") };
    let entry = file(named).expect("legal");
    assert_eq!(entry.remote.as_deref(), Some("fonts"));
    assert_eq!(entry.mode, FileMode::Symlink);
}

#[test]
fn a_hook_runs_on_one_of_two_events() {
    let config = parse_module_config_str(
        "[[hook]]\nevent = \"post_apply\"\ncommand = \"make\"\nmust_succeed = false\n",
    )
    .expect("legal");
    assert_eq!(config.hooks[0].event, HookEvent::PostApply);
    assert!(!config.hooks[0].must_succeed);
    assert_eq!(
        parse_module_config_str("[[hook]]\nevent = \"later\"\ncommand = \"make\"\n"),
        Err(ConfigParseError::HookEntry(HookEntryError::UnsupportedEvent {
            value: "later".to_owned()
        }))
    );
}

#[test]
fn a_module_is_refused_for_its_first_bad_entry() {
    let text = "[[file]]\nsource = \"a\"\ntarget = \"~/.a\"\n\
         [[file]]\nsource = \"b\"\n\
         [[hook]]\nevent = \"later\"\ncommand = \"make\"\n";
    assert_eq!(
        parse_module_config_str(text),
        Err(ConfigParseError::FileEntry(FileEntryError::TargetMissing))
    );
}

const HAND_WRITTEN: &str = "\
# the module
[variables]  # of all entries
zeta   = 3
alpha  = [ 1, 2, # two
  3 ]
when   = 1979-05-27

[[file]] # first
source = 'zshrc'
target = \"~/.zshrc\"

[file.extra]
deep = { a = 1, b = 'x' }

# before the hook
[[hook]]
event = \"pre_apply\"
# the end
";

#[test]
fn appending_puts_one_piece_into_the_text() {
    let text = append_file_entry(HAND_WRITTEN, "vimrc", "~/.vimrc", FileMode::Copy).expect("appends");
    let piece = "\n[[file]]\nsource = \"vimrc\"\ntarget = \"~/.vimrc\"\nmode = \"copy\"\n";
    let at = HAND_WRITTEN.find("\n# before the hook").expect("a place");
    assert_eq!(text, format!("{}{piece}{}", &HAND_WRITTEN[..at], &HAND_WRITTEN[at..]));
    assert_eq!(remove_file_entry(&text, "~/.vimrc").expect("removes"), HAND_WRITTEN);
}

#[test]
fn removing_takes_one_piece_out_of_the_text() {
    let text = "a = 1\n\n# mine\n[[file]]\ntarget = \"x\"\n\n# kept\n[[file]]\ntarget = \"y\"\n# end\n";
    assert_eq!(
        remove_file_entry(text, "x").expect("removes"),
        "a = 1\n\n# kept\n[[file]]\ntarget = \"y\"\n# end\n"
    );
}

#[test]
fn an_entry_may_land_between_headers_that_are_out_of_order() {
    let text = "[[file]]\n[file.a.x]\n[file.b]\n[file.a.y]\n";
    let grown = append_file_entry(text, "s", "t", FileMode::Symlink).expect("appends");
    let piece = "\n[[file]]\nsource = \"s\"\ntarget = \"t\"\nmode = \"symlink\"\n";
    assert_eq!(grown.replacen(piece, "", 1), text);
    assert!(grown.find(piece) < grown.find("[file.a.y]"));
}

#[test]
fn profiles_stand_in_the_order_of_their_names() {
    let raw = |name: &str, key: &str| RawProfile {
        name: name.to_owned(),
        variables: Some(vec![Variable { key: key.to_owned(), value: VariableValue::Other }]),
    };
    let config = RootConfig::from_raw(RawRoot {
        variables: None,
        profiles: vec![raw("work", "a"), raw("home", "b"), raw("work", "c")],
    })
    .expect("a root");
    let names: Vec<&str> = config.per_profile.iter().map(|p| p.name.as_str()).collect();
    assert_eq!(names, ["home", "work"]);
    assert_eq!(config.per_profile[1].table[0].key, "c");

    let err = RootConfig::from_raw(RawRoot {
        variables: None,
        profiles: vec![raw("work", "patina.os"), raw("home", "patina.home")],
    })
    .expect_err("built in");
    assert!(matches!(
        err,
        RootConfigError::Variable(VariableError::ReservedKey { ref key }) if key == "patina.home"
    ));
}

#[test]
fn the_piece_that_comes_in_is_the_new_table() {
    let text = "[[ \"file\" ]]\n[file.a.x]\n[file.b]\n[file.a.y]\n";
    let grown = append_file_entry(text, "s", "t", FileMode::Symlink).expect("appends");
    let piece = "\n[[ \"file\" ]]\nsource = \"s\"\ntarget = \"t\"\nmode = \"symlink\"\n";
    assert_eq!(grown.replacen(piece, "", 1), text);
    let alone: toml::Table = toml::from_str(piece).expect("a document");
    let expected = append_file_entry("", "s", "t", FileMode::Symlink).expect("appends");
    assert_eq!(alone, toml::from_str::<toml::Table>(&expected).expect("a document"));
}
