//! What manifests may declare, and what it comes to.

use crate::config::ConfigParseError;
use crate::config::EntryKind;
use crate::config::FileEntryError;
use crate::config::FileMode;
use crate::config::HookEntry;
use crate::config::HookEntryError;
use crate::config::HookEvent;
use crate::config::ManagedEntry;
use crate::config::ModuleConfig;
use crate::config::RawEntry;
use crate::config::RawHookEntry;
use crate::config::RawModule;
use crate::config::RawProfile;
use crate::config::RawRoot;
use crate::config::RootConfig;
use crate::config::RootConfigError;
use crate::config::document::Field;
use crate::config::file_entry::control_fault;
use crate::config::file_entry::first_control;
use crate::config::file_entry::has_tmpl_suffix;
use crate::config::module::declared;
use crate::config::module::declared_all;
use crate::config::module::declared_hook;
use crate::config::module::declared_hooks;
use crate::config::module::entry_models;
use crate::config::module::hook_models;
use crate::config::root::by_name;
use crate::config::root::given_table;
use crate::config::root::reserved_in_profiles;
use crate::config::writer::entry_fields;
use crate::config::writer::mode_manifest_str;
use crate::config::writer::root_fields;
use crate::text::trimmed;
use crate::text::views;
use crate::variables::Variable;
use crate::variables::VariableError;
use crate::variables::VariableValue;
use crate::variables::first_reserved;
use crate::variables::layer_of;
use crate::variables::pair_views;
use crate::variables::reject_reserved_keys;
use crate::variables::table_keys;
use crate::variables::table_to_layer;
use vstd::prelude::*;

verus! {

/// Whether a text holds an ASCII control character.
pub open spec fn has_control(text: Seq<char>) -> bool {
    exists|i: int| 0 <= i < text.len() && ((#[trigger] text[i] as int) < 32 || text[i] as int == 127)
}

proof fn controls_are_found(text: Seq<char>)
    ensures
        first_control(text) is Some <==> has_control(text),
    decreases text.len(),
{
    if text.len() > 0 {
        let rest = text.drop_first();
        controls_are_found(rest);
        if has_control(rest) {
            let i = choose|i: int|
                0 <= i < rest.len() && ((#[trigger] rest[i] as int) < 32 || rest[i] as int == 127);
            assert(text[i + 1] == rest[i]);
        }
        if has_control(text) {
            let i = choose|i: int|
                0 <= i < text.len() && ((#[trigger] text[i] as int) < 32 || text[i] as int == 127);
            if i > 0 {
                assert(rest[i - 1] == text[i]);
            }
        }
    }
}

proof fn bad_targets_are_found(targets: Seq<Seq<char>>)
    ensures
        control_fault(targets) is Some <==> exists|i: int|
            0 <= i < targets.len() && has_control(#[trigger] targets[i]),
    decreases targets.len(),
{
    if targets.len() > 0 {
        let rest = targets.drop_first();
        bad_targets_are_found(rest);
        controls_are_found(targets[0]);
        if exists|i: int| 0 <= i < rest.len() && has_control(#[trigger] rest[i]) {
            let i = choose|i: int| 0 <= i < rest.len() && has_control(#[trigger] rest[i]);
            assert(targets[i + 1] == rest[i]);
        }
        if exists|i: int| 0 <= i < targets.len() && has_control(#[trigger] targets[i]) {
            let i = choose|i: int| 0 <= i < targets.len() && has_control(#[trigger] targets[i]);
            if i > 0 {
                assert(rest[i - 1] == targets[i]);
            }
        }
    }
}

/// Whether a table names its targets: one of `target` and `targets`, not both, at least
/// one, and none with a control character.
pub open spec fn names_targets(raw: RawEntry) -> bool {
    match (raw.target, raw.targets) {
        (Some(one), None) => !has_control(one@),
        (None, Some(many)) => many@.len() > 0 && forall|i: int|
            0 <= i < many@.len() ==> !has_control((#[trigger] many@[i])@),
        _ => false,
    }
}

/// Whether a table names no remote, or one that is not blank.
pub open spec fn names_a_remote_or_none(raw: RawEntry) -> bool {
    raw.remote matches Some(name) ==> trimmed(name@).len() > 0
}

/// Whether an entry holds what its table says: the source, the targets, the condition and
/// the remote.
pub open spec fn holds_what_was_written(entry: ManagedEntry, raw: RawEntry) -> bool {
    &&& entry.source@ == raw.source@
    &&& match raw.target {
        Some(one) => entry.targets@.len() == 1 && entry.targets@[0]@ == one@,
        None => raw.targets is Some && entry.targets@.len() == raw.targets->0@.len() && forall|
            i: int,
        |
            0 <= i < entry.targets@.len() ==> (#[trigger] entry.targets@[i])@
                == raw.targets->0@[i]@,
    }
    &&& match raw.when {
        Some(when) => entry.when is Some && entry.when->0@ == when@,
        None => entry.when is None,
    }
    &&& match raw.remote {
        Some(name) => entry.remote is Some && entry.remote->0@ == trimmed(name@),
        None => entry.remote is None,
    }
}

proof fn targets_plainly(raw: RawEntry)
    ensures
        raw.targets matches Some(many) ==> (control_fault(views(many@)) is None <==> forall|i: int|
            0 <= i < many@.len() ==> !has_control((#[trigger] many@[i])@)),
        raw.target matches Some(one) ==> (control_fault(seq![one@]) is None <==> !has_control(
            one@,
        )),
{
    if let Some(many) = raw.targets {
        let all = views(many@);
        bad_targets_are_found(all);
        assert(forall|i: int| 0 <= i < many@.len() ==> (#[trigger] many@[i])@ == all[i]);
        assert(forall|i: int| 0 <= i < many@.len() ==> #[trigger] all[i] == many@[i]@);
    }
    if let Some(one) = raw.target {
        let all = seq![one@];
        bad_targets_are_found(all);
        assert(all[0] == one@);
    }
}

/// A `[[file]]` is accepted exactly where its source and its targets are in order, it
/// leaves nothing out, its remote is not blank, and its mode is one of files. A source of
/// the module that ends in `.tmpl` is a template, and takes no mode.
pub proof fn files_are_accepted_for_what_they_say(
    raw: RawEntry,
    source: &str,
    tmpl: bool,
    r: Result<ManagedEntry, FileEntryError>,
)
    requires
        call_ensures(ManagedEntry::from_raw_file, (raw,), r),
        source@ == raw.source@,
        call_ensures(has_tmpl_suffix, (source,), tmpl),
    ensures
        r is Ok <==> !has_control(raw.source@) && raw.ignore@.len() == 0 && names_a_remote_or_none(
            raw,
        ) && names_targets(raw) && (if tmpl && raw.remote is None {
            raw.mode is None
        } else {
            raw.mode matches Some(word) ==> word@ == "symlink"@ || word@ == "copy"@
        }),
        r matches Ok(entry) ==> {
            &&& entry.kind == EntryKind::File
            &&& holds_what_was_written(entry, raw)
            &&& entry.ignore@.len() == 0
            &&& entry.mode == (if tmpl && raw.remote is None {
                FileMode::TemplateRender
            } else if raw.mode is Some && raw.mode->0@ == "copy"@ {
                FileMode::Copy
            } else {
                FileMode::Symlink
            })
        },
{
    reveal_strlit("symlink");
    reveal_strlit("copy");
    controls_are_found(raw.source@);
    targets_plainly(raw);
    assert(views(raw.ignore@).len() == raw.ignore@.len());
    assert("symlink"@.len() != "copy"@.len());
    if let Ok(entry) = r {
        let all = views(entry.targets@);
        assert(all.len() == entry.targets@.len());
        assert(forall|i: int| 0 <= i < all.len() ==> (#[trigger] entry.targets@[i])@ == all[i]);
        assert(views(entry.ignore@).len() == entry.ignore@.len());
        if let Some(many) = raw.targets {
            assert(views(many@).len() == many@.len());
            assert(forall|i: int| 0 <= i < many@.len() ==> #[trigger] views(many@)[i] == many@[i]@);
        }
    }
}

/// A `[[directory]]` is accepted exactly where its source and its targets are in order, its
/// remote is not blank, its mode is one of directories, and it leaves files out only of a
/// tree. A source of the module that ends in `.tmpl` is refused.
pub proof fn directories_are_accepted_for_what_they_say(
    raw: RawEntry,
    source: &str,
    tmpl: bool,
    r: Result<ManagedEntry, FileEntryError>,
)
    requires
        call_ensures(ManagedEntry::from_raw_directory, (raw,), r),
        source@ == raw.source@,
        call_ensures(has_tmpl_suffix, (source,), tmpl),
    ensures
        r is Ok <==> !has_control(raw.source@) && names_a_remote_or_none(raw) && names_targets(raw)
            && !(tmpl && raw.remote is None) && (match raw.mode {
            None => raw.ignore@.len() == 0,
            Some(word) => word@ == "symlink-tree"@ || word@ == "copy"@ || (word@ == "symlink"@
                && raw.ignore@.len() == 0),
        }),
        r matches Ok(entry) ==> {
            &&& entry.kind == EntryKind::Directory
            &&& holds_what_was_written(entry, raw)
            &&& entry.ignore@.len() == raw.ignore@.len()
            &&& forall|i: int|
                0 <= i < entry.ignore@.len() ==> (#[trigger] entry.ignore@[i])@
                    == raw.ignore@[i]@
            &&& entry.mode == (match raw.mode {
                None => FileMode::SymlinkDir,
                Some(word) => if word@ == "symlink-tree"@ {
                    FileMode::SymlinkTree
                } else if word@ == "copy"@ {
                    FileMode::CopyTree
                } else {
                    FileMode::SymlinkDir
                },
            })
        },
{
    reveal_strlit("symlink");
    reveal_strlit("symlink-tree");
    reveal_strlit("copy");
    controls_are_found(raw.source@);
    targets_plainly(raw);
    assert(views(raw.ignore@).len() == raw.ignore@.len());
    assert("symlink"@.len() == 7 && "copy"@.len() == 4 && "symlink-tree"@.len() == 12);
    if let Ok(entry) = r {
        let all = views(entry.targets@);
        assert(all.len() == entry.targets@.len());
        assert(forall|i: int| 0 <= i < all.len() ==> (#[trigger] entry.targets@[i])@ == all[i]);
        assert(views(entry.ignore@).len() == entry.ignore@.len());
        assert(forall|i: int|
            0 <= i < entry.ignore@.len() ==> (#[trigger] entry.ignore@[i])@ == views(
                entry.ignore@,
            )[i]);
        assert(forall|i: int|
            0 <= i < raw.ignore@.len() ==> #[trigger] views(raw.ignore@)[i] == raw.ignore@[i]@);
        if let Some(many) = raw.targets {
            assert(views(many@).len() == many@.len());
            assert(forall|i: int| 0 <= i < many@.len() ==> #[trigger] views(many@)[i] == many@[i]@);
        }
    }
}

/// A `[[hook]]` is accepted exactly where its event is one of the two, and must succeed
/// unless it says that it need not.
pub proof fn hooks_are_accepted_for_what_they_say(
    raw: RawHookEntry,
    r: Result<HookEntry, HookEntryError>,
)
    requires
        call_ensures(HookEntry::from_raw, (raw,), r),
    ensures
        r is Ok <==> raw.event@ == "pre_apply"@ || raw.event@ == "post_apply"@,
        r matches Ok(hook) ==> {
            &&& hook.event == HookEvent::PreApply <==> raw.event@ == "pre_apply"@
            &&& hook.event == HookEvent::PostApply <==> raw.event@ == "post_apply"@
            &&& hook.command@ == raw.command@
            &&& hook.must_succeed <==> raw.must_succeed != Some(false)
            &&& match raw.shell {
                Some(shell) => hook.shell is Some && hook.shell->0@ == shell@,
                None => hook.shell is None,
            }
            &&& match raw.when {
                Some(when) => hook.when is Some && hook.when->0@ == when@,
                None => hook.when is None,
            }
        },
{
    reveal_strlit("pre_apply");
    reveal_strlit("post_apply");
    assert("pre_apply"@.len() != "post_apply"@.len());
}

proof fn each_is_declared(raws: Seq<RawEntry>, directory: bool, i: int)
    requires
        declared_all(raws, directory) is Ok,
        0 <= i < raws.len(),
    ensures
        declared_all(raws, directory)->Ok_0.len() == raws.len(),
        declared(raws[i]@, directory) is Ok,
        declared(raws[i]@, directory)->Ok_0 == declared_all(raws, directory)->Ok_0[i],
    decreases raws.len(),
{
    let front = raws.drop_last();
    declared_as_many(raws, directory);
    declared_as_many(front, directory);
    if i < front.len() {
        assert(front[i] == raws[i]);
        each_is_declared(front, directory, i);
    }
}

proof fn declared_as_many(raws: Seq<RawEntry>, directory: bool)
    ensures
        declared_all(raws, directory) matches Ok(all) ==> all.len() == raws.len(),
    decreases raws.len(),
{
    if raws.len() > 0 {
        declared_as_many(raws.drop_last(), directory);
    }
}

proof fn each_hook_is_declared(raws: Seq<RawHookEntry>, i: int)
    requires
        declared_hooks(raws) is Ok,
        0 <= i < raws.len(),
    ensures
        declared_hooks(raws)->Ok_0.len() == raws.len(),
        declared_hook(raws[i]) is Ok,
        declared_hook(raws[i])->Ok_0 == declared_hooks(raws)->Ok_0[i],
    decreases raws.len(),
{
    let front = raws.drop_last();
    hooks_as_many(raws);
    hooks_as_many(front);
    if i < front.len() {
        assert(front[i] == raws[i]);
        each_hook_is_declared(front, i);
    }
}

proof fn hooks_as_many(raws: Seq<RawHookEntry>)
    ensures
        declared_hooks(raws) matches Ok(all) ==> all.len() == raws.len(),
    decreases raws.len(),
{
    if raws.len() > 0 {
        hooks_as_many(raws.drop_last());
    }
}

/// The manifest of a module holds every table, in order, each as it would be by itself.
pub proof fn modules_hold_every_table(
    raw: RawModule,
    config: ModuleConfig,
    f: int,
    file: Result<ManagedEntry, FileEntryError>,
    d: int,
    directory: Result<ManagedEntry, FileEntryError>,
    h: int,
    hook: Result<HookEntry, HookEntryError>,
)
    requires
        call_ensures(
            ModuleConfig::from_raw,
            (raw,),
            Ok::<ModuleConfig, ConfigParseError>(config),
        ),
        0 <= f < raw.file@.len() ==> call_ensures(
            ManagedEntry::from_raw_file,
            (raw.file@[f],),
            file,
        ),
        0 <= d < raw.directory@.len() ==> call_ensures(
            ManagedEntry::from_raw_directory,
            (raw.directory@[d],),
            directory,
        ),
        0 <= h < raw.hook@.len() ==> call_ensures(HookEntry::from_raw, (raw.hook@[h],), hook),
    ensures
        config.variables == raw.variables,
        0 <= f < raw.file@.len() ==> config.files@.len() == raw.file@.len() && file is Ok
            && config.files@[f]@ == file->Ok_0@,
        0 <= d < raw.directory@.len() ==> config.directories@.len() == raw.directory@.len()
            && directory is Ok && config.directories@[d]@ == directory->Ok_0@,
        0 <= h < raw.hook@.len() ==> config.hooks@.len() == raw.hook@.len() && hook is Ok
            && config.hooks@[h]@ == hook->Ok_0@,
{
    assert(entry_models(config.files@).len() == config.files@.len());
    assert(entry_models(config.directories@).len() == config.directories@.len());
    assert(hook_models(config.hooks@).len() == config.hooks@.len());
    if 0 <= f < raw.file@.len() {
        each_is_declared(raw.file@, false, f);
        assert(entry_models(config.files@)[f] == config.files@[f]@);
    }
    if 0 <= d < raw.directory@.len() {
        each_is_declared(raw.directory@, true, d);
        assert(entry_models(config.directories@)[d] == config.directories@[d]@);
    }
    if 0 <= h < raw.hook@.len() {
        each_hook_is_declared(raw.hook@, h);
        assert(hook_models(config.hooks@)[h] == config.hooks@[h]@);
    }
}

/// Whether a table declares a name that begins with `patina.`.
pub open spec fn declares_a_built_in(table: Seq<Variable>) -> bool {
    exists|i: int| 0 <= i < table.len() && "patina."@.is_prefix_of((#[trigger] table[i]).key@)
}

proof fn built_ins_are_found(table: Seq<Variable>)
    ensures
        first_reserved(table_keys(table)) is Some <==> declares_a_built_in(table),
    decreases table.len(),
{
    let keys = table_keys(table);
    if table.len() > 0 {
        let rest = table.drop_first();
        assert(keys.drop_first() =~= table_keys(rest));
        assert(keys[0] == table[0].key@);
        built_ins_are_found(rest);
        if declares_a_built_in(rest) {
            let i = choose|i: int|
                0 <= i < rest.len() && "patina."@.is_prefix_of((#[trigger] rest[i]).key@);
            assert(table[i + 1] == rest[i]);
        }
        if declares_a_built_in(table) {
            let i = choose|i: int|
                0 <= i < table.len() && "patina."@.is_prefix_of((#[trigger] table[i]).key@);
            if i > 0 {
                assert(rest[i - 1] == table[i]);
            }
        }
    }
}

/// A table of variables is refused exactly where it declares a name that is built in.
pub proof fn built_in_names_are_refused(table: Vec<Variable>, r: Result<(), VariableError>)
    requires
        call_ensures(reject_reserved_keys, (&table,), r),
    ensures
        r is Err <==> declares_a_built_in(table@),
{
    built_ins_are_found(table@);
}

/// The root manifest is refused where its own variables or those of one of its profiles
/// declare a name that is built in, and accepted where none does. The shared variables
/// stay as they are.
pub proof fn root_manifests_declare_no_built_ins(raw: RawRoot, r: Result<RootConfig, RootConfigError>)
    requires
        call_ensures(RootConfig::from_raw, (raw,), r),
    ensures
        raw.variables is Some && declares_a_built_in(raw.variables->0@) ==> r is Err,
        !(raw.variables is Some && declares_a_built_in(raw.variables->0@)) && (forall|i: int|
            0 <= i < by_name(raw.profiles@).len() ==> !((#[trigger] by_name(
                raw.profiles@,
            )[i]).variables is Some && declares_a_built_in(
                by_name(raw.profiles@)[i].variables->0@,
            ))) <==> r is Ok,
        r matches Ok(config) ==> match raw.variables {
            Some(table) => config.repo_shared@ == table@,
            None => config.repo_shared@.len() == 0,
        },
{
    built_ins_are_found(given_table(raw.variables));
    profile_built_ins(by_name(raw.profiles@));
}

proof fn profile_built_ins(profiles: Seq<RawProfile>)
    ensures
        reserved_in_profiles(profiles) is None <==> forall|i: int|
            0 <= i < profiles.len() ==> !((#[trigger] profiles[i]).variables is Some
                && declares_a_built_in(profiles[i].variables->0@)),
    decreases profiles.len(),
{
    if profiles.len() > 0 {
        let rest = profiles.drop_first();
        profile_built_ins(rest);
        built_ins_are_found(given_table(profiles[0].variables));
        assert(forall|i: int| 0 <= i < rest.len() ==> #[trigger] rest[i] == profiles[i + 1]);
        if reserved_in_profiles(profiles) is None {
            assert forall|i: int| 0 <= i < profiles.len() implies !((
            #[trigger] profiles[i]).variables is Some && declares_a_built_in(
                profiles[i].variables->0@,
            )) by {
                if i > 0 {
                    assert(rest[i - 1] == profiles[i]);
                }
            }
        }
        if forall|i: int|
            0 <= i < profiles.len() ==> !((#[trigger] profiles[i]).variables is Some
                && declares_a_built_in(profiles[i].variables->0@)) {
            assert forall|i: int| 0 <= i < rest.len() implies !((#[trigger] rest[i]).variables
                is Some && declares_a_built_in(rest[i].variables->0@)) by {
                assert(profiles[i + 1] == rest[i]);
            }
            assert(!(profiles[0].variables is Some && declares_a_built_in(
                profiles[0].variables->0@,
            )));
        }
    }
}

proof fn layer_members(table: Seq<Variable>, key: Seq<char>, text: Seq<char>)
    ensures
        layer_of(table).contains((key, text)) <==> exists|i: int|
            0 <= i < table.len() && (#[trigger] table[i]).key@ == key && (table[i].value matches
                VariableValue::Text { text: t } && t@ == text),
    decreases table.len(),
{
    if table.len() > 0 {
        let front = table.drop_last();
        let before = layer_of(front);
        let all = layer_of(table);
        let pair = (key, text);
        layer_members(front, key, text);
        assert(table[table.len() - 1] == table.last());
        if before.contains(pair) {
            let i = choose|i: int|
                0 <= i < front.len() && (#[trigger] front[i]).key@ == key && (front[i].value
                    matches VariableValue::Text { text: t } && t@ == text);
            assert(table[i] == front[i]);
            let k = choose|k: int| 0 <= k < before.len() && before[k] == pair;
            assert(all[k] == pair);
        }
        if all.contains(pair) && !before.contains(pair) {
            let k = choose|k: int| 0 <= k < all.len() && all[k] == pair;
            if k < before.len() {
                assert(before[k] == pair);
            }
        }
        if exists|i: int|
            0 <= i < table.len() && (#[trigger] table[i]).key@ == key && (table[i].value matches
                VariableValue::Text { text: t } && t@ == text) {
            let i = choose|i: int|
                0 <= i < table.len() && (#[trigger] table[i]).key@ == key && (table[i].value
                    matches VariableValue::Text { text: t } && t@ == text);
            if i < front.len() {
                assert(front[i] == table[i]);
            } else {
                assert(all[before.len() as int] == pair);
            }
        }
    }
}

/// Templates know exactly the variables whose value is a text.
pub proof fn templates_know_the_texts(
    table: Vec<Variable>,
    layer: Vec<(String, String)>,
    key: Seq<char>,
    text: Seq<char>,
)
    requires
        call_ensures(table_to_layer, (&table,), layer),
    ensures
        (exists|k: int|
            0 <= k < layer@.len() && (#[trigger] layer@[k]).0@ == key && layer@[k].1@ == text)
            <==> exists|i: int|
            0 <= i < table@.len() && (#[trigger] table@[i]).key@ == key && (table@[i].value matches
                VariableValue::Text { text: t } && t@ == text),
{
    layer_members(table@, key, text);
    let all = pair_views(layer@);
    assert(all.len() == layer@.len());
    if all.contains((key, text)) {
        let k = choose|k: int| 0 <= k < all.len() && all[k] == (key, text);
        assert(layer@[k].0@ == key);
    }
    if exists|k: int|
        0 <= k < layer@.len() && (#[trigger] layer@[k]).0@ == key && layer@[k].1@ == text {
        let k = choose|k: int|
            0 <= k < layer@.len() && (#[trigger] layer@[k]).0@ == key && layer@[k].1@ == text;
        assert(all[k] == (key, text));
    }
}

/// The word that is written for a mode is the one that is read as it, of a file or of a
/// directory. A template has none.
pub proof fn modes_are_written_as_they_are_read(mode: FileMode, r: Option<&'static str>)
    requires
        call_ensures(mode_manifest_str, (mode,), r),
    ensures
        r is None <==> mode == FileMode::TemplateRender,
        mode == FileMode::Symlink ==> r->0@ == "symlink"@,
        mode == FileMode::Copy ==> r->0@ == "copy"@,
        mode == FileMode::SymlinkTree ==> r->0@ == "symlink-tree"@,
        mode == FileMode::SymlinkDir ==> r->0@ == "symlink-dir"@,
        mode == FileMode::CopyTree ==> r->0@ == "copy-tree"@,
{
}

/// A table that is added holds the source under `source`, the target under `target` and
/// the word for the mode under `mode`, and nothing else.
pub proof fn added_tables_hold_their_entry(
    source: Seq<char>,
    target: Seq<char>,
    mode: FileMode,
    word: Option<&'static str>,
    key: Seq<char>,
)
    requires
        call_ensures(mode_manifest_str, (mode,), word),
    ensures
        entry_fields(source, target, mode).contains_key("source"@) && entry_fields(
            source,
            target,
            mode,
        )["source"@] == (Field::Text { text: source }),
        entry_fields(source, target, mode).contains_key("target"@) && entry_fields(
            source,
            target,
            mode,
        )["target"@] == (Field::Text { text: target }),
        match word {
            Some(w) => entry_fields(source, target, mode).contains_key("mode"@) && entry_fields(
                source,
                target,
                mode,
            )["mode"@] == (Field::Text { text: w@ }),
            None => !entry_fields(source, target, mode).contains_key("mode"@),
        },
        key != "source"@ && key != "target"@ && key != "mode"@ ==> !entry_fields(
            source,
            target,
            mode,
        ).contains_key(key),
{
    reveal_strlit("source");
    reveal_strlit("target");
    reveal_strlit("mode");
    assert("source"@[0] != "target"@[0]);
    assert("mode"@.len() == 4 && "source"@.len() == 6 && "target"@.len() == 6);
}

/// A new root manifest says that it is the root and when it was made, and nothing else.
pub proof fn new_roots_say_so(created_at: Seq<char>, key: Seq<char>)
    ensures
        root_fields(created_at).contains_key("root"@) && root_fields(created_at)["root"@] == (
        Field::Flag { value: true }),
        root_fields(created_at).contains_key("created_at"@) && root_fields(
            created_at,
        )["created_at"@] == (Field::Text { text: created_at }),
        key != "root"@ && key != "created_at"@ ==> !root_fields(created_at).contains_key(key),
{
    reveal_strlit("root");
    reveal_strlit("created_at");
    assert("root"@.len() != "created_at"@.len());
}

} // verus!
