//! The manifest of a module.

use crate::text::around;
use crate::text::joined;
use crate::text::opt_view;
use crate::text::put_around;
use crate::variables::Variable;
use super::file_entry::EntryFault;
use super::file_entry::EntryModel;
use super::file_entry::FileEntryError;
use super::file_entry::ManagedEntry;
use super::file_entry::RawEntry;
use super::file_entry::RawModel;
use super::file_entry::declared_directory;
use super::file_entry::declared_file;
use super::file_entry::template_path;
use super::hook_entry::HookEntry;
use super::hook_entry::HookEntryError;
use super::hook_entry::HookModel;
use super::hook_entry::RawHookEntry;
use super::hook_entry::event_named;
use vstd::prelude::*;

verus! {

/// The validated contents of a module's manifest.
#[derive(Debug, Clone, PartialEq, Eq)]
pub struct ModuleConfig {
    /// The `[[file]]` entries in order.
    pub files: Vec<ManagedEntry>,
    /// The `[[directory]]` entries in order.
    pub directories: Vec<ManagedEntry>,
    /// The `[[hook]]` entries in order.
    pub hooks: Vec<HookEntry>,
    /// The `[variables]` table.
    pub variables: Option<Vec<Variable>>,
}

/// Errors in the manifest of a module.
#[derive(Debug, Clone, PartialEq, Eq)]
#[non_exhaustive]
pub enum ConfigParseError {
    /// The manifest could not be read.
    Io {
        /// Its path.
        path: String,
        /// What went wrong.
        message: String,
    },
    /// The manifest is not TOML.
    Toml {
        /// Its path.
        path: String,
        /// What went wrong.
        message: String,
    },
    /// A `[[file]]` or `[[directory]]` breaks a rule.
    FileEntry(FileEntryError),
    /// A `[[hook]]` breaks a rule.
    HookEntry(HookEntryError),
}

impl ConfigParseError {
    /// The error in words.
    pub open spec fn words(self) -> Seq<char> {
        match self {
            ConfigParseError::Io { path, message } => around("failed to read "@, path@, ": "@)
                + message@,
            ConfigParseError::Toml { path, message } => around(
                "failed to parse "@,
                path@,
                " as TOML: "@,
            ) + message@,
            ConfigParseError::FileEntry(e) => e@.words(),
            ConfigParseError::HookEntry(e) => e.words(),
        }
    }

    /// The error in words.
    pub fn message(&self) -> (r: String)
        ensures
            r@ == self.words(),
    {
        match self {
            ConfigParseError::Io { path, message } => {
                let head: String = put_around("failed to read ", path.as_str(), ": ");
                joined(head.as_str(), message.as_str())
            },
            ConfigParseError::Toml { path, message } => {
                let head: String = put_around("failed to parse ", path.as_str(), " as TOML: ");
                joined(head.as_str(), message.as_str())
            },
            ConfigParseError::FileEntry(e) => e.message(),
            ConfigParseError::HookEntry(e) => e.message(),
        }
    }
}

/// The manifest of a module as it was written.
#[derive(Debug, Clone, PartialEq, Eq)]
pub struct RawModule {
    /// The `[variables]` table.
    pub variables: Option<Vec<Variable>>,
    /// The `[[file]]` tables.
    pub file: Vec<RawEntry>,
    /// The `[[directory]]` tables.
    pub directory: Vec<RawEntry>,
    /// The `[[hook]]` tables.
    pub hook: Vec<RawHookEntry>,
}

/// What a table of one of the two kinds declares.
pub open spec fn declared(raw: RawModel, directory: bool) -> Result<EntryModel, EntryFault> {
    if directory {
        declared_directory(raw, template_path(raw.source))
    } else {
        declared_file(raw, template_path(raw.source))
    }
}

/// What a row of tables declares, or what is wrong with the first that breaks a
/// rule.
pub open spec fn declared_all(raws: Seq<RawEntry>, directory: bool) -> Result<
    Seq<EntryModel>,
    EntryFault,
>
    decreases raws.len(),
{
    if raws.len() == 0 {
        Ok(Seq::empty())
    } else {
        match declared_all(raws.drop_last(), directory) {
            Err(fault) => Err(fault),
            Ok(entries) => match declared(raws.last()@, directory) {
                Err(fault) => Err(fault),
                Ok(entry) => Ok(entries.push(entry)),
            },
        }
    }
}

/// What a `[[hook]]` table declares.
pub open spec fn declared_hook(raw: RawHookEntry) -> Result<HookModel, HookEntryError> {
    match event_named(raw.event@) {
        Some(event) => Ok(
            HookModel {
                event,
                command: raw.command@,
                shell: opt_view(raw.shell),
                when: opt_view(raw.when),
                must_succeed: raw.must_succeed != Some(false),
            },
        ),
        None => Err(HookEntryError::UnsupportedEvent { value: raw.event }),
    }
}

/// What a row of `[[hook]]` tables declares, or what is wrong with the first that
/// breaks a rule.
pub open spec fn declared_hooks(raws: Seq<RawHookEntry>) -> Result<Seq<HookModel>, HookEntryError>
    decreases raws.len(),
{
    if raws.len() == 0 {
        Ok(Seq::empty())
    } else {
        match declared_hooks(raws.drop_last()) {
            Err(e) => Err(e),
            Ok(hooks) => match declared_hook(raws.last()) {
                Err(e) => Err(e),
                Ok(hook) => Ok(hooks.push(hook)),
            },
        }
    }
}

/// The models of a row of entries.
pub open spec fn entry_models(entries: Seq<ManagedEntry>) -> Seq<EntryModel> {
    entries.map_values(|e: ManagedEntry| e@)
}

/// The models of a row of hooks.
pub open spec fn hook_models(hooks: Seq<HookEntry>) -> Seq<HookModel> {
    hooks.map_values(|h: HookEntry| h@)
}

/// Once a front part of a row breaks a rule, the whole row is refused for it.
proof fn fault_in_front(raws: Seq<RawEntry>, directory: bool, n: int)
    requires
        0 <= n <= raws.len(),
        declared_all(raws.take(n), directory) is Err,
    ensures
        declared_all(raws, directory) == declared_all(raws.take(n), directory),
    decreases raws.len(),
{
    if n == raws.len() {
        assert(raws.take(n) =~= raws);
    } else {
        assert(raws.drop_last().take(n) =~= raws.take(n));
        fault_in_front(raws.drop_last(), directory, n);
    }
}

proof fn hook_fault_in_front(raws: Seq<RawHookEntry>, n: int)
    requires
        0 <= n <= raws.len(),
        declared_hooks(raws.take(n)) is Err,
    ensures
        declared_hooks(raws) == declared_hooks(raws.take(n)),
    decreases raws.len(),
{
    if n == raws.len() {
        assert(raws.take(n) =~= raws);
    } else {
        assert(raws.drop_last().take(n) =~= raws.take(n));
        hook_fault_in_front(raws.drop_last(), n);
    }
}

fn validate_entries(raws: Vec<RawEntry>, directory: bool) -> (r: Result<
    Vec<ManagedEntry>,
    FileEntryError,
>)
    ensures
        match declared_all(raws@, directory) {
            Ok(entries) => r is Ok && entry_models(r->Ok_0@) == entries,
            Err(fault) => r is Err && r->Err_0@ == fault,
        },
{
    let ghost all = raws@;
    let mut rest: Vec<RawEntry> = raws;
    let mut entries: Vec<ManagedEntry> = Vec::new();
    let ghost mut n: int = 0;
    assert(entry_models(entries@) =~= Seq::<EntryModel>::empty());
    assert(all.skip(0) =~= all);
    while rest.len() > 0
        invariant
            0 <= n <= all.len(),
            all == raws@,
            rest@ == all.skip(n),
            declared_all(all.take(n), directory) == Ok::<Seq<EntryModel>, EntryFault>(
                entry_models(entries@),
            ),
        decreases rest@.len(),
    {
        let ghost before = entry_models(entries@);
        let raw: RawEntry = rest.remove(0);
        proof {
            assert(raw == all[n]);
            assert(rest@ =~= all.skip(n + 1));
            assert(all.take(n + 1).drop_last() =~= all.take(n));
            assert(all.take(n + 1).last() == raw);
        }
        let result: Result<ManagedEntry, FileEntryError> = if directory {
            ManagedEntry::from_raw_directory(raw)
        } else {
            ManagedEntry::from_raw_file(raw)
        };
        match result {
            Ok(entry) => {
                entries.push(entry);
                assert(entry_models(entries@) =~= before.push(entry@));
            },
            Err(e) => {
                proof {
                    fault_in_front(all, directory, n + 1);
                }
                return Err(e);
            },
        }
        proof {
            n = n + 1;
        }
    }
    assert(all.take(n) =~= all);
    Ok(entries)
}

fn validate_hooks(raws: Vec<RawHookEntry>) -> (r: Result<Vec<HookEntry>, HookEntryError>)
    ensures
        match declared_hooks(raws@) {
            Ok(hooks) => r is Ok && hook_models(r->Ok_0@) == hooks,
            Err(e) => r == Err::<Vec<HookEntry>, HookEntryError>(e),
        },
{
    let ghost all = raws@;
    let mut rest: Vec<RawHookEntry> = raws;
    let mut hooks: Vec<HookEntry> = Vec::new();
    let ghost mut n: int = 0;
    assert(hook_models(hooks@) =~= Seq::<HookModel>::empty());
    assert(all.skip(0) =~= all);
    while rest.len() > 0
        invariant
            0 <= n <= all.len(),
            all == raws@,
            rest@ == all.skip(n),
            declared_hooks(all.take(n)) == Ok::<Seq<HookModel>, HookEntryError>(hook_models(hooks@)),
        decreases rest@.len(),
    {
        let ghost before = hook_models(hooks@);
        let raw: RawHookEntry = rest.remove(0);
        proof {
            assert(raw == all[n]);
            assert(rest@ =~= all.skip(n + 1));
            assert(all.take(n + 1).drop_last() =~= all.take(n));
            assert(all.take(n + 1).last() == raw);
        }
        match HookEntry::from_raw(raw) {
            Ok(hook) => {
                hooks.push(hook);
                assert(hook_models(hooks@) =~= before.push(hook@));
            },
            Err(e) => {
                proof {
                    hook_fault_in_front(all, n + 1);
                }
                return Err(e);
            },
        }
        proof {
            n = n + 1;
        }
    }
    assert(all.take(n) =~= all);
    Ok(hooks)
}

impl ModuleConfig {
    /// Validates the manifest of a module: its `[[file]]` tables, then its
    /// `[[directory]]` tables, then its `[[hook]]` tables.
    pub fn from_raw(raw: RawModule) -> (r: Result<Self, ConfigParseError>)
        ensures
            match declared_all(raw.file@, false) {
                Err(fault) => r matches Err(ConfigParseError::FileEntry(e)) && e@ == fault,
                Ok(files) => match declared_all(raw.directory@, true) {
                    Err(fault) => r matches Err(ConfigParseError::FileEntry(e)) && e@ == fault,
                    Ok(directories) => match declared_hooks(raw.hook@) {
                        Err(e) => r == Err::<ModuleConfig, ConfigParseError>(
                            ConfigParseError::HookEntry(e),
                        ),
                        Ok(hooks) => r matches Ok(config) && entry_models(config.files@) == files
                            && entry_models(config.directories@) == directories && hook_models(
                            config.hooks@,
                        ) == hooks && config.variables == raw.variables,
                    },
                },
            },
    {
        let RawModule { variables, file, directory, hook } = raw;
        let files: Vec<ManagedEntry> = match validate_entries(file, false) {
            Ok(files) => files,
            Err(e) => return Err(ConfigParseError::FileEntry(e)),
        };
        let directories: Vec<ManagedEntry> = match validate_entries(directory, true) {
            Ok(directories) => directories,
            Err(e) => return Err(ConfigParseError::FileEntry(e)),
        };
        let hooks: Vec<HookEntry> = match validate_hooks(hook) {
            Ok(hooks) => hooks,
            Err(e) => return Err(ConfigParseError::HookEntry(e)),
        };
        Ok(ModuleConfig { files, directories, hooks, variables })
    }
}

} // verus!
