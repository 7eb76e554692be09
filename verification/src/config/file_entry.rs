//! `[[file]]` and `[[directory]]` tables.
//!
//! A `[[file]]` describes a file and takes the modes `symlink`, which is the
//! default, and `copy`; one whose source ends in `.tmpl` is a template that is
//! rendered. A `[[directory]]` describes a directory and takes the modes
//! `symlink`, one link for the whole directory and the default, `symlink-tree`,
//! one link for each file in it, and `copy`. The names of the modes mean the same
//! in both tables; the table says of what. Only the two constructors here make a
//! [`ManagedEntry`], so that no entry has a mode that its kind does not take.

use crate::caseless::ascii_lower;
use crate::caseless::lower_ascii;
use crate::paths::is_empty;
use crate::text::chars_of;
use crate::text::opt_view;
use crate::text::same_text;
use crate::text::trim;
use crate::text::trimmed;
use crate::text::views;
use crate::utf8_path::file_name;
use crate::utf8_path::name_extension;
use crate::utf8_path::path_name;
use crate::utf8_path::split_name;
use vstd::prelude::*;

verus! {

/// How an entry is materialized.
#[derive(Debug, Clone, Copy, PartialEq, Eq, Structural)]
pub enum FileMode {
    /// A symbolic link to a file.
    Symlink,
    /// A symbolic link to a whole directory.
    SymlinkDir,
    /// A symbolic link to each file of a directory.
    SymlinkTree,
    /// A copy of a file.
    Copy,
    /// A copy of each file of a directory.
    CopyTree,
    /// The rendered output of a template.
    TemplateRender,
}

/// Which table declares an entry.
#[derive(Debug, Clone, Copy, PartialEq, Eq, Structural)]
pub enum EntryKind {
    /// `[[file]]`
    File,
    /// `[[directory]]`
    Directory,
}

/// A validated entry of either table.
#[derive(Debug, Clone, PartialEq, Eq)]
pub struct ManagedEntry {
    /// Which table declares the entry.
    pub kind: EntryKind,
    /// How it is materialized.
    pub mode: FileMode,
    /// The source, relative to the module or to the checkout of its remote.
    pub source: String,
    /// The targets, at least one.
    pub targets: Vec<String>,
    /// The condition under which the entry is active, not evaluated yet.
    pub when: Option<String>,
    /// The remote that the source is in.
    pub remote: Option<String>,
    /// The patterns that the walk of a tree leaves out.
    pub ignore: Vec<String>,
}

/// An entry of either table.
pub type FileEntry = ManagedEntry;

/// An entry with its texts as sequences of characters.
#[verifier::ext_equal]
pub ghost struct EntryModel {
    /// Which table declares the entry.
    pub kind: EntryKind,
    /// How it is materialized.
    pub mode: FileMode,
    /// The source.
    pub source: Seq<char>,
    /// The targets.
    pub targets: Seq<Seq<char>>,
    /// The condition under which the entry is active.
    pub when: Option<Seq<char>>,
    /// The remote that the source is in.
    pub remote: Option<Seq<char>>,
    /// The patterns that the walk of a tree leaves out.
    pub ignore: Seq<Seq<char>>,
}

impl View for ManagedEntry {
    type V = EntryModel;

    open spec fn view(&self) -> EntryModel {
        EntryModel {
            kind: self.kind,
            mode: self.mode,
            source: self.source@,
            targets: views(self.targets@),
            when: opt_view(self.when),
            remote: opt_view(self.remote),
            ignore: views(self.ignore@),
        }
    }
}

/// A table as it was written.
#[derive(Debug, Clone, PartialEq, Eq)]
pub struct RawEntry {
    /// The source.
    pub source: String,
    /// The one target.
    pub target: Option<String>,
    /// The targets.
    pub targets: Option<Vec<String>>,
    /// The mode.
    pub mode: Option<String>,
    /// The condition under which the entry is active.
    pub when: Option<String>,
    /// The remote that the source is in.
    pub remote: Option<String>,
    /// The patterns that the walk of a tree leaves out.
    pub ignore: Vec<String>,
}

/// A table as it was written, with its texts as sequences of characters.
#[verifier::ext_equal]
pub ghost struct RawModel {
    /// The source.
    pub source: Seq<char>,
    /// The one target.
    pub target: Option<Seq<char>>,
    /// The targets.
    pub targets: Option<Seq<Seq<char>>>,
    /// The mode.
    pub mode: Option<Seq<char>>,
    /// The condition under which the entry is active.
    pub when: Option<Seq<char>>,
    /// The remote that the source is in.
    pub remote: Option<Seq<char>>,
    /// The patterns that the walk of a tree leaves out.
    pub ignore: Seq<Seq<char>>,
}

/// A list of texts that may be missing.
pub open spec fn list_view(list: Option<Vec<String>>) -> Option<Seq<Seq<char>>> {
    match list {
        Some(texts) => Some(views(texts@)),
        None => None,
    }
}

impl View for RawEntry {
    type V = RawModel;

    open spec fn view(&self) -> RawModel {
        RawModel {
            source: self.source@,
            target: opt_view(self.target),
            targets: list_view(self.targets),
            mode: opt_view(self.mode),
            when: opt_view(self.when),
            remote: opt_view(self.remote),
            ignore: views(self.ignore@),
        }
    }
}

/// Errors in `[[file]]` and `[[directory]]` tables.
#[derive(Debug, Clone, PartialEq, Eq)]
#[non_exhaustive]
pub enum FileEntryError {
    /// Both `target` and `targets` are declared.
    TargetAndTargets,
    /// Neither `target` nor `targets` is declared.
    TargetMissing,
    /// `targets` is empty.
    TargetsEmpty,
    /// A target holds an ASCII control character, which would break the lines
    /// and columns that paths are printed in.
    TargetControlCharacter {
        /// The target.
        target: String,
        /// The first such character.
        codepoint: u32,
    },
    /// A source holds an ASCII control character.
    SourceControlCharacter {
        /// The source.
        source_path: String,
        /// The first such character.
        codepoint: u32,
    },
    /// A `[[file]]` does not take the mode.
    UnsupportedFileMode {
        /// The mode.
        value: String,
    },
    /// A `[[directory]]` does not take the mode.
    UnsupportedDirectoryMode {
        /// The mode.
        value: String,
    },
    /// A template declares a mode.
    ImplicitTemplateModeDeclared {
        /// The source.
        source_path: String,
        /// The mode.
        mode: String,
    },
    /// The source of a `[[directory]]` ends in `.tmpl`.
    DirectoryTemplateSource {
        /// The source.
        source_path: String,
    },
    /// A `[[file]]` declares `ignore`.
    FileIgnoreDeclared {
        /// The source.
        source_path: String,
    },
    /// A `[[directory]]` that is one link declares `ignore`.
    DirectorySymlinkIgnoreDeclared {
        /// The source.
        source_path: String,
    },
    /// A `remote` is blank.
    EmptyRemote {
        /// The source.
        source_path: String,
    },
}

/// An error with its texts as sequences of characters.
#[verifier::ext_equal]
pub ghost enum EntryFault {
    /// Both `target` and `targets` are declared.
    TargetAndTargets,
    /// Neither is declared.
    TargetMissing,
    /// `targets` is empty.
    TargetsEmpty,
    /// A target holds a control character.
    TargetControlCharacter { target: Seq<char>, codepoint: int },
    /// A source holds a control character.
    SourceControlCharacter { source_path: Seq<char>, codepoint: int },
    /// A `[[file]]` does not take the mode.
    UnsupportedFileMode { value: Seq<char> },
    /// A `[[directory]]` does not take the mode.
    UnsupportedDirectoryMode { value: Seq<char> },
    /// A template declares a mode.
    ImplicitTemplateModeDeclared { source_path: Seq<char>, mode: Seq<char> },
    /// The source of a `[[directory]]` ends in `.tmpl`.
    DirectoryTemplateSource { source_path: Seq<char> },
    /// A `[[file]]` declares `ignore`.
    FileIgnoreDeclared { source_path: Seq<char> },
    /// A `[[directory]]` that is one link declares `ignore`.
    DirectorySymlinkIgnoreDeclared { source_path: Seq<char> },
    /// A `remote` is blank.
    EmptyRemote { source_path: Seq<char> },
}

impl View for FileEntryError {
    type V = EntryFault;

    open spec fn view(&self) -> EntryFault {
        match *self {
            FileEntryError::TargetAndTargets => EntryFault::TargetAndTargets,
            FileEntryError::TargetMissing => EntryFault::TargetMissing,
            FileEntryError::TargetsEmpty => EntryFault::TargetsEmpty,
            FileEntryError::TargetControlCharacter { target, codepoint } =>
                EntryFault::TargetControlCharacter { target: target@, codepoint: codepoint as int },
            FileEntryError::SourceControlCharacter { source_path, codepoint } =>
                EntryFault::SourceControlCharacter {
                source_path: source_path@,
                codepoint: codepoint as int,
            },
            FileEntryError::UnsupportedFileMode { value } => EntryFault::UnsupportedFileMode {
                value: value@,
            },
            FileEntryError::UnsupportedDirectoryMode { value } =>
                EntryFault::UnsupportedDirectoryMode { value: value@ },
            FileEntryError::ImplicitTemplateModeDeclared { source_path, mode } =>
                EntryFault::ImplicitTemplateModeDeclared {
                source_path: source_path@,
                mode: mode@,
            },
            FileEntryError::DirectoryTemplateSource { source_path } =>
                EntryFault::DirectoryTemplateSource { source_path: source_path@ },
            FileEntryError::FileIgnoreDeclared { source_path } => EntryFault::FileIgnoreDeclared {
                source_path: source_path@,
            },
            FileEntryError::DirectorySymlinkIgnoreDeclared { source_path } =>
                EntryFault::DirectorySymlinkIgnoreDeclared { source_path: source_path@ },
            FileEntryError::EmptyRemote { source_path } => EntryFault::EmptyRemote {
                source_path: source_path@,
            },
        }
    }
}

/// Whether a character is an ASCII control character.
pub open spec fn is_control(c: char) -> bool {
    (c as int) < 32 || c as int == 127
}

/// The first ASCII control character of a text.
pub open spec fn first_control(text: Seq<char>) -> Option<int>
    decreases text.len(),
{
    if text.len() == 0 {
        None
    } else if is_control(text[0]) {
        Some(text[0] as int)
    } else {
        first_control(text.drop_first())
    }
}

/// The code point of a character.
fn code_of(c: char) -> (n: u32)
    ensures
        n == c as int,
{
    c as u32
}

/// The first ASCII control character of `path`.
pub fn first_control_character(path: &str) -> (r: Option<u32>)
    ensures
        match first_control(path@) {
            Some(c) => r is Some && r->0 == c,
            None => r is None,
        },
{
    let chars: Vec<char> = chars_of(path);
    let mut i: usize = 0;
    assert(chars@.skip(0) =~= chars@);
    while i < chars.len()
        invariant
            i <= chars@.len(),
            chars@ == path@,
            first_control(path@) == first_control(chars@.skip(i as int)),
        decreases chars@.len() - i,
    {
        let c: char = chars[i];
        assert(chars@.skip(i as int)[0] == c);
        assert(chars@.skip(i as int).drop_first() =~= chars@.skip(i + 1));
        if c < ' ' || c == '\x7f' {
            return Some(code_of(c));
        }
        i = i + 1;
    }
    None
}

/// Whether a name ends in `.tmpl`, in any case.
pub open spec fn template_name(name: Option<Seq<char>>) -> bool {
    match name {
        Some(n) => match name_extension(n) {
            Some(extension) => ascii_lower(extension) == "tmpl"@,
            None => false,
        },
        None => false,
    }
}

/// Whether the name that a path ends in ends in `.tmpl`, in any case.
pub open spec fn template_path(path: Seq<char>) -> bool {
    template_name(path_name(path))
}

/// Whether `name` ends in `.tmpl`, in any case.
pub fn is_template_name(name: &Option<String>) -> (r: bool)
    ensures
        r == template_name(opt_view(*name)),
{
    match name {
        Some(n) => match split_name(n.as_str()).1 {
            Some(extension) => same_text(lower_ascii(extension.as_str()).as_str(), "tmpl"),
            None => false,
        },
        None => false,
    }
}

/// Whether the name that `source` ends in ends in `.tmpl`, in any case.
pub fn has_tmpl_suffix(source: &str) -> (r: bool)
    ensures
        r == template_path(source@),
{
    is_template_name(&file_name(source))
}

/// Whether `.tmpl` at the end of a source makes it a template.
///
/// A source of the module does. One in the checkout of a remote does not: there
/// it is part of a name, and the bytes of others are never rendered.
#[derive(Debug, Clone, Copy, PartialEq, Eq, Structural)]
pub enum TemplatePolicy {
    /// A source that ends in `.tmpl` is rendered.
    Implicit,
    /// `.tmpl` means nothing.
    Never,
}

impl TemplatePolicy {
    /// The policy for an entry, by whether its source is in a remote.
    pub fn for_source(remote: Option<&str>) -> (r: Self)
        ensures
            r == (if remote is Some {
                TemplatePolicy::Never
            } else {
                TemplatePolicy::Implicit
            }),
    {
        if remote.is_some() {
            TemplatePolicy::Never
        } else {
            TemplatePolicy::Implicit
        }
    }
}

/// What is wrong with a source.
pub open spec fn source_fault(source: Seq<char>) -> Option<EntryFault> {
    match first_control(source) {
        Some(codepoint) => Some(
            EntryFault::SourceControlCharacter { source_path: source, codepoint },
        ),
        None => None,
    }
}

/// The remote that an entry names, without the white space around it. A blank one
/// is refused.
pub open spec fn given_remote(remote: Option<Seq<char>>, source: Seq<char>) -> Result<
    Option<Seq<char>>,
    EntryFault,
> {
    match remote {
        None => Ok(None),
        Some(name) => if trimmed(name).len() == 0 {
            Err(EntryFault::EmptyRemote { source_path: source })
        } else {
            Ok(Some(trimmed(name)))
        },
    }
}

/// What is wrong with the first target that holds a control character.
pub open spec fn control_fault(targets: Seq<Seq<char>>) -> Option<EntryFault>
    decreases targets.len(),
{
    if targets.len() == 0 {
        None
    } else {
        match first_control(targets[0]) {
            Some(codepoint) => Some(
                EntryFault::TargetControlCharacter { target: targets[0], codepoint },
            ),
            None => control_fault(targets.drop_first()),
        }
    }
}

/// The targets of an entry: of `target` and `targets` exactly one is declared,
/// and it is not empty.
pub open spec fn given_targets(target: Option<Seq<char>>, targets: Option<Seq<Seq<char>>>) -> Result<
    Seq<Seq<char>>,
    EntryFault,
> {
    match (target, targets) {
        (Some(_), Some(_)) => Err(EntryFault::TargetAndTargets),
        (None, None) => Err(EntryFault::TargetMissing),
        (Some(single), None) => match control_fault(seq![single]) {
            Some(fault) => Err(fault),
            None => Ok(seq![single]),
        },
        (None, Some(many)) => if many.len() == 0 {
            Err(EntryFault::TargetsEmpty)
        } else {
            match control_fault(many) {
                Some(fault) => Err(fault),
                None => Ok(many),
            }
        },
    }
}

/// The mode that a word stands for in a `[[file]]`.
pub open spec fn file_mode(word: Option<Seq<char>>) -> Option<FileMode> {
    match word {
        None => Some(FileMode::Symlink),
        Some(w) => if w == "symlink"@ {
            Some(FileMode::Symlink)
        } else if w == "copy"@ {
            Some(FileMode::Copy)
        } else {
            None
        },
    }
}

/// The mode that a word stands for in a `[[directory]]`.
pub open spec fn directory_mode(word: Option<Seq<char>>) -> Option<FileMode> {
    match word {
        None => Some(FileMode::SymlinkDir),
        Some(w) => if w == "symlink"@ {
            Some(FileMode::SymlinkDir)
        } else if w == "symlink-tree"@ {
            Some(FileMode::SymlinkTree)
        } else if w == "copy"@ {
            Some(FileMode::CopyTree)
        } else {
            None
        },
    }
}

/// What a `[[file]]` declares, or the first thing that is wrong with it.
/// `tmpl` says whether its source ends in `.tmpl`.
pub open spec fn declared_file(raw: RawModel, tmpl: bool) -> Result<EntryModel, EntryFault> {
    if source_fault(raw.source) is Some {
        Err(source_fault(raw.source)->0)
    } else if raw.ignore.len() > 0 {
        Err(EntryFault::FileIgnoreDeclared { source_path: raw.source })
    } else {
        match given_remote(raw.remote, raw.source) {
            Err(fault) => Err(fault),
            Ok(remote) => match given_targets(raw.target, raw.targets) {
                Err(fault) => Err(fault),
                Ok(targets) => {
                    let template = remote is None && tmpl;
                    let entry = EntryModel {
                        kind: EntryKind::File,
                        mode: FileMode::TemplateRender,
                        source: raw.source,
                        targets,
                        when: raw.when,
                        remote,
                        ignore: Seq::empty(),
                    };
                    if template && raw.mode is Some {
                        Err(
                            EntryFault::ImplicitTemplateModeDeclared {
                                source_path: raw.source,
                                mode: raw.mode->0,
                            },
                        )
                    } else if template {
                        Ok(entry)
                    } else {
                        match file_mode(raw.mode) {
                            Some(mode) => Ok(EntryModel { mode, ..entry }),
                            None => Err(EntryFault::UnsupportedFileMode { value: raw.mode->0 }),
                        }
                    }
                },
            },
        }
    }
}

/// Whether a mode walks the tree of its source.
pub open spec fn walks_a_tree(mode: FileMode) -> bool {
    mode is SymlinkTree || mode is CopyTree
}

/// What a `[[directory]]` declares, or the first thing that is wrong with it.
/// `tmpl` says whether its source ends in `.tmpl`.
pub open spec fn declared_directory(raw: RawModel, tmpl: bool) -> Result<EntryModel, EntryFault> {
    if source_fault(raw.source) is Some {
        Err(source_fault(raw.source)->0)
    } else {
        match given_remote(raw.remote, raw.source) {
            Err(fault) => Err(fault),
            Ok(remote) => match given_targets(raw.target, raw.targets) {
                Err(fault) => Err(fault),
                Ok(targets) => if remote is None && tmpl {
                    Err(EntryFault::DirectoryTemplateSource { source_path: raw.source })
                } else {
                    match directory_mode(raw.mode) {
                        None => Err(EntryFault::UnsupportedDirectoryMode { value: raw.mode->0 }),
                        Some(mode) => if raw.ignore.len() > 0 && !walks_a_tree(mode) {
                            Err(
                                EntryFault::DirectorySymlinkIgnoreDeclared {
                                    source_path: raw.source,
                                },
                            )
                        } else {
                            Ok(
                                EntryModel {
                                    kind: EntryKind::Directory,
                                    mode,
                                    source: raw.source,
                                    targets,
                                    when: raw.when,
                                    remote,
                                    ignore: raw.ignore,
                                },
                            )
                        },
                    }
                },
            },
        }
    }
}

/// Whether an entry is one that the tables can declare: its mode is one of its
/// kind, it has a target, it leaves patterns out only of a walked tree, and it
/// renders only what is not in a remote.
pub open spec fn legal_entry(entry: EntryModel) -> bool {
    &&& entry.kind is File ==> entry.mode is Symlink || entry.mode is Copy
        || entry.mode is TemplateRender
    &&& entry.kind is Directory ==> entry.mode is SymlinkDir || walks_a_tree(entry.mode)
    &&& entry.targets.len() > 0
    &&& entry.ignore.len() > 0 ==> walks_a_tree(entry.mode)
    &&& entry.remote is Some ==> !(entry.mode is TemplateRender) && entry.remote->0.len() > 0
    &&& first_control(entry.source) is None
}

/// Every entry that a table declares is legal: no kind is paired with a mode
/// that it does not take.
pub proof fn declared_entries_are_legal(raw: RawModel, tmpl: bool)
    ensures
        declared_file(raw, tmpl) matches Ok(entry) ==> legal_entry(entry) && entry.kind is File,
        declared_directory(raw, tmpl) matches Ok(entry) ==> legal_entry(entry)
            && entry.kind is Directory,
{
}

fn check_source(source: &String) -> (r: Result<(), FileEntryError>)
    ensures
        match source_fault(source@) {
            Some(fault) => r is Err && r->Err_0@ == fault,
            None => r is Ok,
        },
{
    match first_control_character(source.as_str()) {
        Some(codepoint) => Err(
            FileEntryError::SourceControlCharacter { source_path: source.clone(), codepoint },
        ),
        None => Ok(()),
    }
}

fn resolve_remote(remote: Option<String>, source: &String) -> (r: Result<
    Option<String>,
    FileEntryError,
>)
    ensures
        match given_remote(opt_view(remote), source@) {
            Ok(name) => r is Ok && opt_view(r->Ok_0) == name,
            Err(fault) => r is Err && r->Err_0@ == fault,
        },
{
    match remote {
        None => Ok(None),
        Some(name) => {
            let name: String = trim(name.as_str());
            if is_empty(name.as_str()) {
                Err(FileEntryError::EmptyRemote { source_path: source.clone() })
            } else {
                Ok(Some(name))
            }
        },
    }
}

fn check_targets(targets: &Vec<String>) -> (r: Result<(), FileEntryError>)
    ensures
        match control_fault(views(targets@)) {
            Some(fault) => r is Err && r->Err_0@ == fault,
            None => r is Ok,
        },
{
    let ghost all = views(targets@);
    let mut i: usize = 0;
    assert(all.skip(0) =~= all);
    while i < targets.len()
        invariant
            i <= targets@.len(),
            all == views(targets@),
            control_fault(all) == control_fault(all.skip(i as int)),
        decreases targets@.len() - i,
    {
        assert(all.skip(i as int)[0] == targets@[i as int]@);
        assert(all.skip(i as int).drop_first() =~= all.skip(i + 1));
        match first_control_character(targets[i].as_str()) {
            Some(codepoint) => {
                return Err(
                    FileEntryError::TargetControlCharacter { target: targets[i].clone(), codepoint },
                );
            },
            None => {},
        }
        i = i + 1;
    }
    Ok(())
}

fn resolve_targets(target: Option<String>, targets: Option<Vec<String>>) -> (r: Result<
    Vec<String>,
    FileEntryError,
>)
    ensures
        match given_targets(opt_view(target), list_view(targets)) {
            Ok(all) => r is Ok && views(r->Ok_0@) == all,
            Err(fault) => r is Err && r->Err_0@ == fault,
        },
{
    let resolved: Vec<String> = match (target, targets) {
        (Some(_), Some(_)) => return Err(FileEntryError::TargetAndTargets),
        (None, None) => return Err(FileEntryError::TargetMissing),
        (Some(single), None) => {
            let mut one: Vec<String> = Vec::new();
            one.push(single);
            assert(views(one@) =~= seq![single@]);
            one
        },
        (None, Some(many)) => {
            if many.len() == 0 {
                return Err(FileEntryError::TargetsEmpty);
            }
            many
        },
    };
    match check_targets(&resolved) {
        Ok(()) => Ok(resolved),
        Err(e) => Err(e),
    }
}

impl ManagedEntry {
    /// Validates a `[[file]]` table.
    pub fn from_raw_file(raw: RawEntry) -> (r: Result<Self, FileEntryError>)
        ensures
            match declared_file(raw@, template_path(raw.source@)) {
                Ok(entry) => r is Ok && r->Ok_0@ == entry,
                Err(fault) => r is Err && r->Err_0@ == fault,
            },
    {
        let tmpl: bool = has_tmpl_suffix(raw.source.as_str());
        ManagedEntry::file_entry(raw, tmpl)
    }

    /// Validates a `[[file]]` table. `tmpl` says whether its source ends in
    /// `.tmpl`.
    pub fn file_entry(raw: RawEntry, tmpl: bool) -> (r: Result<Self, FileEntryError>)
        ensures
            match declared_file(raw@, tmpl) {
                Ok(entry) => r is Ok && r->Ok_0@ == entry,
                Err(fault) => r is Err && r->Err_0@ == fault,
            },
    {
        let RawEntry { source, target, targets, mode, when, remote, ignore } = raw;
        match check_source(&source) {
            Ok(()) => {},
            Err(e) => return Err(e),
        }
        assert(views(ignore@).len() == ignore@.len());
        if ignore.len() > 0 {
            return Err(FileEntryError::FileIgnoreDeclared { source_path: source });
        }
        let remote: Option<String> = match resolve_remote(remote, &source) {
            Ok(remote) => remote,
            Err(e) => return Err(e),
        };
        let policy: TemplatePolicy = match &remote {
            Some(name) => TemplatePolicy::for_source(Some(name.as_str())),
            None => TemplatePolicy::for_source(None),
        };
        let targets: Vec<String> = match resolve_targets(target, targets) {
            Ok(targets) => targets,
            Err(e) => return Err(e),
        };
        let template: bool = policy == TemplatePolicy::Implicit && tmpl;
        let mode: FileMode = match mode {
            None => {
                if template {
                    FileMode::TemplateRender
                } else {
                    FileMode::Symlink
                }
            },
            Some(word) => {
                if template {
                    return Err(
                        FileEntryError::ImplicitTemplateModeDeclared {
                            source_path: source,
                            mode: word,
                        },
                    );
                } else if same_text(word.as_str(), "symlink") {
                    FileMode::Symlink
                } else if same_text(word.as_str(), "copy") {
                    FileMode::Copy
                } else {
                    return Err(FileEntryError::UnsupportedFileMode { value: word });
                }
            },
        };
        let none: Vec<String> = Vec::new();
        assert(views(none@) =~= Seq::<Seq<char>>::empty());
        Ok(
            ManagedEntry {
                kind: EntryKind::File,
                mode,
                source,
                targets,
                when,
                remote,
                ignore: none,
            },
        )
    }

    /// Validates a `[[directory]]` table.
    pub fn from_raw_directory(raw: RawEntry) -> (r: Result<Self, FileEntryError>)
        ensures
            match declared_directory(raw@, template_path(raw.source@)) {
                Ok(entry) => r is Ok && r->Ok_0@ == entry,
                Err(fault) => r is Err && r->Err_0@ == fault,
            },
    {
        let tmpl: bool = has_tmpl_suffix(raw.source.as_str());
        ManagedEntry::directory_entry(raw, tmpl)
    }

    /// Validates a `[[directory]]` table. `tmpl` says whether its source ends in
    /// `.tmpl`.
    pub fn directory_entry(raw: RawEntry, tmpl: bool) -> (r: Result<Self, FileEntryError>)
        ensures
            match declared_directory(raw@, tmpl) {
                Ok(entry) => r is Ok && r->Ok_0@ == entry,
                Err(fault) => r is Err && r->Err_0@ == fault,
            },
    {
        let RawEntry { source, target, targets, mode, when, remote, ignore } = raw;
        match check_source(&source) {
            Ok(()) => {},
            Err(e) => return Err(e),
        }
        let remote: Option<String> = match resolve_remote(remote, &source) {
            Ok(remote) => remote,
            Err(e) => return Err(e),
        };
        let policy: TemplatePolicy = match &remote {
            Some(name) => TemplatePolicy::for_source(Some(name.as_str())),
            None => TemplatePolicy::for_source(None),
        };
        let targets: Vec<String> = match resolve_targets(target, targets) {
            Ok(targets) => targets,
            Err(e) => return Err(e),
        };
        if policy == TemplatePolicy::Implicit && tmpl {
            return Err(FileEntryError::DirectoryTemplateSource { source_path: source });
        }
        let mode: FileMode = match mode {
            None => FileMode::SymlinkDir,
            Some(word) => {
                if same_text(word.as_str(), "symlink") {
                    FileMode::SymlinkDir
                } else if same_text(word.as_str(), "symlink-tree") {
                    FileMode::SymlinkTree
                } else if same_text(word.as_str(), "copy") {
                    FileMode::CopyTree
                } else {
                    return Err(FileEntryError::UnsupportedDirectoryMode { value: word });
                }
            },
        };
        assert(views(ignore@).len() == ignore@.len());
        let walks: bool = matches!(mode, FileMode::SymlinkTree | FileMode::CopyTree);
        if ignore.len() > 0 && !walks {
            return Err(FileEntryError::DirectorySymlinkIgnoreDeclared { source_path: source });
        }
        Ok(
            ManagedEntry {
                kind: EntryKind::Directory,
                mode,
                source,
                targets,
                when,
                remote,
                ignore,
            },
        )
    }
}

} // verus!
