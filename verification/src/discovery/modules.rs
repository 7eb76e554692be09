//! The modules of a repository.
//!
//! A module is a directory right under the root that has a manifest. A manifest
//! further down is an error, and so is one of a module that declares itself the
//! root, and a root manifest that does not. Directories without a manifest are
//! passed over.

use crate::text::around;
use crate::text::joined;
use crate::text::less_text;
use crate::text::put_around;
use crate::text::text_le;
use crate::text::text_less;
use crate::text::text_order_is_total;
use crate::text::text_order_is_transitive;
use crate::utf8_path::file_name;
use crate::utf8_path::join_path;
use crate::utf8_path::path_joined;
use crate::utf8_path::path_name;
use vstd::prelude::*;

verus! {

/// The name of a manifest.
pub const MANIFEST_FILENAME: &'static str = "patina.toml";

/// A module.
#[derive(Debug, Clone, PartialEq, Eq)]
pub struct ModuleHandle {
    /// The name of its directory.
    pub name: String,
    /// Its directory.
    pub path: String,
}

/// A module with its texts as sequences of characters.
#[verifier::ext_equal]
pub ghost struct HandleModel {
    /// The name of its directory.
    pub name: Seq<char>,
    /// Its directory.
    pub path: Seq<char>,
}

impl View for ModuleHandle {
    type V = HandleModel;

    open spec fn view(&self) -> HandleModel {
        HandleModel { name: self.name@, path: self.path@ }
    }
}

/// The models of a row of modules.
pub open spec fn handle_models(handles: Seq<ModuleHandle>) -> Seq<HandleModel> {
    handles.map_values(|h: ModuleHandle| h@)
}

/// Errors of a search for modules.
#[derive(Debug, Clone, PartialEq, Eq)]
#[non_exhaustive]
pub enum ModuleDiscoveryError {
    /// A manifest lies too deep.
    MaximumModuleDepth {
        /// The manifest.
        path: String,
    },
    /// A module declares itself the root.
    UnexpectedRootKey {
        /// The manifest.
        path: String,
    },
    /// The root does not declare itself the root.
    MissingRootKey {
        /// The manifest.
        path: String,
    },
    /// Something could not be read.
    Io {
        /// What was read.
        path: String,
        /// What went wrong.
        message: String,
    },
    /// A manifest is no TOML.
    Parse {
        /// The manifest.
        path: String,
        /// What went wrong.
        message: String,
    },
}

/// An error with its texts as sequences of characters.
#[verifier::ext_equal]
pub ghost enum ModuleFault {
    /// A manifest lies too deep.
    MaximumModuleDepth {
        /// The manifest.
        path: Seq<char>,
    },
    /// A module declares itself the root.
    UnexpectedRootKey {
        /// The manifest.
        path: Seq<char>,
    },
    /// The root does not declare itself the root.
    MissingRootKey {
        /// The manifest.
        path: Seq<char>,
    },
    /// Something could not be read.
    Io {
        /// What was read.
        path: Seq<char>,
        /// What went wrong.
        message: Seq<char>,
    },
    /// A manifest is no TOML.
    Parse {
        /// The manifest.
        path: Seq<char>,
        /// What went wrong.
        message: Seq<char>,
    },
}

impl View for ModuleDiscoveryError {
    type V = ModuleFault;

    open spec fn view(&self) -> ModuleFault {
        match *self {
            ModuleDiscoveryError::MaximumModuleDepth { path } => ModuleFault::MaximumModuleDepth {
                path: path@,
            },
            ModuleDiscoveryError::UnexpectedRootKey { path } => ModuleFault::UnexpectedRootKey {
                path: path@,
            },
            ModuleDiscoveryError::MissingRootKey { path } => ModuleFault::MissingRootKey {
                path: path@,
            },
            ModuleDiscoveryError::Io { path, message } => ModuleFault::Io {
                path: path@,
                message: message@,
            },
            ModuleDiscoveryError::Parse { path, message } => ModuleFault::Parse {
                path: path@,
                message: message@,
            },
        }
    }
}

impl ModuleFault {
    /// The error in words.
    pub open spec fn words(self) -> Seq<char> {
        match self {
            ModuleFault::MaximumModuleDepth { path } => path
                + ": maximum module depth (1) exceeded; modules must live in immediate subdirectories of the repository root"@,
            ModuleFault::UnexpectedRootKey { path } => path
                + ": unexpected `root = true` key; only the repository-root patina.toml may declare `root`"@,
            ModuleFault::MissingRootKey { path } => path
                + ": missing `root = true` in `[patina]` table; the repository-root manifest must declare it"@,
            ModuleFault::Io { path, message } => around("failed to read "@, path, ": "@) + message,
            ModuleFault::Parse { path, message } => around(
                "failed to parse "@,
                path,
                " as TOML: "@,
            ) + message,
        }
    }
}

impl ModuleDiscoveryError {
    /// The error in words.
    pub fn message(&self) -> (r: String)
        ensures
            r@ == self@.words(),
    {
        match self {
            ModuleDiscoveryError::MaximumModuleDepth { path } => joined(
                path.as_str(),
                ": maximum module depth (1) exceeded; modules must live in immediate subdirectories of the repository root",
            ),
            ModuleDiscoveryError::UnexpectedRootKey { path } => joined(
                path.as_str(),
                ": unexpected `root = true` key; only the repository-root patina.toml may declare `root`",
            ),
            ModuleDiscoveryError::MissingRootKey { path } => joined(
                path.as_str(),
                ": missing `root = true` in `[patina]` table; the repository-root manifest must declare it",
            ),
            ModuleDiscoveryError::Io { path, message } => {
                let head: String = put_around("failed to read ", path.as_str(), ": ");
                joined(head.as_str(), message.as_str())
            },
            ModuleDiscoveryError::Parse { path, message } => {
                let head: String = put_around("failed to parse ", path.as_str(), " as TOML: ");
                joined(head.as_str(), message.as_str())
            },
        }
    }
}

/// What reading the head of a manifest gave.
#[derive(Debug, Clone, PartialEq, Eq)]
pub enum ManifestHead {
    /// Whether it declares itself the root, or that it says nothing of this.
    Read {
        /// `root` in its `[patina]` table.
        root: Option<bool>,
    },
    /// It could not be read.
    Unreadable {
        /// What went wrong.
        message: String,
    },
    /// It is no TOML.
    Malformed {
        /// What went wrong.
        message: String,
    },
}

/// Whether a manifest declares itself the root.
pub open spec fn declares_root(head: ManifestHead) -> bool {
    head matches ManifestHead::Read { root } && root == Some(true)
}

/// The error for a head that could not be read.
pub open spec fn head_fault(path: Seq<char>, head: ManifestHead) -> Option<ModuleFault> {
    match head {
        ManifestHead::Read { root } => None,
        ManifestHead::Unreadable { message } => Some(ModuleFault::Io { path, message: message@ }),
        ManifestHead::Malformed { message } => Some(
            ModuleFault::Parse { path, message: message@ },
        ),
    }
}

impl ManifestHead {
    /// Whether the manifest declares itself the root.
    pub fn is_root(&self) -> (r: bool)
        ensures
            r == declares_root(*self),
    {
        match self {
            ManifestHead::Read { root: Some(root) } => *root,
            _ => false,
        }
    }

    /// The error for a head that could not be read.
    fn fault(&self, path: &str) -> (r: Option<ModuleDiscoveryError>)
        ensures
            match head_fault(path@, *self) {
                Some(fault) => r matches Some(e) && e@ == fault,
                None => r is None,
            },
    {
        match self {
            ManifestHead::Read { root: _ } => None,
            ManifestHead::Unreadable { message } => Some(
                ModuleDiscoveryError::Io { path: path.to_owned(), message: message.clone() },
            ),
            ManifestHead::Malformed { message } => Some(
                ModuleDiscoveryError::Parse { path: path.to_owned(), message: message.clone() },
            ),
        }
    }
}

/// A directory below a module, or what went wrong where one was looked for.
#[derive(Debug, PartialEq, Eq)]
pub enum TreeEntry {
    /// A directory.
    Directory {
        /// Its path.
        path: String,
        /// Whether it has a manifest.
        manifest: bool,
        /// What it holds, in the order of the listing.
        children: Vec<TreeEntry>,
    },
    /// A listing that failed.
    Fault {
        /// The directory that was listed.
        path: String,
        /// What went wrong.
        message: String,
    },
}

/// The path of the manifest of a directory.
pub open spec fn manifest_path(dir: Seq<char>) -> Seq<char> {
    path_joined(dir, MANIFEST_FILENAME@)
}

/// What is wrong below a directory: the first manifest or failed listing, in the
/// order of the listings, each directory before the next one.
pub open spec fn deep_fault(children: Seq<TreeEntry>) -> Option<ModuleFault>
    decreases children,
{
    if children.len() == 0 {
        None
    } else {
        match children[0] {
            TreeEntry::Fault { path, message } => Some(
                ModuleFault::Io { path: path@, message: message@ },
            ),
            TreeEntry::Directory { path, manifest, children: below } => if manifest {
                Some(ModuleFault::MaximumModuleDepth { path: manifest_path(path@) })
            } else {
                match deep_fault(below@) {
                    Some(fault) => Some(fault),
                    None => deep_fault(children.subrange(1, children.len() as int)),
                }
            },
        }
    }
}

/// Looks for a manifest below a module.
pub fn check_no_deep_manifests(children: &Vec<TreeEntry>) -> (r: Result<(), ModuleDiscoveryError>)
    ensures
        match deep_fault(children@) {
            Some(fault) => r matches Err(e) && e@ == fault,
            None => r is Ok,
        },
    decreases children,
{
    let mut i: usize = 0;
    let ghost all = children@;
    assert(all.subrange(0, all.len() as int) =~= all);
    while i < children.len()
        invariant
            i <= children@.len(),
            all == children@,
            deep_fault(all) == deep_fault(all.subrange(i as int, all.len() as int)),
        decreases children@.len() - i,
    {
        let ghost rest = all.subrange(i as int, all.len() as int);
        proof {
            assert(rest[0] == children@[i as int]);
            assert(rest.subrange(1, rest.len() as int) =~= all.subrange(i + 1, all.len() as int));
        }
        match &children[i] {
            TreeEntry::Fault { path, message } => {
                return Err(
                    ModuleDiscoveryError::Io { path: path.clone(), message: message.clone() },
                );
            },
            TreeEntry::Directory { path, manifest, children: below } => {
                if *manifest {
                    return Err(
                        ModuleDiscoveryError::MaximumModuleDepth {
                            path: join_path(path.as_str(), MANIFEST_FILENAME),
                        },
                    );
                }
                match check_no_deep_manifests(below) {
                    Ok(_) => {},
                    Err(e) => return Err(e),
                }
            },
        }
        i = i + 1;
    }
    Ok(())
}

/// A directory right under the root, or what went wrong where one was looked for.
#[derive(Debug, PartialEq, Eq)]
pub enum ModuleEntry {
    /// A directory.
    Directory {
        /// Its path.
        path: String,
        /// The head of its manifest, if it has one.
        head: Option<ManifestHead>,
        /// What it holds, in the order of the listing.
        children: Vec<TreeEntry>,
    },
    /// A listing that failed.
    Fault {
        /// What went wrong.
        message: String,
    },
}

/// The words for a directory without a name.
pub const NO_NAME: &'static str = "subdirectory has no file name component";

/// What a directory right under `root` is: a module, nothing, or an error. `name` is
/// the name that its path ends in.
pub open spec fn module_of(root: Seq<char>, entry: ModuleEntry, name: Option<Seq<char>>) -> Result<
    Option<HandleModel>,
    ModuleFault,
> {
    match entry {
        ModuleEntry::Fault { message } => Err(ModuleFault::Io { path: root, message: message@ }),
        ModuleEntry::Directory { path, head, children } => match deep_fault(children@) {
            Some(fault) => Err(fault),
            None => match head {
                None => Ok(None),
                Some(h) => match head_fault(manifest_path(path@), h) {
                    Some(fault) => Err(fault),
                    None => if declares_root(h) {
                        Err(ModuleFault::UnexpectedRootKey { path: manifest_path(path@) })
                    } else {
                        match name {
                            Some(n) => Ok(Some(HandleModel { name: n, path: path@ })),
                            None => Err(ModuleFault::Io { path: path@, message: NO_NAME@ }),
                        }
                    },
                },
            },
        },
    }
}

/// The name that the path of a directory right under the root ends in.
pub open spec fn entry_name(entry: ModuleEntry) -> Option<Seq<char>> {
    match entry {
        ModuleEntry::Directory { path, head, children } => path_name(path@),
        ModuleEntry::Fault { message } => None,
    }
}

/// The modules among a row of directories right under `root`, in order, or the
/// first error.
pub open spec fn modules_of(root: Seq<char>, entries: Seq<ModuleEntry>) -> Result<
    Seq<HandleModel>,
    ModuleFault,
>
    decreases entries.len(),
{
    if entries.len() == 0 {
        Ok(Seq::empty())
    } else {
        match modules_of(root, entries.drop_last()) {
            Err(fault) => Err(fault),
            Ok(before) => match module_of(root, entries.last(), entry_name(entries.last())) {
                Err(fault) => Err(fault),
                Ok(None) => Ok(before),
                Ok(Some(module)) => Ok(before.push(module)),
            },
        }
    }
}

fn check_module(root: &str, entry: &ModuleEntry) -> (r: Result<
    Option<ModuleHandle>,
    ModuleDiscoveryError,
>)
    ensures
        match module_of(root@, *entry, entry_name(*entry)) {
            Err(fault) => r matches Err(e) && e@ == fault,
            Ok(None) => r matches Ok(None),
            Ok(Some(module)) => r matches Ok(Some(h)) && h@ == module,
        },
{
    match entry {
        ModuleEntry::Fault { message } => Err(
            ModuleDiscoveryError::Io { path: root.to_owned(), message: message.clone() },
        ),
        ModuleEntry::Directory { path, head, children } => {
            match check_no_deep_manifests(children) {
                Ok(_) => {},
                Err(e) => return Err(e),
            }
            let head: &ManifestHead = match head {
                Some(head) => head,
                None => return Ok(None),
            };
            let manifest: String = join_path(path.as_str(), MANIFEST_FILENAME);
            match head.fault(manifest.as_str()) {
                Some(e) => return Err(e),
                None => {},
            }
            if head.is_root() {
                return Err(ModuleDiscoveryError::UnexpectedRootKey { path: manifest });
            }
            match file_name(path.as_str()) {
                Some(name) => Ok(Some(ModuleHandle { name, path: path.clone() })),
                None => Err(
                    ModuleDiscoveryError::Io { path: path.clone(), message: NO_NAME.to_owned() },
                ),
            }
        },
    }
}

/// Whether a row of modules is sorted by name.
pub open spec fn sorted_by_name(handles: Seq<HandleModel>) -> bool {
    forall|i: int, j: int|
        0 <= i < j < handles.len() ==> text_le(
            (#[trigger] handles[i]).name,
            (#[trigger] handles[j]).name,
        )
}

/// Puts `handle` in front of the first module with a greater name.
fn insert_by_name(handles: &mut Vec<ModuleHandle>, handle: ModuleHandle)
    requires
        sorted_by_name(handle_models(old(handles)@)),
    ensures
        sorted_by_name(handle_models(final(handles)@)),
        handle_models(final(handles)@).to_multiset() == handle_models(
            old(handles)@,
        ).to_multiset().insert(handle@),
{
    let ghost before = handle_models(handles@);
    let ghost h = handle@;
    let mut i: usize = handles.len();
    while i > 0 && less_text(handle.name.as_str(), handles[i - 1].name.as_str())
        invariant
            i <= handles@.len(),
            before == handle_models(handles@),
            h == handle@,
            forall|k: int| i <= k < before.len() ==> text_less(h.name, (#[trigger] before[k]).name),
        decreases i,
    {
        i = i - 1;
        assert(before[i as int].name == handles@[i as int].name@);
    }
    handles.insert(i, handle);
    proof {
        let after = handle_models(handles@);
        assert(after =~= before.insert(i as int, h));
        before.to_multiset_ensures();
        assert forall|a: int, b: int| 0 <= a < b < after.len() implies text_le(
            (#[trigger] after[a]).name,
            (#[trigger] after[b]).name,
        ) by {
            if a < i && b > i {
                assert(after[a] == before[a] && after[b] == before[b - 1]);
            } else if a < i && b < i {
                assert(after[a] == before[a] && after[b] == before[b]);
            } else if a > i {
                assert(after[a] == before[a - 1] && after[b] == before[b - 1]);
            } else if a == i {
                assert(after[b] == before[b - 1]);
                assert(text_less(h.name, before[b - 1].name));
            } else {
                assert(after[a] == before[a]);
                text_order_is_total(before[i - 1].name, h.name);
                assert(text_le(before[i - 1].name, h.name));
                if a < i - 1 {
                    assert(text_le(before[a].name, before[i - 1].name));
                    if before[a].name != before[i - 1].name && before[i - 1].name != h.name {
                        text_order_is_transitive(before[a].name, before[i - 1].name, h.name);
                    }
                }
            }
        }
        insert_adds_one(before, i as int, h);
    }
}

proof fn insert_adds_one(s: Seq<HandleModel>, i: int, h: HandleModel)
    requires
        0 <= i <= s.len(),
    ensures
        s.insert(i, h).to_multiset() =~= s.to_multiset().insert(h),
{
    s.to_multiset_ensures();
    vstd::seq_lib::to_multiset_insert(s, i, h);
}

/// The modules of the repository at `root`, sorted by name, or the first thing that
/// is wrong. `head` is the head of the root manifest, and `entries` are the
/// directories right under the root in the order of the listing.
pub fn discover_modules(root: &str, head: &ManifestHead, entries: &Vec<ModuleEntry>) -> (r: Result<
    Vec<ModuleHandle>,
    ModuleDiscoveryError,
>)
    ensures
        match head_fault(manifest_path(root@), *head) {
            Some(fault) => r matches Err(e) && e@ == fault,
            None => if !declares_root(*head) {
                r matches Err(e) && e@ == (ModuleFault::MissingRootKey {
                    path: manifest_path(root@),
                })
            } else {
                match modules_of(root@, entries@) {
                    Err(fault) => r matches Err(e) && e@ == fault,
                    Ok(modules) => r matches Ok(handles) && sorted_by_name(handle_models(handles@))
                        && handle_models(handles@).to_multiset() == modules.to_multiset(),
                }
            },
        },
{
    let manifest: String = join_path(root, MANIFEST_FILENAME);
    match head.fault(manifest.as_str()) {
        Some(e) => return Err(e),
        None => {},
    }
    if !head.is_root() {
        return Err(ModuleDiscoveryError::MissingRootKey { path: manifest });
    }
    let ghost all = entries@;
    let mut handles: Vec<ModuleHandle> = Vec::new();
    let ghost mut found: Seq<HandleModel> = Seq::empty();
    assert(handle_models(handles@) =~= found);
    let mut i: usize = 0;
    while i < entries.len()
        invariant
            i <= entries@.len(),
            all == entries@,
            modules_of(root@, all.take(i as int)) == Ok::<Seq<HandleModel>, ModuleFault>(found),
            sorted_by_name(handle_models(handles@)),
            handle_models(handles@).to_multiset() == found.to_multiset(),
            manifest_path(root@) == manifest@,
            head_fault(manifest@, *head) is None,
            declares_root(*head),
        decreases entries@.len() - i,
    {
        proof {
            assert(all.take(i + 1).drop_last() =~= all.take(i as int));
            assert(all.take(i + 1).last() == entries@[i as int]);
        }
        match check_module(root, &entries[i]) {
            Ok(None) => {},
            Ok(Some(handle)) => {
                proof {
                    found.to_multiset_ensures();
                    found = found.push(handle@);
                }
                insert_by_name(&mut handles, handle);
            },
            Err(e) => {
                proof {
                    error_stays(root@, all, i + 1);
                    assert(all.take(all.len() as int) =~= all);
                }
                return Err(e);
            },
        }
        i = i + 1;
    }
    assert(all.take(i as int) =~= all);
    Ok(handles)
}

/// An error among the first directories is the error of all of them.
proof fn error_stays(root: Seq<char>, entries: Seq<ModuleEntry>, n: int)
    requires
        0 <= n <= entries.len(),
        modules_of(root, entries.take(n)) is Err,
    ensures
        modules_of(root, entries) == modules_of(root, entries.take(n)),
    decreases entries.len(),
{
    if n < entries.len() {
        let front = entries.drop_last();
        assert(front.take(n) =~= entries.take(n));
        error_stays(root, front, n);
    } else {
        assert(entries.take(n) =~= entries);
    }
}

} // verus!
