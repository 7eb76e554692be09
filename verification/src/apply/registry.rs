//! Where the source of an entry lies.
//!
//! An entry without a remote is in its module. One with a remote is in the
//! checkout of the revision that the lockfile pins: the pin holds for every
//! machine, the checkout is made on this one when an active entry first needs it.
//! An apply fetches what is missing. Status never does: what it cannot find here
//! has no source root, and it goes on.

use crate::caseless::folded;
use crate::config::EntryKind;
use crate::config::ManagedEntry;
use crate::config::remote::RemoteName;
use crate::config::remote::RemoteSpec;
use crate::config::remote::name_key;
use crate::error::EngineError;
use crate::path_order::is_under;
use crate::path_order::path_under;
use crate::paths::PathError;
use crate::text::around;
use crate::text::opt_view;
use crate::text::put_around;
use crate::text::same_text;
use crate::utf8_path::join_path;
use crate::utf8_path::path_joined;
use super::planning::kind_fault;
use super::planning::says_kind;
use super::planning::validate_source_kind;
use vstd::prelude::*;

verus! {

/// Whether a missing checkout may be fetched.
#[derive(Debug, Clone, Copy, PartialEq, Eq, Structural)]
pub enum CachePolicy {
    /// It is, as an apply needs.
    Fetch,
    /// It is not, as status must not touch the network.
    ReadOnly,
}

/// Errors of remotes.
#[derive(Debug, Clone, PartialEq, Eq)]
#[non_exhaustive]
pub enum RemoteError {
    /// An entry names a remote that the root manifest does not declare.
    Undeclared {
        /// The name.
        name: String,
    },
    /// A remote has no pin in the lockfile.
    MissingLockEntry {
        /// The name.
        name: String,
    },
    /// The lockfile cannot be read.
    Lockfile {
        /// What went wrong.
        message: String,
    },
    /// A checkout is not on this machine.
    CheckoutNotMaterialized {
        /// The name.
        name: String,
    },
    /// A source lies outside the checkout of its remote.
    SourceEscapesCheckout {
        /// The name.
        name: String,
        /// The source as it was written.
        source_path: String,
    },
    /// A checkout holds a symbolic link.
    SymlinkInCheckout {
        /// The name.
        name: String,
        /// The link.
        path: String,
    },
}

impl RemoteError {
    /// The error in words.
    pub open spec fn words(self) -> Seq<char> {
        match self {
            RemoteError::Undeclared { name } => around(
                "an entry names the remote `"@,
                name@,
                "`, which no [[remote]] table of the root patina.toml declares"@,
            ),
            RemoteError::MissingLockEntry { name } => around(
                "the remote `"@,
                name@,
                around(
                    "` has no pin in patina.lock; run `patina remote update "@,
                    name@,
                    "` to pin it"@,
                ),
            ),
            RemoteError::Lockfile { message } => message@,
            RemoteError::CheckoutNotMaterialized { name } => around(
                "the checkout of the remote `"@,
                name@,
                "` is not on this machine"@,
            ),
            RemoteError::SourceEscapesCheckout { name, source_path } => around(
                "the source `"@,
                source_path@,
                around("` leads out of the checkout of the remote `"@, name@, "`"@),
            ),
            RemoteError::SymlinkInCheckout { name, path } => around(
                "the checkout of the remote `"@,
                name@,
                around("` holds a symbolic link at "@, path@, "; it is not followed"@),
            ),
        }
    }

    /// The error in words.
    pub fn message(&self) -> (r: String)
        ensures
            r@ == self.words(),
    {
        match self {
            RemoteError::Undeclared { name } => put_around(
                "an entry names the remote `",
                name.as_str(),
                "`, which no [[remote]] table of the root patina.toml declares",
            ),
            RemoteError::MissingLockEntry { name } => {
                let tail: String = put_around(
                    "` has no pin in patina.lock; run `patina remote update ",
                    name.as_str(),
                    "` to pin it",
                );
                put_around("the remote `", name.as_str(), tail.as_str())
            },
            RemoteError::Lockfile { message } => message.clone(),
            RemoteError::CheckoutNotMaterialized { name } => put_around(
                "the checkout of the remote `",
                name.as_str(),
                "` is not on this machine",
            ),
            RemoteError::SourceEscapesCheckout { name, source_path } => {
                let tail: String = put_around(
                    "` leads out of the checkout of the remote `",
                    name.as_str(),
                    "`",
                );
                put_around("the source `", source_path.as_str(), tail.as_str())
            },
            RemoteError::SymlinkInCheckout { name, path } => {
                let tail: String = put_around(
                    "` holds a symbolic link at ",
                    path.as_str(),
                    "; it is not followed",
                );
                put_around("the checkout of the remote `", name.as_str(), tail.as_str())
            },
        }
    }
}

/// The pin of a remote.
#[derive(Debug, Clone, PartialEq, Eq)]
pub struct Pin {
    /// The remote.
    pub name: RemoteName,
    /// The revision.
    pub rev: String,
}

/// The pins of the committed lockfile.
#[derive(Debug, Clone, PartialEq, Eq)]
pub struct Lockfile {
    /// The pins.
    pub pins: Vec<Pin>,
}

/// The revision that the first pin of a name holds.
pub open spec fn pinned(pins: Seq<Pin>, name: Seq<char>) -> Option<Seq<char>>
    decreases pins.len(),
{
    if pins.len() == 0 {
        None
    } else if folded(pins[0].name@) == folded(name) {
        Some(pins[0].rev@)
    } else {
        pinned(pins.drop_first(), name)
    }
}

impl Lockfile {
    /// The revision that `name` is pinned to, however it is spelled.
    pub fn get(&self, name: &RemoteName) -> (rev: Option<&String>)
        ensures
            match rev {
                Some(r) => pinned(self.pins@, name@) == Some(r@),
                None => pinned(self.pins@, name@) is None,
            },
    {
        let mut i: usize = 0;
        assert(self.pins@.skip(0) =~= self.pins@);
        while i < self.pins.len()
            invariant
                i <= self.pins@.len(),
                pinned(self.pins@, name@) == pinned(self.pins@.skip(i as int), name@),
            decreases self.pins@.len() - i,
        {
            assert(self.pins@.skip(i as int).drop_first() =~= self.pins@.skip(i + 1));
            if self.pins[i].name.matches(name.as_str()) {
                return Some(&self.pins[i].rev);
            }
            i = i + 1;
        }
        None
    }
}

/// The names of a row of remotes.
pub open spec fn name_views(names: Seq<RemoteName>) -> Seq<Seq<char>> {
    names.map_values(|n: RemoteName| n@)
}

/// The pinned revisions of the names of a row that have a pin, in order.
pub open spec fn pins_of(names: Seq<Seq<char>>, pins: Seq<Pin>) -> Seq<(Seq<char>, Seq<char>)>
    decreases names.len(),
{
    if names.len() == 0 {
        Seq::empty()
    } else {
        let before = pins_of(names.drop_last(), pins);
        match pinned(pins, names.last()) {
            Some(rev) => before.push((names.last(), rev)),
            None => before,
        }
    }
}

/// Names and revisions as sequences of characters.
pub open spec fn pin_views(pins: Seq<(RemoteName, String)>) -> Seq<(Seq<char>, Seq<char>)> {
    pins.map_values(|p: (RemoteName, String)| (p.0@, p.1@))
}

/// The declared remotes that have a pin, each with its revision, in order.
pub fn declared_pins(declared: &Vec<RemoteName>, lockfile: &Lockfile) -> (r: Vec<
    (RemoteName, String),
>)
    ensures
        pin_views(r@) == pins_of(name_views(declared@), lockfile.pins@),
{
    let ghost names = name_views(declared@);
    let mut r: Vec<(RemoteName, String)> = Vec::new();
    assert(pin_views(r@) =~= Seq::<(Seq<char>, Seq<char>)>::empty());
    let mut i: usize = 0;
    while i < declared.len()
        invariant
            i <= declared@.len(),
            names == name_views(declared@),
            pin_views(r@) == pins_of(names.take(i as int), lockfile.pins@),
        decreases declared@.len() - i,
    {
        let ghost before = pin_views(r@);
        proof {
            assert(names.take(i + 1).drop_last() =~= names.take(i as int));
            assert(names.take(i + 1).last() == declared@[i as int]@);
        }
        match lockfile.get(&declared[i]) {
            Some(rev) => {
                let name: RemoteName = declared[i].clone();
                let rev: String = rev.clone();
                let ghost pair = (name@, rev@);
                r.push((name, rev));
                assert(pin_views(r@) =~= before.push(pair));
            },
            None => {},
        }
        i = i + 1;
    }
    assert(names.take(i as int) =~= names);
    r
}

/// The place of the first declared remote that a spelling stands for, or the
/// length of the row.
pub open spec fn place_named(declared: Seq<RemoteSpec>, name: Seq<char>) -> nat
    decreases declared.len(),
{
    if declared.len() == 0 || folded(declared[0].name@) == folded(name) {
        0
    } else {
        1 + place_named(declared.drop_first(), name)
    }
}

/// The place of the declared remote that an entry names. Where none is declared,
/// an apply is refused, and status goes on without a source root.
pub fn find_remote(declared: &Vec<RemoteSpec>, name: &str, policy: CachePolicy) -> (r: Result<
    Option<usize>,
    RemoteError,
>)
    ensures
        ({
            let place = place_named(declared@, name@);
            if place < declared@.len() {
                r == Ok::<Option<usize>, RemoteError>(Some(place as usize))
            } else if policy is ReadOnly {
                r == Ok::<Option<usize>, RemoteError>(None)
            } else {
                r matches Err(RemoteError::Undeclared { name: n }) && n@ == name@
            }
        }),
        r matches Ok(Some(i)) ==> i < declared@.len() && i == place_named(declared@, name@),
{
    let mut i: usize = 0;
    assert(declared@.skip(0) =~= declared@);
    while i < declared.len()
        invariant
            i <= declared@.len(),
            place_named(declared@, name@) == i + place_named(declared@.skip(i as int), name@),
        decreases declared@.len() - i,
    {
        assert(declared@.skip(i as int).drop_first() =~= declared@.skip(i + 1));
        if declared[i].name.matches(name) {
            return Ok(Some(i));
        }
        i = i + 1;
    }
    match policy {
        CachePolicy::ReadOnly => Ok(None),
        CachePolicy::Fetch => Err(RemoteError::Undeclared { name: name.to_owned() }),
    }
}

/// What the lockfile says of a remote.
#[derive(Debug, Clone, PartialEq, Eq)]
pub enum PinLookup {
    /// It cannot be read.
    Unreadable {
        /// What went wrong.
        message: String,
    },
    /// It has no pin.
    Missing,
    /// It has one.
    Pinned {
        /// The revision.
        rev: String,
    },
}

/// How the checkout of a remote is come by.
#[derive(Debug, Clone, PartialEq, Eq)]
pub enum CheckoutStep {
    /// There is no source root.
    NoRoot,
    /// The checkout of the revision is used if it is here.
    Probe {
        /// The revision.
        rev: String,
    },
    /// The checkout of the revision is made if it is not here.
    Ensure {
        /// The revision.
        rev: String,
    },
}

/// How status comes by a checkout: it uses the one that is here, if any.
pub open spec fn read_only_step(pin: PinLookup) -> CheckoutStep {
    match pin {
        PinLookup::Pinned { rev } => CheckoutStep::Probe { rev },
        _ => CheckoutStep::NoRoot,
    }
}

/// How the checkout of the declared remote `name` is come by. Status goes on
/// without a source root where an apply is refused: losing the whole report over
/// one remote would hide what can be reported.
pub fn materialize(name: &RemoteName, policy: CachePolicy, pin: PinLookup) -> (r: Result<
    CheckoutStep,
    RemoteError,
>)
    ensures
        policy is ReadOnly ==> r == Ok::<CheckoutStep, RemoteError>(read_only_step(pin)),
        policy is Fetch ==> match pin {
            PinLookup::Pinned { rev } => r == Ok::<CheckoutStep, RemoteError>(
                CheckoutStep::Ensure { rev },
            ),
            PinLookup::Missing => r matches Err(RemoteError::MissingLockEntry { name: n }) && n@
                == name@,
            PinLookup::Unreadable { message } => r == Err::<CheckoutStep, RemoteError>(
                RemoteError::Lockfile { message },
            ),
        },
{
    match policy {
        CachePolicy::ReadOnly => match pin {
            PinLookup::Pinned { rev } => Ok(CheckoutStep::Probe { rev }),
            _ => Ok(CheckoutStep::NoRoot),
        },
        CachePolicy::Fetch => match pin {
            PinLookup::Pinned { rev } => Ok(CheckoutStep::Ensure { rev }),
            PinLookup::Missing => Err(
                RemoteError::MissingLockEntry { name: name.as_str().to_owned() },
            ),
            PinLookup::Unreadable { message } => Err(RemoteError::Lockfile { message }),
        },
    }
}

/// Status never asks for a checkout to be made.
pub proof fn read_only_never_fetches(pin: PinLookup)
    ensures
        !(read_only_step(pin) is Ensure),
{
}

/// The checkouts that were already come by, so that a remote which several entries
/// name, however they spell it, is looked up once.
#[derive(Debug, Clone, PartialEq, Eq)]
pub struct Checkouts {
    known: Vec<(String, Option<String>)>,
}

impl View for Checkouts {
    type V = Map<Seq<char>, Option<Seq<char>>>;

    closed spec fn view(&self) -> Map<Seq<char>, Option<Seq<char>>> {
        known_checkouts(self.known@)
    }
}

/// What a row of pairs holds under each key: the first pair of a key counts.
pub open spec fn known_checkouts(known: Seq<(String, Option<String>)>) -> Map<
    Seq<char>,
    Option<Seq<char>>,
>
    decreases known.len(),
{
    if known.len() == 0 {
        Map::empty()
    } else {
        known_checkouts(known.drop_first()).insert(known[0].0@, opt_view(known[0].1))
    }
}

impl Checkouts {
    /// No checkout.
    pub fn new() -> (r: Self)
        ensures
            r@ == Map::<Seq<char>, Option<Seq<char>>>::empty(),
    {
        Checkouts { known: Vec::new() }
    }

    /// What is known of the remote that `name` stands for.
    pub fn get(&self, name: &str) -> (r: Option<&Option<String>>)
        ensures
            match r {
                Some(checkout) => self@.contains_key(folded(name@)) && self@[folded(name@)]
                    == opt_view(*checkout),
                None => !self@.contains_key(folded(name@)),
            },
    {
        let key: String = name_key(name);
        let mut i: usize = 0;
        assert(self.known@.skip(0) =~= self.known@);
        while i < self.known.len()
            invariant
                i <= self.known@.len(),
                key@ == folded(name@),
                self@ == known_checkouts(self.known@),
                known_checkouts(self.known@).contains_key(key@) == known_checkouts(
                    self.known@.skip(i as int),
                ).contains_key(key@),
                known_checkouts(self.known@).contains_key(key@) ==> known_checkouts(
                    self.known@,
                )[key@] == known_checkouts(self.known@.skip(i as int))[key@],
            decreases self.known@.len() - i,
        {
            assert(self.known@.skip(i as int).drop_first() =~= self.known@.skip(i + 1));
            if same_text(self.known[i].0.as_str(), key.as_str()) {
                return Some(&self.known[i].1);
            }
            i = i + 1;
        }
        None
    }

    /// Notes the checkout of the remote that `name` stands for.
    pub fn insert(&mut self, name: &str, checkout: Option<String>)
        ensures
            final(self)@ == old(self)@.insert(folded(name@), opt_view(checkout)),
    {
        let ghost before = self.known@;
        self.known.insert(0, (name_key(name), checkout));
        assert(self.known@.drop_first() =~= before);
    }
}

/// Where the source of an entry lies.
#[derive(Debug, Clone, PartialEq, Eq)]
pub struct EntryOrigin {
    /// The directory that the source is relative to, or `None` for a checkout that
    /// is not on this machine.
    pub source_root: Option<String>,
    /// The remote that the entry names.
    pub remote: Option<String>,
}

/// The directory that the source of an entry is relative to.
pub open spec fn root_of(origin: EntryOrigin) -> Seq<char> {
    match origin.source_root {
        Some(root) => root@,
        None => "."@,
    }
}

/// The directory that the source of an entry is relative to. A checkout that is
/// not here is refused, and the working directory stands in for a module without
/// one.
pub fn source_root(origin: &EntryOrigin) -> (r: Result<String, RemoteError>)
    ensures
        match (origin.source_root, origin.remote) {
            (Some(root), _) => r is Ok && r->Ok_0@ == root@,
            (None, Some(remote)) => r matches Err(RemoteError::CheckoutNotMaterialized { name })
                && name@ == remote@,
            (None, None) => r is Ok && r->Ok_0@ == "."@,
        },
{
    match (&origin.source_root, &origin.remote) {
        (Some(root), _) => Ok(root.clone()),
        (None, Some(remote)) => Err(RemoteError::CheckoutNotMaterialized { name: remote.clone() }),
        (None, None) => Ok(".".to_owned()),
    }
}

/// The path of the source of an entry, before the filesystem resolves it: the declared
/// source under the directory that it is relative to. A checkout that is not here is
/// refused.
pub fn source_path(origin: &EntryOrigin, source: &str) -> (r: Result<String, RemoteError>)
    ensures
        if origin.source_root is None && origin.remote is Some {
            r matches Err(RemoteError::CheckoutNotMaterialized { name }) && Some(name@) == opt_view(
                origin.remote,
            )
        } else {
            r matches Ok(path) && path@ == path_joined(root_of(*origin), source@)
        },
{
    match source_root(origin) {
        Ok(root) => Ok(join_path(root.as_str(), source)),
        Err(e) => Err(e),
    }
}

/// Where the source of `entry` lies: under the directory of its module, or, where it
/// names a remote, under the checkout of that remote. `checkout` is the directory of the
/// checkout, if it is on this machine, and is not looked at for a local entry.
pub fn origin_of(entry: &ManagedEntry, module_dir: &str, checkout: Option<String>) -> (r: EntryOrigin)
    ensures
        opt_view(r.remote) == opt_view(entry.remote),
        opt_view(r.source_root) == (if entry.remote is None {
            Some(module_dir@)
        } else {
            opt_view(checkout)
        }),
{
    match &entry.remote {
        None => EntryOrigin { source_root: Some(module_dir.to_owned()), remote: None },
        Some(name) => EntryOrigin { source_root: checkout, remote: Some(name.clone()) },
    }
}

/// What stands at a source.
#[derive(Debug, Clone, PartialEq, Eq)]
pub enum SourceFacts {
    /// Nothing.
    Missing,
    /// Something that cannot be looked at.
    Unreadable {
        /// What went wrong.
        message: String,
    },
    /// A file.
    File,
    /// A directory.
    Directory,
}

/// A file in a source tree.
#[derive(Debug, Clone, PartialEq, Eq)]
pub struct LeafFact {
    /// Its path.
    pub path: String,
    /// Whether it is a symbolic link.
    pub is_link: bool,
}

/// The first symbolic link of a row of files.
pub open spec fn first_link(leaves: Seq<LeafFact>) -> Option<Seq<char>>
    decreases leaves.len(),
{
    if leaves.len() == 0 {
        None
    } else if leaves[0].is_link {
        Some(leaves[0].path@)
    } else {
        first_link(leaves.drop_first())
    }
}

/// Refuses a checkout that holds a symbolic link: the executors would follow it.
pub fn reject_symlink_leaves(remote: &str, leaves: &Vec<LeafFact>) -> (r: Result<(), RemoteError>)
    ensures
        match first_link(leaves@) {
            Some(link) => r matches Err(RemoteError::SymlinkInCheckout { name, path }) && name@
                == remote@ && path@ == link,
            None => r is Ok,
        },
{
    let mut i: usize = 0;
    assert(leaves@.skip(0) =~= leaves@);
    while i < leaves.len()
        invariant
            i <= leaves@.len(),
            first_link(leaves@) == first_link(leaves@.skip(i as int)),
        decreases leaves@.len() - i,
    {
        assert(leaves@.skip(i as int).drop_first() =~= leaves@.skip(i + 1));
        if leaves[i].is_link {
            return Err(
                RemoteError::SymlinkInCheckout {
                    name: remote.to_owned(),
                    path: leaves[i].path.clone(),
                },
            );
        }
        i = i + 1;
    }
    Ok(())
}

/// Whether the source of a remote's entry lies outside its checkout.
pub open spec fn escapes(remote: Option<Seq<char>>, source: Seq<char>, root: Seq<char>) -> bool {
    remote is Some && !path_under(source, root)
}

/// Whether `r` is what the check of a resolved source comes to.
pub open spec fn is_source_verdict(
    r: Result<(), EngineError>,
    remote: Option<Seq<char>>,
    root: Seq<char>,
    declared_source: Seq<char>,
    source: Seq<char>,
    kind: EntryKind,
    facts: SourceFacts,
    leaves: Seq<LeafFact>,
) -> bool {
    let is_dir = facts is Directory;
    if escapes(remote, source, root) {
        r matches Err(EngineError::Remote(RemoteError::SourceEscapesCheckout { name, source_path }))
            && Some(name@) == remote && source_path@ == declared_source
    } else if facts is Missing {
        r matches Err(EngineError::SourceNotFound { path }) && path@ == source
    } else if facts is Unreadable {
        r matches Err(EngineError::Path(PathError::Filesystem { path, message })) && path@ == source
            && message@ == facts->message@
    } else if remote is Some && is_dir && first_link(leaves) is Some {
        r matches Err(EngineError::Remote(RemoteError::SymlinkInCheckout { name, path })) && Some(
            name@,
        ) == remote && path@ == first_link(leaves)->0
    } else if kind_fault(kind, is_dir) {
        r matches Err(e) && says_kind(e, source, is_dir)
    } else {
        r is Ok
    }
}

/// Checks a resolved source before anything is planned for it. A source in a
/// checkout must not lead out of it, by `..` or by a link; it must be there; a
/// directory in a checkout must hold no link; and its kind must be that of the
/// table that declares it. `leaves` are the files of a directory in a checkout.
pub fn check_source(
    origin: &EntryOrigin,
    root: &str,
    declared_source: &str,
    source: &str,
    kind: EntryKind,
    facts: &SourceFacts,
    leaves: &Vec<LeafFact>,
) -> (r: Result<(), EngineError>)
    ensures
        is_source_verdict(
            r,
            opt_view(origin.remote),
            root@,
            declared_source@,
            source@,
            kind,
            *facts,
            leaves@,
        ),
{
    match &origin.remote {
        Some(remote) => {
            if !is_under(source, root) {
                return Err(
                    EngineError::Remote(
                        RemoteError::SourceEscapesCheckout {
                            name: remote.clone(),
                            source_path: declared_source.to_owned(),
                        },
                    ),
                );
            }
        },
        None => {},
    }
    let is_dir: bool = match facts {
        SourceFacts::Missing => {
            return Err(EngineError::SourceNotFound { path: source.to_owned() });
        },
        SourceFacts::Unreadable { message } => {
            return Err(
                EngineError::Path(
                    PathError::Filesystem { path: source.to_owned(), message: message.clone() },
                ),
            );
        },
        SourceFacts::File => false,
        SourceFacts::Directory => true,
    };
    if is_dir {
        match &origin.remote {
            Some(remote) => match reject_symlink_leaves(remote.as_str(), leaves) {
                Ok(()) => {},
                Err(e) => return Err(EngineError::Remote(e)),
            },
            None => {},
        }
    }
    validate_source_kind(source, kind, is_dir)
}

} // verus!
