//! What stands at a target, held against what was recorded of it.

use crate::journal::ExpectedTarget;
use crate::journal::blake3_hash;
use crate::journal::content_hash;
use crate::path_order::is_same_path;
use crate::path_order::is_under;
use crate::path_order::path_under;
use crate::path_order::same_path;
use crate::paths::path_simplified;
use crate::paths::simplified_str;
use crate::text::opt_view;
use crate::text::same_text;
use crate::text::views;
use vstd::prelude::*;

verus! {

/// What stands at a target.
#[derive(Debug, Clone, PartialEq, Eq)]
pub struct LiveTarget {
    /// Whether anything does, even a symbolic link that points nowhere.
    pub present: bool,
    /// Where the symbolic link there points, if it is one.
    pub link: Option<String>,
    /// The bytes that reading it gives, if that works.
    pub content: Option<Vec<u8>>,
}

/// Bytes that may be missing.
pub open spec fn bytes_view(bytes: Option<Vec<u8>>) -> Option<Seq<u8>> {
    match bytes {
        Some(b) => Some(b@),
        None => None,
    }
}

/// Whether a link that may be missing points at a path, however either is
/// prefixed.
pub open spec fn link_matches(link: Option<Seq<char>>, desired: Seq<char>) -> bool {
    match link {
        Some(l) => path_simplified(l) == path_simplified(desired),
        None => false,
    }
}

/// Whether bytes that may be missing have a hash.
pub open spec fn hash_matches(content: Option<Seq<u8>>, hash: Seq<u8>) -> bool {
    match content {
        Some(bytes) => blake3_hash(bytes) == hash,
        None => false,
    }
}

/// Whether the target is a symbolic link to `desired`.
pub fn symlink_matches(live: &LiveTarget, desired: &str) -> (r: bool)
    ensures
        r == link_matches(opt_view(live.link), desired@),
        live.link matches Some(link) ==> (r <==> path_simplified(link@) == path_simplified(
            desired@,
        )),
        live.link is None ==> !r,
{
    match &live.link {
        Some(link) => same_text(
            simplified_str(link.as_str()).as_str(),
            simplified_str(desired).as_str(),
        ),
        None => false,
    }
}

/// Whether two hashes are the same.
pub fn same_hash(a: &[u8; 32], b: &[u8; 32]) -> (r: bool)
    ensures
        r == (a@ == b@),
{
    let mut i: usize = 0;
    while i < 32
        invariant
            i <= 32,
            forall|k: int| 0 <= k < i ==> a@[k] == b@[k],
        decreases 32 - i,
    {
        if a[i] != b[i] {
            return false;
        }
        i = i + 1;
    }
    assert(a@ =~= b@);
    true
}

/// Whether the bytes of the target have the hash.
pub fn content_matches(live: &LiveTarget, hash: &[u8; 32]) -> (r: bool)
    ensures
        r == hash_matches(bytes_view(live.content), hash@),
{
    match &live.content {
        Some(bytes) => same_hash(&content_hash(bytes.as_slice()), hash),
        None => false,
    }
}

/// What became of a recorded target.
#[derive(Debug, Clone, Copy, PartialEq, Eq, Structural)]
pub enum TargetState {
    /// It is as recorded.
    Clean,
    /// It is there, but not as recorded.
    Drifted,
    /// It is gone.
    Missing,
    /// Nothing manages it any more.
    Orphaned,
}

/// Whether what stands at a target is what was recorded.
pub open spec fn as_recorded(expected: ExpectedTarget, live: LiveTarget) -> bool {
    match expected {
        ExpectedTarget::Symlink { link_target, .. } => link_matches(
            opt_view(live.link),
            link_target@,
        ),
        ExpectedTarget::Content { hash, .. } => hash_matches(bytes_view(live.content), hash@),
    }
}

/// What became of a recorded target.
pub open spec fn state_of(expected: ExpectedTarget, managed: bool, live: LiveTarget) -> TargetState {
    if !managed {
        TargetState::Orphaned
    } else if !live.present {
        TargetState::Missing
    } else if as_recorded(expected, live) {
        TargetState::Clean
    } else {
        TargetState::Drifted
    }
}

/// What became of a recorded target, given whether anything still manages it and
/// what stands there.
pub fn classify(expected: &ExpectedTarget, managed: bool, live: &LiveTarget) -> (r: TargetState)
    ensures
        r == state_of(*expected, managed, *live),
{
    if !managed {
        return TargetState::Orphaned;
    }
    if !live.present {
        return TargetState::Missing;
    }
    let same: bool = match expected {
        ExpectedTarget::Symlink { link_target, .. } => symlink_matches(live, link_target.as_str()),
        ExpectedTarget::Content { hash, .. } => content_matches(live, hash),
    };
    if same {
        TargetState::Clean
    } else {
        TargetState::Drifted
    }
}

/// The targets that the current manifests manage, by the keys that they are
/// compared by.
#[derive(Debug, Clone, PartialEq, Eq)]
pub struct ManagedTargets {
    /// The targets.
    pub targets: Vec<String>,
    /// Directories whose managed files cannot be told, because the checkout that
    /// they come from is not on this machine.
    pub indeterminate_roots: Vec<String>,
    /// The remotes whose checkouts are not on this machine.
    pub unmaterialized_remotes: Vec<String>,
}

/// Whether a path is among the given ones.
pub open spec fn among(paths: Seq<Seq<char>>, path: Seq<char>) -> bool {
    exists|i: int| 0 <= i < paths.len() && same_path(#[trigger] paths[i], path)
}

/// Whether a path is one of the given ones or lies under one.
pub open spec fn under_any(roots: Seq<Seq<char>>, path: Seq<char>) -> bool {
    exists|i: int| 0 <= i < roots.len() && path_under(path, #[trigger] roots[i])
}

/// Whether a path is among the given ones.
pub fn is_among(paths: &Vec<String>, path: &str) -> (r: bool)
    ensures
        r == among(views(paths@), path@),
{
    let mut i: usize = 0;
    while i < paths.len()
        invariant
            i <= paths@.len(),
            forall|k: int| 0 <= k < i ==> !same_path(#[trigger] views(paths@)[k], path@),
        decreases paths@.len() - i,
    {
        if is_same_path(paths[i].as_str(), path) {
            assert(same_path(views(paths@)[i as int], path@));
            return true;
        }
        i = i + 1;
    }
    false
}

/// Whether a path is one of the given ones or lies under one.
pub fn is_under_any(roots: &Vec<String>, path: &str) -> (r: bool)
    ensures
        r == under_any(views(roots@), path@),
{
    let mut i: usize = 0;
    while i < roots.len()
        invariant
            i <= roots@.len(),
            forall|k: int| 0 <= k < i ==> !path_under(path@, #[trigger] views(roots@)[k]),
        decreases roots@.len() - i,
    {
        if is_under(path, roots[i].as_str()) {
            assert(path_under(path@, views(roots@)[i as int]));
            return true;
        }
        i = i + 1;
    }
    false
}

/// Whether a key is that of a managed target, or may be.
pub open spec fn governed(managed: ManagedTargets, key: Seq<char>) -> bool {
    among(views(managed.targets@), key) || under_any(views(managed.indeterminate_roots@), key)
}

impl ManagedTargets {
    /// No target.
    pub fn empty() -> (r: Self)
        ensures
            r.targets@.len() == 0,
            r.indeterminate_roots@.len() == 0,
            r.unmaterialized_remotes@.len() == 0,
    {
        ManagedTargets {
            targets: Vec::new(),
            indeterminate_roots: Vec::new(),
            unmaterialized_remotes: Vec::new(),
        }
    }

    /// Whether `key` is that of a managed target, or may be: below a directory
    /// whose managed files cannot be told, anything may be managed.
    pub fn governs(&self, key: &str) -> (r: bool)
        ensures
            r == governed(*self, key@),
    {
        is_among(&self.targets, key) || is_under_any(&self.indeterminate_roots, key)
    }
}

} // verus!
