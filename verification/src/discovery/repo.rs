//! The root of the repository.
//!
//! It is taken from the environment, else from the nearest directory above the
//! current one that has a root manifest, else from a default that was stored in
//! the state directory of the machine. A value in the environment that is no root
//! is an error, and not passed over.

use crate::host::HostOs;
use crate::paths::is_empty;
use crate::text::around;
use crate::text::joined;
use crate::text::opt_view;
use crate::text::put_around;
use crate::text::trim;
use crate::text::trimmed;
use crate::utf8_path::join_path;
use crate::utf8_path::path_joined;
use super::modules::MANIFEST_FILENAME;
use super::modules::ManifestHead;
use super::modules::declares_root;
use super::modules::manifest_path;
use vstd::prelude::*;

verus! {

/// The environment variable that names the repository.
pub const ENV_VAR: &'static str = "PATINA_REPO";

/// The name of the file that holds the stored default.
pub const PERSISTED_DEFAULT_FILENAME: &'static str = "default_repo";

/// Errors of a search for the repository.
#[derive(Debug, Clone, PartialEq, Eq)]
#[non_exhaustive]
pub enum RepoDiscoveryError {
    /// None of the three sources names a repository.
    AllSourcesFailed {
        /// What was found in the environment.
        env_attempt: String,
        /// Where the walk upwards started.
        walk_up_from: String,
        /// Where the stored default was looked for.
        persisted_default_attempt: String,
    },
    /// The environment names a directory that is no root.
    EnvVarInvalid {
        /// The directory.
        path: String,
        /// Why it is none.
        reason: String,
    },
    /// The working directory is no text.
    CwdNotUtf8 {
        /// The working directory, as far as it can be shown.
        cwd: String,
    },
    /// The working directory could not be told.
    CwdUnavailable {
        /// What went wrong.
        message: String,
    },
    /// The root that was found has no canonical path.
    Canonicalize {
        /// The root.
        path: String,
        /// What went wrong.
        message: String,
    },
}

/// An error with its texts as sequences of characters.
#[verifier::ext_equal]
pub ghost enum RepoFault {
    /// None of the three sources names a repository.
    AllSourcesFailed {
        /// What was found in the environment.
        env_attempt: Seq<char>,
        /// Where the walk upwards started.
        walk_up_from: Seq<char>,
        /// Where the stored default was looked for.
        persisted_default_attempt: Seq<char>,
    },
    /// The environment names a directory that is no root.
    EnvVarInvalid {
        /// The directory.
        path: Seq<char>,
        /// Why it is none.
        reason: Seq<char>,
    },
    /// The working directory is no text.
    CwdNotUtf8 {
        /// The working directory, as far as it can be shown.
        cwd: Seq<char>,
    },
    /// The working directory could not be told.
    CwdUnavailable {
        /// What went wrong.
        message: Seq<char>,
    },
    /// The root that was found has no canonical path.
    Canonicalize {
        /// The root.
        path: Seq<char>,
        /// What went wrong.
        message: Seq<char>,
    },
}

impl View for RepoDiscoveryError {
    type V = RepoFault;

    open spec fn view(&self) -> RepoFault {
        match *self {
            RepoDiscoveryError::AllSourcesFailed {
                env_attempt,
                walk_up_from,
                persisted_default_attempt,
            } => RepoFault::AllSourcesFailed {
                env_attempt: env_attempt@,
                walk_up_from: walk_up_from@,
                persisted_default_attempt: persisted_default_attempt@,
            },
            RepoDiscoveryError::EnvVarInvalid { path, reason } => RepoFault::EnvVarInvalid {
                path: path@,
                reason: reason@,
            },
            RepoDiscoveryError::CwdNotUtf8 { cwd } => RepoFault::CwdNotUtf8 { cwd: cwd@ },
            RepoDiscoveryError::CwdUnavailable { message } => RepoFault::CwdUnavailable {
                message: message@,
            },
            RepoDiscoveryError::Canonicalize { path, message } => RepoFault::Canonicalize {
                path: path@,
                message: message@,
            },
        }
    }
}

impl RepoFault {
    /// The error in words.
    pub open spec fn words(self) -> Seq<char> {
        match self {
            RepoFault::AllSourcesFailed {
                env_attempt,
                walk_up_from,
                persisted_default_attempt,
            } => around(
                "could not resolve a Patina repository root.\ntried PATINA_REPO env var: "@,
                env_attempt,
                around(
                    "\ntried walk-up from "@,
                    walk_up_from,
                    ": no patina.toml with root = true found between this directory and the filesystem root\ntried persisted default at "@,
                ) + persisted_default_attempt,
            ),
            RepoFault::EnvVarInvalid { path, reason } => around(
                "PATINA_REPO points at "@,
                path,
                " but no valid root patina.toml was found there: "@,
            ) + reason,
            RepoFault::CwdNotUtf8 { cwd } => "current working directory is not valid UTF-8: "@ + cwd,
            RepoFault::CwdUnavailable { message } =>
                "failed to read current working directory: "@ + message,
            RepoFault::Canonicalize { path, message } => around(
                "failed to canonicalize repository root "@,
                path,
                ": "@,
            ) + message,
        }
    }
}

impl RepoDiscoveryError {
    /// The error in words.
    pub fn message(&self) -> (r: String)
        ensures
            r@ == self@.words(),
    {
        match self {
            RepoDiscoveryError::AllSourcesFailed {
                env_attempt,
                walk_up_from,
                persisted_default_attempt,
            } => {
                let walk: String = put_around(
                    "\ntried walk-up from ",
                    walk_up_from.as_str(),
                    ": no patina.toml with root = true found between this directory and the filesystem root\ntried persisted default at ",
                );
                let tail: String = joined(walk.as_str(), persisted_default_attempt.as_str());
                put_around(
                    "could not resolve a Patina repository root.\ntried PATINA_REPO env var: ",
                    env_attempt.as_str(),
                    tail.as_str(),
                )
            },
            RepoDiscoveryError::EnvVarInvalid { path, reason } => {
                let head: String = put_around(
                    "PATINA_REPO points at ",
                    path.as_str(),
                    " but no valid root patina.toml was found there: ",
                );
                joined(head.as_str(), reason.as_str())
            },
            RepoDiscoveryError::CwdNotUtf8 { cwd } => joined(
                "current working directory is not valid UTF-8: ",
                cwd.as_str(),
            ),
            RepoDiscoveryError::CwdUnavailable { message } => joined(
                "failed to read current working directory: ",
                message.as_str(),
            ),
            RepoDiscoveryError::Canonicalize { path, message } => {
                let head: String = put_around(
                    "failed to canonicalize repository root ",
                    path.as_str(),
                    ": ",
                );
                joined(head.as_str(), message.as_str())
            },
        }
    }
}

/// What was found at a directory that may be the root.
#[derive(Debug, PartialEq, Eq)]
pub struct RootFacts {
    /// Whether it is a directory.
    pub is_dir: bool,
    /// The head of its manifest, if it has one.
    pub head: Option<ManifestHead>,
    /// Its canonical path, or why it has none.
    pub canonical: Result<String, String>,
}

/// A result with its texts as sequences of characters.
pub open spec fn texts_of(r: Result<String, String>) -> Result<Seq<char>, Seq<char>> {
    match r {
        Ok(t) => Ok(t@),
        Err(e) => Err(e@),
    }
}

/// The canonical path of a directory that is the root, or why it is none.
pub open spec fn root_at(path: Seq<char>, facts: RootFacts) -> Result<Seq<char>, Seq<char>> {
    let manifest = manifest_path(path);
    if !facts.is_dir {
        Err(path + " is not a directory"@)
    } else {
        match facts.head {
            None => Err("no patina.toml found at "@ + manifest),
            Some(ManifestHead::Unreadable { message }) => Err("read failed: "@ + message@),
            Some(ManifestHead::Malformed { message }) => Err("parse failed: "@ + message@),
            Some(ManifestHead::Read { root }) => if root == Some(true) {
                match facts.canonical {
                    Ok(canonical) => Ok(canonical@),
                    Err(message) => Err("canonicalize failed: "@ + message@),
                }
            } else {
                Err(manifest + " is missing `root = true` in its `[patina]` table"@)
            },
        }
    }
}

/// The canonical path of `path` if it is the root, or why it is none.
pub fn validate_root(path: &str, facts: &RootFacts) -> (r: Result<String, String>)
    ensures
        texts_of(r) == root_at(path@, *facts),
{
    if !facts.is_dir {
        return Err(joined(path, " is not a directory"));
    }
    let manifest: String = join_path(path, MANIFEST_FILENAME);
    match &facts.head {
        None => Err(joined("no patina.toml found at ", manifest.as_str())),
        Some(ManifestHead::Unreadable { message }) => Err(joined("read failed: ", message.as_str())),
        Some(ManifestHead::Malformed { message }) => Err(joined("parse failed: ", message.as_str())),
        Some(ManifestHead::Read { root }) => {
            let is_root: bool = match root {
                Some(root) => *root,
                None => false,
            };
            if !is_root {
                return Err(
                    joined(
                        manifest.as_str(),
                        " is missing `root = true` in its `[patina]` table",
                    ),
                );
            }
            match &facts.canonical {
                Ok(canonical) => Ok(canonical.clone()),
                Err(message) => Err(joined("canonicalize failed: ", message.as_str())),
            }
        },
    }
}

/// A directory on the way up.
#[derive(Debug, PartialEq, Eq)]
pub struct WalkRung {
    /// The directory.
    pub dir: String,
    /// The head of its manifest, if it has one.
    pub head: Option<ManifestHead>,
    /// Its canonical path, or why it has none.
    pub canonical: Result<String, String>,
}

/// Whether a directory on the way up is the root.
pub open spec fn is_root_rung(rung: WalkRung) -> bool {
    rung.head matches Some(head) && declares_root(head)
}

/// What a walk upwards finds: the first directory that is the root, if it has a
/// canonical path.
pub open spec fn walked_root(rungs: Seq<WalkRung>) -> Result<Option<Seq<char>>, RepoFault>
    decreases rungs.len(),
{
    if rungs.len() == 0 {
        Ok(None)
    } else if is_root_rung(rungs[0]) {
        match rungs[0].canonical {
            Ok(canonical) => Ok(Some(canonical@)),
            Err(message) => Err(
                RepoFault::Canonicalize { path: rungs[0].dir@, message: message@ },
            ),
        }
    } else {
        walked_root(rungs.drop_first())
    }
}

/// What a walk upwards over `rungs`, the lowest first, finds. A manifest that cannot
/// be read is passed over.
pub fn walk_up_for_root(rungs: &Vec<WalkRung>) -> (r: Result<Option<String>, RepoDiscoveryError>)
    ensures
        match walked_root(rungs@) {
            Ok(found) => r matches Ok(f) && opt_view(f) == found,
            Err(fault) => r matches Err(e) && e@ == fault,
        },
{
    let ghost all = rungs@;
    let mut i: usize = 0;
    assert(all.skip(0) =~= all);
    while i < rungs.len()
        invariant
            i <= rungs@.len(),
            all == rungs@,
            walked_root(all) == walked_root(all.skip(i as int)),
        decreases rungs@.len() - i,
    {
        let rung: &WalkRung = &rungs[i];
        proof {
            assert(all.skip(i as int)[0] == *rung);
            assert(all.skip(i as int).drop_first() =~= all.skip(i + 1));
        }
        let is_root: bool = match &rung.head {
            Some(head) => head.is_root(),
            None => false,
        };
        if is_root {
            return match &rung.canonical {
                Ok(canonical) => Ok(Some(canonical.clone())),
                Err(message) => Err(
                    RepoDiscoveryError::Canonicalize {
                        path: rung.dir.clone(),
                        message: message.clone(),
                    },
                ),
            };
        }
        i = i + 1;
    }
    Ok(None)
}

/// The repository that a stored default names: its text without the blanks around
/// it, if that is a root.
pub open spec fn stored_root(text: Option<Seq<char>>, facts: RootFacts) -> Option<Seq<char>> {
    match text {
        Some(t) => if trimmed(t).len() == 0 {
            None
        } else {
            match root_at(trimmed(t), facts) {
                Ok(root) => Some(root),
                Err(_) => None,
            }
        },
        None => None,
    }
}

/// The repository that a stored default names. `facts` are those of the directory
/// that it names.
pub fn read_persisted_default(text: &Option<String>, facts: &RootFacts) -> (r: Option<String>)
    ensures
        opt_view(r) == stored_root(opt_view(*text), *facts),
{
    match text {
        Some(text) => {
            let candidate: String = trim(text.as_str());
            if is_empty(candidate.as_str()) {
                return None;
            }
            match validate_root(candidate.as_str(), facts) {
                Ok(root) => Some(root),
                Err(_) => None,
            }
        },
        None => None,
    }
}

/// A stored default: where it lies, what it says, and what was found at the
/// directory that it names.
#[derive(Debug, PartialEq, Eq)]
pub struct StoredDefault {
    /// Where it lies.
    pub path: String,
    /// What it says, if it could be read.
    pub text: Option<String>,
    /// What was found at the directory that it names.
    pub facts: RootFacts,
}

/// The words for an environment that names no repository.
pub const NOT_SET: &'static str = "not set";

/// The words for a machine without a state directory.
pub const NO_STATE_DIR: &'static str = "no per-machine state directory available";

/// The root of the repository, by the three sources in turn.
pub open spec fn resolved_root(
    env: Option<Seq<char>>,
    env_facts: RootFacts,
    cwd: Seq<char>,
    rungs: Seq<WalkRung>,
    stored: Option<StoredDefault>,
) -> Result<Seq<char>, RepoFault> {
    if env is Some && env->0.len() > 0 {
        match root_at(env->0, env_facts) {
            Ok(root) => Ok(root),
            Err(reason) => Err(RepoFault::EnvVarInvalid { path: env->0, reason }),
        }
    } else {
        match walked_root(rungs) {
            Err(fault) => Err(fault),
            Ok(Some(root)) => Ok(root),
            Ok(None) => match stored {
                None => Err(
                    RepoFault::AllSourcesFailed {
                        env_attempt: NOT_SET@,
                        walk_up_from: cwd,
                        persisted_default_attempt: NO_STATE_DIR@,
                    },
                ),
                Some(s) => match stored_root(opt_view(s.text), s.facts) {
                    Some(root) => Ok(root),
                    None => Err(
                        RepoFault::AllSourcesFailed {
                            env_attempt: NOT_SET@,
                            walk_up_from: cwd,
                            persisted_default_attempt: s.path@,
                        },
                    ),
                },
            },
        }
    }
}

/// The root of the repository. `env_facts` are those of the directory that the
/// environment names, `rungs` the directories from `cwd` upwards, and `stored` the
/// default, if the machine has a place for one. An empty value in the environment
/// is none.
pub fn resolve_repository_root_with(
    env_value: &Option<String>,
    env_facts: &RootFacts,
    cwd: &str,
    rungs: &Vec<WalkRung>,
    stored: &Option<StoredDefault>,
) -> (r: Result<String, RepoDiscoveryError>)
    ensures
        match resolved_root(opt_view(*env_value), *env_facts, cwd@, rungs@, *stored) {
            Ok(root) => r matches Ok(path) && path@ == root,
            Err(fault) => r matches Err(e) && e@ == fault,
        },
{
    match env_value {
        Some(raw) => {
            if !is_empty(raw.as_str()) {
                return match validate_root(raw.as_str(), env_facts) {
                    Ok(root) => Ok(root),
                    Err(reason) => Err(
                        RepoDiscoveryError::EnvVarInvalid { path: raw.clone(), reason },
                    ),
                };
            }
        },
        None => {},
    }
    match walk_up_for_root(rungs) {
        Err(e) => return Err(e),
        Ok(Some(root)) => return Ok(root),
        Ok(None) => {},
    }
    let attempt: String = match stored {
        None => NO_STATE_DIR.to_owned(),
        Some(s) => match read_persisted_default(&s.text, &s.facts) {
            Some(root) => return Ok(root),
            None => s.path.clone(),
        },
    };
    Err(
        RepoDiscoveryError::AllSourcesFailed {
            env_attempt: NOT_SET.to_owned(),
            walk_up_from: cwd.to_owned(),
            persisted_default_attempt: attempt,
        },
    )
}

/// A value in the environment decides alone: neither the walk nor the default is
/// looked at.
pub proof fn environment_decides(
    env: Seq<char>,
    env_facts: RootFacts,
    cwd: Seq<char>,
    rungs: Seq<WalkRung>,
    stored: Option<StoredDefault>,
    other_cwd: Seq<char>,
    other_rungs: Seq<WalkRung>,
    other_stored: Option<StoredDefault>,
)
    requires
        env.len() > 0,
    ensures
        resolved_root(Some(env), env_facts, cwd, rungs, stored) == resolved_root(
            Some(env),
            env_facts,
            other_cwd,
            other_rungs,
            other_stored,
        ),
{
}

/// A value of the environment that is not empty.
pub open spec fn set_value(value: Option<Seq<char>>) -> Option<Seq<char>> {
    match value {
        Some(v) => if v.len() > 0 {
            Some(v)
        } else {
            None
        },
        None => None,
    }
}

/// Where a platform keeps the state of its programs, by the values of
/// `XDG_STATE_HOME`, `HOME` and `LOCALAPPDATA`.
pub open spec fn state_root(
    host: HostOs,
    xdg: Option<Seq<char>>,
    home: Option<Seq<char>>,
    local: Option<Seq<char>>,
) -> Option<Seq<char>> {
    match host {
        HostOs::Linux => match set_value(xdg) {
            Some(x) => Some(x),
            None => match set_value(home) {
                Some(h) => Some(path_joined(path_joined(h, ".local"@), "state"@)),
                None => None,
            },
        },
        HostOs::MacOs => match set_value(home) {
            Some(h) => Some(path_joined(path_joined(h, "Library"@), "Application Support"@)),
            None => None,
        },
        HostOs::Windows => set_value(local),
    }
}

fn set_text(value: &Option<String>) -> (r: Option<String>)
    ensures
        opt_view(r) == set_value(opt_view(*value)),
{
    match value {
        Some(v) => {
            if is_empty(v.as_str()) {
                None
            } else {
                Some(v.clone())
            }
        },
        None => None,
    }
}

/// Where the platform keeps the state of its programs, by the values of
/// `XDG_STATE_HOME`, `HOME` and `LOCALAPPDATA`.
pub fn state_dir_root(
    host: HostOs,
    xdg: &Option<String>,
    home: &Option<String>,
    local: &Option<String>,
) -> (r: Option<String>)
    ensures
        opt_view(r) == state_root(host, opt_view(*xdg), opt_view(*home), opt_view(*local)),
{
    match host {
        HostOs::Linux => match set_text(xdg) {
            Some(x) => Some(x),
            None => match set_text(home) {
                Some(h) => {
                    let dir: String = join_path(h.as_str(), ".local");
                    Some(join_path(dir.as_str(), "state"))
                },
                None => None,
            },
        },
        HostOs::MacOs => match set_text(home) {
            Some(h) => {
                let dir: String = join_path(h.as_str(), "Library");
                Some(join_path(dir.as_str(), "Application Support"))
            },
            None => None,
        },
        HostOs::Windows => set_text(local),
    }
}

/// Where the stored default lies, by where the platform keeps the state of its
/// programs.
pub fn persisted_default_repo_path(state_root: &Option<String>) -> (r: Option<String>)
    ensures
        opt_view(r) == match opt_view(*state_root) {
            Some(root) => Some(
                path_joined(path_joined(root, "patina"@), PERSISTED_DEFAULT_FILENAME@),
            ),
            None => None,
        },
{
    match state_root {
        Some(root) => {
            let dir: String = join_path(root.as_str(), "patina");
            Some(join_path(dir.as_str(), PERSISTED_DEFAULT_FILENAME))
        },
        None => None,
    }
}

} // verus!
