//! Everything that a run needs of its plan.

use crate::config::HookEntry;
use crate::config::remote::RemoteName;
use crate::host::HostOs;
use crate::journal::Plan;
use crate::utf8_path::join_path;
use crate::utf8_path::path_joined;
use super::planning::ResolvedOperation;
use super::registry::Lockfile;
use super::registry::declared_pins;
use super::registry::name_views;
use super::registry::pin_views;
use super::registry::pins_of;
use vstd::prelude::*;

verus! {

/// A plan with what the run that carries it out needs.
#[derive(Debug, Clone, PartialEq, Eq)]
pub struct ResolvedPlan {
    /// The root of the repository.
    pub repo_root: String,
    /// The name of the active profile, empty if there is none.
    pub profile: String,
    /// The plan that the journal records.
    pub plan: Plan,
    /// The operations as the executor needs them.
    pub operations: Vec<ResolvedOperation>,
    /// The hooks of all modules.
    pub hooks: Vec<HookEntry>,
    /// The state directory of this machine.
    pub state_dir: String,
    /// The platform.
    pub host_os: HostOs,
    /// The ID of the run.
    pub timestamp: String,
    /// The declared remotes, in order.
    pub remote_names: Vec<RemoteName>,
    /// The pins of the declared remotes, or `None` if the lockfile was not read.
    pub remote_pins: Option<Vec<(RemoteName, String)>>,
}

impl ResolvedPlan {
    /// The directory of the journal.
    pub fn journal_dir(&self) -> (r: String)
        ensures
            r@ == path_joined(self.state_dir@, "journal"@),
    {
        join_path(self.state_dir.as_str(), "journal")
    }

    /// The directory of the backups.
    pub fn backups_dir(&self) -> (r: String)
        ensures
            r@ == path_joined(self.state_dir@, "backups"@),
    {
        join_path(self.state_dir.as_str(), "backups")
    }

    /// The lock file.
    pub fn lock_path(&self) -> (r: String)
        ensures
            r@ == path_joined(self.state_dir@, "lock"@),
    {
        join_path(self.state_dir.as_str(), "lock")
    }
}

/// The pins of the declared remotes for a plan that did not read the lockfile, or
/// `None` if it cannot be told what is pinned. A row without remotes needs no
/// lockfile. `lockfile` is `None` if it cannot be read.
pub fn reread_pins(remote_names: &Vec<RemoteName>, lockfile: &Option<Lockfile>) -> (r: Option<
    Vec<(RemoteName, String)>,
>)
    ensures
        r is None <==> remote_names@.len() > 0 && lockfile is None,
        r matches Some(pins) ==> pin_views(pins@) == match *lockfile {
            Some(lockfile) => pins_of(name_views(remote_names@), lockfile.pins@),
            None => Seq::empty(),
        },
{
    if remote_names.len() == 0 {
        let none: Vec<(RemoteName, String)> = Vec::new();
        assert(pin_views(none@) =~= Seq::<(Seq<char>, Seq<char>)>::empty());
        return Some(none);
    }
    match lockfile {
        Some(lockfile) => Some(declared_pins(remote_names, lockfile)),
        None => None,
    }
}

} // verus!
