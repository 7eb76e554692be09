//! The options of the three commands.

use crate::apply::hooks::ForceDeploy;
use crate::apply::run::ApplyRequest;
use vstd::prelude::*;

verus! {

/// Options of an apply.
#[derive(Debug, Clone)]
#[non_exhaustive]
pub struct ApplyOptions {
    /// What the run is asked to do.
    pub request: ApplyRequest,
    /// The ID of the run.
    pub timestamp: String,
}

impl Default for ApplyOptions {
    fn default() -> (r: Self)
        ensures
            r.request.force_deploy is No,
            r.request.cli_overrides@.len() == 0,
            r.timestamp@.len() == 0,
    {
        ApplyOptions {
            request: ApplyRequest { force_deploy: ForceDeploy::No, cli_overrides: Vec::new() },
            timestamp: String::new(),
        }
    }
}

impl ApplyOptions {
    /// The options of a run `timestamp`.
    pub fn new(request: ApplyRequest, timestamp: String) -> (r: Self)
        ensures
            r.request == request,
            r.timestamp == timestamp,
    {
        ApplyOptions { request, timestamp }
    }
}

/// Options of a status report.
#[derive(Debug, Default, Clone)]
#[non_exhaustive]
pub struct StatusOptions {}

/// Options of a rollback.
#[derive(Debug, Default, Clone)]
#[non_exhaustive]
pub struct RollbackOptions {}

} // verus!
