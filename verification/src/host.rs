//! The platform that a run takes place on.

use vstd::prelude::*;

verus! {

/// A family of operating systems.
#[derive(Debug, Clone, Copy, PartialEq, Eq, Structural)]
pub enum HostOs {
    /// Linux.
    Linux,
    /// macOS.
    MacOs,
    /// Windows.
    Windows,
}

} // verus!
