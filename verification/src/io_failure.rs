//! A failed filesystem operation as plain values.

use vstd::prelude::*;

verus! {

/// What kind of failure the operating system reported, as far as anything here
/// depends on it.
#[derive(Debug, Clone, Copy, PartialEq, Eq, Structural)]
pub enum IoKind {
    /// There is no such entry.
    NotFound,
    /// The process may not do this.
    PermissionDenied,
    /// The platform cannot do this.
    Unsupported,
    /// Anything else.
    Other,
}

/// A failed filesystem operation.
#[derive(Debug, Clone, PartialEq, Eq)]
pub struct IoFailure {
    /// What kind of failure it was.
    pub kind: IoKind,
    /// The number that the operating system gave.
    pub os_code: Option<i32>,
    /// What went wrong, in words.
    pub message: String,
}

impl IoFailure {
    /// Whether the operating system gave the number `code`.
    pub fn has_code(&self, code: i32) -> (r: bool)
        ensures
            r == (self.os_code == Some(code)),
    {
        match self.os_code {
            Some(c) => c == code,
            None => false,
        }
    }
}

} // verus!
