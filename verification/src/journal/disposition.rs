//! How a planned target relates to the live filesystem at plan time.
//!
//! A target is created for the first time, updated because what is there
//! differs from what patina would write, or left unchanged. The durable plan
//! and the committed record both carry this marker, so that a re-apply, a crash
//! recovery and a rollback agree on which targets to leave alone.

use vstd::prelude::*;

verus! {

/// How a planned target relates to the live filesystem.
///
/// The variants are part of the wire format: adding or reordering them changes
/// the files on disk.
#[derive(Debug, Clone, Copy, PartialEq, Eq, Structural)]
pub enum Disposition {
    /// The target does not exist yet: applying creates it.
    Create,
    /// The target exists but differs from what patina would write: applying
    /// overwrites it.
    Update,
    /// The target already matches what patina would write: applying leaves it
    /// untouched.
    Unchanged,
}

impl Disposition {
    /// The lowercase word of this disposition.
    pub open spec fn word(self) -> Seq<char> {
        match self {
            Disposition::Create => "create"@,
            Disposition::Update => "update"@,
            Disposition::Unchanged => "unchanged"@,
        }
    }

    /// The number of this disposition on the wire.
    pub open spec fn code(self) -> nat {
        match self {
            Disposition::Create => 0,
            Disposition::Update => 1,
            Disposition::Unchanged => 2,
        }
    }

    /// The stable lowercase word for this disposition.
    #[must_use]
    pub fn label(self) -> (word: &'static str)
        ensures
            word@ == self.word(),
    {
        match self {
            Disposition::Create => "create",
            Disposition::Update => "update",
            Disposition::Unchanged => "unchanged",
        }
    }
}

} // verus!
