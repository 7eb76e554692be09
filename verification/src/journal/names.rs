//! The names of the journal's files.

use crate::text::joined;
use vstd::prelude::*;

verus! {

/// Suffix of the binary plan file.
pub const PLAN_SUFFIX: &'static str = ".plan";

/// Suffix of the progress cursor.
pub const PROGRESS_SUFFIX: &'static str = ".progress";

/// Suffix of the commit sentinel.
pub const COMMIT_SUFFIX: &'static str = ".COMMIT";

/// Suffix of the sentinel that closes a reversed apply.
pub const ROLLED_BACK_SUFFIX: &'static str = ".ROLLED_BACK";

/// The name of the plan file of a run.
pub open spec fn plan_name(id: Seq<char>) -> Seq<char> {
    id + PLAN_SUFFIX@
}

/// The name of the progress cursor of a run.
pub open spec fn progress_name(id: Seq<char>) -> Seq<char> {
    id + PROGRESS_SUFFIX@
}

/// The name of the commit sentinel of a run.
pub open spec fn commit_name(id: Seq<char>) -> Seq<char> {
    id + COMMIT_SUFFIX@
}

/// The name of the sentinel that closes a reversed run.
pub open spec fn rolled_back_name(id: Seq<char>) -> Seq<char> {
    id + ROLLED_BACK_SUFFIX@
}

/// The name of the file of the run `id` with a suffix.
pub fn journal_file(id: &str, suffix: &str) -> (name: String)
    ensures
        name@ == id@ + suffix@,
{
    joined(id, suffix)
}

/// The four suffixes are different, and none is the end of a name with another
/// one.
pub proof fn suffixes_are_apart()
    ensures
        PLAN_SUFFIX@.len() == 5,
        PROGRESS_SUFFIX@.len() == 9,
        COMMIT_SUFFIX@.len() == 7,
        ROLLED_BACK_SUFFIX@.len() == 12,
        PLAN_SUFFIX@.last() == 'n',
        PROGRESS_SUFFIX@.last() == 's',
        COMMIT_SUFFIX@.last() == 'T',
        ROLLED_BACK_SUFFIX@.last() == 'K',
{
    reveal_strlit(".plan");
    reveal_strlit(".progress");
    reveal_strlit(".COMMIT");
    reveal_strlit(".ROLLED_BACK");
}

/// Files of two runs, or with two suffixes, have different names.
pub proof fn names_are_apart(a: Seq<char>, b: Seq<char>)
    ensures
        plan_name(a) == plan_name(b) ==> a == b,
        commit_name(a) == commit_name(b) ==> a == b,
        rolled_back_name(a) == rolled_back_name(b) ==> a == b,
        progress_name(a) == progress_name(b) ==> a == b,
        plan_name(a) != progress_name(b),
        plan_name(a) != commit_name(b),
        plan_name(a) != rolled_back_name(b),
        progress_name(a) != commit_name(b),
        progress_name(a) != rolled_back_name(b),
        commit_name(a) != rolled_back_name(b),
{
    suffixes_are_apart();
    same_suffix(a, b, PLAN_SUFFIX@);
    same_suffix(a, b, COMMIT_SUFFIX@);
    same_suffix(a, b, ROLLED_BACK_SUFFIX@);
    same_suffix(a, b, PROGRESS_SUFFIX@);
    assert(plan_name(a).last() == 'n');
    assert(progress_name(a).last() == 's');
    assert(progress_name(b).last() == 's');
    assert(commit_name(a).last() == 'T');
    assert(commit_name(b).last() == 'T');
    assert(rolled_back_name(b).last() == 'K');
}

proof fn same_suffix(a: Seq<char>, b: Seq<char>, suffix: Seq<char>)
    ensures
        a + suffix == b + suffix ==> a == b,
{
    if a + suffix == b + suffix {
        assert((a + suffix).len() == (b + suffix).len());
        assert((a + suffix).take(a.len() as int) =~= a);
        assert((b + suffix).take(b.len() as int) =~= b);
    }
}

} // verus!
