//! The variables of the root manifest: those that every module shares, and those
//! of each profile.

use crate::text::around;
use crate::text::joined;
use crate::text::less_text;
use crate::text::put_around;
use crate::text::same_text;
use crate::text::text_less;
use crate::text::text_order_is_irreflexive;
use crate::text::text_order_is_total;
use crate::text::text_order_is_transitive;
use crate::variables::Variable;
use crate::variables::VariableError;
use crate::variables::first_reserved;
use crate::variables::reject_reserved_keys;
use crate::variables::table_keys;
use vstd::prelude::*;

verus! {

/// A profile and its variables.
#[derive(Debug, Clone, PartialEq, Eq)]
pub struct ProfileVariables {
    /// The name of the profile.
    pub name: String,
    /// Its variables.
    pub table: Vec<Variable>,
}

/// Whether the names of a row of profiles ascend, so that none occurs twice.
pub open spec fn profiles_ascend(profiles: Seq<ProfileVariables>) -> bool {
    forall|i: int, j: int|
        0 <= i < j < profiles.len() ==> text_less(
            (#[trigger] profiles[i]).name@,
            (#[trigger] profiles[j]).name@,
        )
}

/// The variables of the root manifest.
#[derive(Debug, Clone, PartialEq, Eq)]
pub struct RootConfig {
    /// The variables that every module shares.
    pub repo_shared: Vec<Variable>,
    /// The variables of each profile, in the order of the names of the profiles. No
    /// name occurs twice.
    pub per_profile: Vec<ProfileVariables>,
}

/// Errors in the root manifest.
#[derive(Debug, Clone, PartialEq, Eq)]
#[non_exhaustive]
pub enum RootConfigError {
    /// The manifest could not be read.
    Io {
        /// Its path.
        path: String,
        /// What went wrong.
        message: String,
    },
    /// The manifest is not TOML.
    Toml {
        /// Its path.
        path: String,
        /// What went wrong.
        message: String,
    },
    /// A table declares a variable that is built in.
    Variable(VariableError),
}

impl RootConfigError {
    /// The error in words.
    pub open spec fn words(self) -> Seq<char> {
        match self {
            RootConfigError::Io { path, message } => around(
                "failed to read root patina.toml at "@,
                path@,
                ": "@,
            ) + message@,
            RootConfigError::Toml { path, message } => around(
                "failed to parse root patina.toml at "@,
                path@,
                " as TOML: "@,
            ) + message@,
            RootConfigError::Variable(e) => e.words(),
        }
    }

    /// The error in words.
    pub fn message(&self) -> (r: String)
        ensures
            r@ == self.words(),
    {
        match self {
            RootConfigError::Io { path, message } => {
                let head: String = put_around(
                    "failed to read root patina.toml at ",
                    path.as_str(),
                    ": ",
                );
                joined(head.as_str(), message.as_str())
            },
            RootConfigError::Toml { path, message } => {
                let head: String = put_around(
                    "failed to parse root patina.toml at ",
                    path.as_str(),
                    " as TOML: ",
                );
                joined(head.as_str(), message.as_str())
            },
            RootConfigError::Variable(e) => e.message(),
        }
    }
}

/// A profile as it was written.
#[derive(Debug, Clone, PartialEq, Eq)]
pub struct RawProfile {
    /// The name of the profile.
    pub name: String,
    /// Its variables.
    pub variables: Option<Vec<Variable>>,
}

/// The root manifest as it was written.
#[derive(Debug, Clone, PartialEq, Eq)]
pub struct RawRoot {
    /// The variables that every module shares.
    pub variables: Option<Vec<Variable>>,
    /// The profiles.
    pub profiles: Vec<RawProfile>,
}

/// The variables of a table that may be missing.
pub open spec fn given_table(table: Option<Vec<Variable>>) -> Seq<Variable> {
    match table {
        Some(t) => t@,
        None => Seq::empty(),
    }
}

/// A row of profiles in the order of their names with one more profile, which takes the
/// place of one with the same name.
pub open spec fn with_profile(sorted: Seq<RawProfile>, profile: RawProfile) -> Seq<RawProfile>
    decreases sorted.len(),
{
    if sorted.len() == 0 || text_less(profile.name@, sorted[0].name@) {
        seq![profile] + sorted
    } else if sorted[0].name@ == profile.name@ {
        seq![profile] + sorted.drop_first()
    } else {
        seq![sorted[0]] + with_profile(sorted.drop_first(), profile)
    }
}

/// A row of profiles in the order of their names. Of two with one name the later stays.
pub open spec fn by_name(profiles: Seq<RawProfile>) -> Seq<RawProfile>
    decreases profiles.len(),
{
    if profiles.len() == 0 {
        Seq::empty()
    } else {
        with_profile(by_name(profiles.drop_last()), profiles.last())
    }
}

/// Whether the names of a row of profiles ascend.
pub open spec fn names_ascend(profiles: Seq<RawProfile>) -> bool {
    forall|i: int, j: int|
        0 <= i < j < profiles.len() ==> text_less(
            (#[trigger] profiles[i]).name@,
            (#[trigger] profiles[j]).name@,
        )
}

/// Whether a row of profiles holds one with a name.
pub open spec fn has_profile(profiles: Seq<RawProfile>, name: Seq<char>) -> bool {
    exists|i: int| 0 <= i < profiles.len() && (#[trigger] profiles[i]).name@ == name
}

/// A row with one more profile still ascends, and has the names that it had and the new
/// one.
proof fn one_more_profile(sorted: Seq<RawProfile>, profile: RawProfile, name: Seq<char>)
    requires
        names_ascend(sorted),
    ensures
        names_ascend(with_profile(sorted, profile)),
        has_profile(with_profile(sorted, profile), name) <==> has_profile(sorted, name)
            || profile.name@ == name,
        with_profile(sorted, profile).contains(profile),
    decreases sorted.len(),
{
    let r = with_profile(sorted, profile);
    if sorted.len() == 0 || text_less(profile.name@, sorted[0].name@) {
        assert forall|i: int, j: int| 0 <= i < j < r.len() implies text_less(
            (#[trigger] r[i]).name@,
            (#[trigger] r[j]).name@,
        ) by {
            assert(r[j] == sorted[j - 1]);
            if i == 0 && j > 1 {
                text_order_is_transitive(profile.name@, sorted[0].name@, sorted[j - 1].name@);
            } else if i > 0 {
                assert(r[i] == sorted[i - 1]);
            }
        }
        assert(r[0] == profile);
        assert forall|i: int| 0 <= i < sorted.len() implies #[trigger] sorted[i] == r[i + 1] by {}
    } else if sorted[0].name@ == profile.name@ {
        assert forall|i: int| 1 <= i < r.len() implies #[trigger] r[i] == sorted[i] by {}
        assert(r[0] == profile);
        assert forall|i: int, j: int| 0 <= i < j < r.len() implies text_less(
            (#[trigger] r[i]).name@,
            (#[trigger] r[j]).name@,
        ) by {
            assert(text_less(sorted[i].name@, sorted[j].name@));
        }
        if has_profile(sorted, name) {
            let i = choose|i: int| 0 <= i < sorted.len() && (#[trigger] sorted[i]).name@ == name;
            assert(r[i].name@ == name);
        }
    } else {
        let tail = sorted.drop_first();
        let rest = with_profile(tail, profile);
        assert forall|i: int| 0 <= i < tail.len() implies #[trigger] tail[i] == sorted[i + 1] by {}
        one_more_profile(tail, profile, name);
        text_order_is_total(profile.name@, sorted[0].name@);
        assert forall|i: int| 0 <= i < rest.len() implies #[trigger] rest[i] == r[i + 1] by {}
        assert(r[0] == sorted[0]);
        assert forall|j: int| 0 <= j < rest.len() implies text_less(
            sorted[0].name@,
            (#[trigger] rest[j]).name@,
        ) by {
            one_more_profile(tail, profile, rest[j].name@);
            assert(has_profile(rest, rest[j].name@));
            if rest[j].name@ != profile.name@ {
                let k = choose|k: int|
                    0 <= k < tail.len() && (#[trigger] tail[k]).name@ == rest[j].name@;
                assert(text_less(sorted[0].name@, sorted[k + 1].name@));
            }
        }
        assert forall|i: int, j: int| 0 <= i < j < r.len() implies text_less(
            (#[trigger] r[i]).name@,
            (#[trigger] r[j]).name@,
        ) by {
            assert(r[j] == rest[j - 1]);
            if i > 0 {
                assert(r[i] == rest[i - 1]);
            }
        }
        if has_profile(sorted, name) {
            let i = choose|i: int| 0 <= i < sorted.len() && (#[trigger] sorted[i]).name@ == name;
            if i > 0 {
                assert(tail[i - 1].name@ == name);
            } else {
                assert(r[0].name@ == name);
            }
        }
        if has_profile(rest, name) {
            let i = choose|i: int| 0 <= i < rest.len() && (#[trigger] rest[i]).name@ == name;
            assert(r[i + 1].name@ == name);
        }
        if has_profile(tail, name) {
            let i = choose|i: int| 0 <= i < tail.len() && (#[trigger] tail[i]).name@ == name;
            assert(sorted[i + 1].name@ == name);
        }
        if has_profile(r, name) {
            let i = choose|i: int| 0 <= i < r.len() && (#[trigger] r[i]).name@ == name;
            if i > 0 {
                assert(rest[i - 1].name@ == name);
            } else {
                assert(sorted[0].name@ == name);
            }
        }
        let at = rest.index_of(profile);
        assert(r[at + 1] == profile);
    }
}

/// Every profile that is declared stands in the ordered row, and no other. The row
/// ascends by name, so that none occurs twice.
pub proof fn profiles_are_ordered(profiles: Seq<RawProfile>, name: Seq<char>)
    ensures
        names_ascend(by_name(profiles)),
        has_profile(by_name(profiles), name) <==> has_profile(profiles, name),
        profiles.len() > 0 ==> by_name(profiles).contains(profiles.last()),
    decreases profiles.len(),
{
    if profiles.len() > 0 {
        let front = profiles.drop_last();
        profiles_are_ordered(front, name);
        one_more_profile(by_name(front), profiles.last(), name);
        assert(profiles[profiles.len() - 1] == profiles.last());
        assert forall|i: int| 0 <= i < front.len() implies #[trigger] front[i] == profiles[i] by {}
        if has_profile(profiles, name) {
            let i = choose|i: int| 0 <= i < profiles.len() && (#[trigger] profiles[i]).name@ == name;
            if i < front.len() {
                assert(front[i].name@ == name);
            }
        }
        if has_profile(front, name) {
            let i = choose|i: int| 0 <= i < front.len() && (#[trigger] front[i]).name@ == name;
            assert(profiles[i].name@ == name);
        }
    }
}

/// Profiles that are declared in the order of their names, each once, stay as they are.
pub proof fn ordered_profiles_stay(profiles: Seq<RawProfile>)
    requires
        names_ascend(profiles),
    ensures
        by_name(profiles) == profiles,
    decreases profiles.len(),
{
    if profiles.len() > 0 {
        let front = profiles.drop_last();
        assert forall|i: int, j: int| 0 <= i < j < front.len() implies text_less(
            (#[trigger] front[i]).name@,
            (#[trigger] front[j]).name@,
        ) by {
            assert(text_less(profiles[i].name@, profiles[j].name@));
        }
        ordered_profiles_stay(front);
        assert forall|i: int| 0 <= i < front.len() implies text_less(
            (#[trigger] front[i]).name@,
            profiles.last().name@,
        ) by {
            assert(text_less(profiles[i].name@, profiles[profiles.len() - 1].name@));
        }
        last_profile_goes_last(front, profiles.last());
        assert(front.push(profiles.last()) =~= profiles);
    }
}

proof fn last_profile_goes_last(sorted: Seq<RawProfile>, profile: RawProfile)
    requires
        forall|i: int|
            0 <= i < sorted.len() ==> text_less((#[trigger] sorted[i]).name@, profile.name@),
    ensures
        with_profile(sorted, profile) == sorted.push(profile),
    decreases sorted.len(),
{
    if sorted.len() == 0 {
        assert(seq![profile] + sorted =~= sorted.push(profile));
    } else {
        let tail = sorted.drop_first();
        assert(text_less(sorted[0].name@, profile.name@));
        text_order_is_irreflexive(profile.name@);
        if text_less(profile.name@, sorted[0].name@) {
            text_order_is_transitive(profile.name@, sorted[0].name@, profile.name@);
        }
        assert forall|i: int| 0 <= i < tail.len() implies text_less(
            (#[trigger] tail[i]).name@,
            profile.name@,
        ) by {
            assert(tail[i] == sorted[i + 1]);
        }
        last_profile_goes_last(tail, profile);
        assert(seq![sorted[0]] + tail.push(profile) =~= sorted.push(profile));
    }
}

/// Puts a profile into a row that is in the order of the names.
fn put_profile(sorted: &mut Vec<RawProfile>, profile: RawProfile)
    ensures
        final(sorted)@ == with_profile(old(sorted)@, profile),
{
    let ghost s = sorted@;
    let mut i: usize = 0;
    assert(s.skip(0) =~= s);
    assert(s.take(0) + with_profile(s, profile) =~= with_profile(s, profile));
    while i < sorted.len() && !less_text(profile.name.as_str(), sorted[i].name.as_str())
        && !same_text(sorted[i].name.as_str(), profile.name.as_str())
        invariant
            i <= sorted@.len(),
            sorted@ == s,
            with_profile(s, profile) == s.take(i as int) + with_profile(s.skip(i as int), profile),
        decreases sorted@.len() - i,
    {
        proof {
            let left = s.skip(i as int);
            assert(left[0] == s[i as int]);
            assert(left.drop_first() =~= s.skip(i + 1));
            assert(s.take(i as int) + (seq![left[0]] + with_profile(s.skip(i + 1), profile))
                =~= s.take(i + 1) + with_profile(s.skip(i + 1), profile));
        }
        i = i + 1;
    }
    let ghost left = s.skip(i as int);
    assert(i < s.len() ==> left[0] == s[i as int]);
    proof {
        if i < s.len() && s[i as int].name@ == profile.name@ {
            text_order_is_irreflexive(profile.name@);
        }
    }
    if i < sorted.len() && same_text(sorted[i].name.as_str(), profile.name.as_str()) {
        sorted.remove(i);
        sorted.insert(i, profile);
        assert(sorted@ =~= s.take(i as int) + (seq![profile] + left.drop_first()));
    } else {
        sorted.insert(i, profile);
        assert(sorted@ =~= s.take(i as int) + (seq![profile] + left));
    }
}

/// A row of profiles in the order of their names.
fn order_profiles(profiles: Vec<RawProfile>) -> (sorted: Vec<RawProfile>)
    ensures
        sorted@ == by_name(profiles@),
{
    let ghost all = profiles@;
    let ghost mut n: int = 0;
    let mut rest: Vec<RawProfile> = profiles;
    let mut sorted: Vec<RawProfile> = Vec::new();
    assert(all.skip(0) =~= all);
    assert(all.take(0) =~= Seq::<RawProfile>::empty());
    while rest.len() > 0
        invariant
            0 <= n <= all.len(),
            rest@ == all.skip(n),
            sorted@ == by_name(all.take(n)),
        decreases rest@.len(),
    {
        let profile: RawProfile = rest.remove(0);
        proof {
            assert(profile == all[n]);
            assert(rest@ =~= all.skip(n + 1));
            assert(all.take(n + 1).drop_last() =~= all.take(n));
            assert(all.take(n + 1).last() == all[n]);
            n = n + 1;
        }
        put_profile(&mut sorted, profile);
    }
    assert(all.take(n) =~= all);
    sorted
}

/// The first variable of a row of profiles that is built in.
pub open spec fn reserved_in_profiles(profiles: Seq<RawProfile>) -> Option<Seq<char>>
    decreases profiles.len(),
{
    if profiles.len() == 0 {
        None
    } else {
        match first_reserved(table_keys(given_table(profiles[0].variables))) {
            Some(key) => Some(key),
            None => reserved_in_profiles(profiles.drop_first()),
        }
    }
}

fn table_or_empty(table: Option<Vec<Variable>>) -> (r: Vec<Variable>)
    ensures
        r@ == given_table(table),
{
    match table {
        Some(t) => t,
        None => Vec::new(),
    }
}

impl RootConfig {
    /// Whether the profiles stand in the order of their names, each once.
    pub open spec fn wf(self) -> bool {
        profiles_ascend(self.per_profile@)
    }

    /// What a repository without a root manifest declares: nothing.
    pub fn empty() -> (r: Self)
        ensures
            r.repo_shared@.len() == 0,
            r.per_profile@.len() == 0,
            r.wf(),
    {
        RootConfig { repo_shared: Vec::new(), per_profile: Vec::new() }
    }

    /// Validates the variables of the root manifest: those that every module shares
    /// first, and then those of each profile in the order of their names. A profile
    /// without variables has an empty table.
    pub fn from_raw(raw: RawRoot) -> (r: Result<Self, RootConfigError>)
        ensures
            match first_reserved(table_keys(given_table(raw.variables))) {
                Some(key) => r matches Err(RootConfigError::Variable(e)) && e.key() == key,
                None => match reserved_in_profiles(by_name(raw.profiles@)) {
                    Some(key) => r matches Err(RootConfigError::Variable(e)) && e.key() == key,
                    None => r matches Ok(config) && config.repo_shared@ == given_table(
                        raw.variables,
                    ) && config.per_profile@.len() == by_name(raw.profiles@).len() && forall|i: int|
                        0 <= i < config.per_profile@.len() ==> (
                        #[trigger] config.per_profile@[i]).name == by_name(raw.profiles@)[i].name
                            && config.per_profile@[i].table@ == given_table(
                            by_name(raw.profiles@)[i].variables,
                        ),
                },
            },
            r matches Ok(config) ==> config.wf(),
    {
        let RawRoot { variables, profiles } = raw;
        let repo_shared: Vec<Variable> = table_or_empty(variables);
        match reject_reserved_keys(&repo_shared) {
            Ok(()) => {},
            Err(e) => return Err(RootConfigError::Variable(e)),
        }
        let mut rest: Vec<RawProfile> = order_profiles(profiles);
        let ghost all = rest@;
        let mut per_profile: Vec<ProfileVariables> = Vec::new();
        assert(all.skip(0) =~= all);
        while rest.len() > 0
            invariant
                per_profile@.len() <= all.len(),
                rest@ == all.skip(per_profile@.len() as int),
                reserved_in_profiles(all) == reserved_in_profiles(rest@),
                forall|i: int|
                    0 <= i < per_profile@.len() ==> (#[trigger] per_profile@[i]).name == all[i].name
                        && per_profile@[i].table@ == given_table(all[i].variables),
                by_name(raw.profiles@) == all,
                first_reserved(table_keys(given_table(raw.variables))) is None,
            decreases rest@.len(),
        {
            let ghost n = per_profile@.len() as int;
            let ghost before = rest@;
            let RawProfile { name, variables } = rest.remove(0);
            proof {
                assert(before[0] == all[n]);
                assert(rest@ =~= before.drop_first());
                assert(rest@ =~= all.skip(n + 1));
            }
            let table: Vec<Variable> = table_or_empty(variables);
            match reject_reserved_keys(&table) {
                Ok(()) => {},
                Err(e) => return Err(RootConfigError::Variable(e)),
            }
            per_profile.push(ProfileVariables { name, table });
        }
        proof {
            profiles_are_ordered(raw.profiles@, Seq::empty());
            assert forall|i: int, j: int| 0 <= i < j < per_profile@.len() implies text_less(
                (#[trigger] per_profile@[i]).name@,
                (#[trigger] per_profile@[j]).name@,
            ) by {
                assert(text_less(all[i].name@, all[j].name@));
            }
        }
        Ok(RootConfig { repo_shared, per_profile })
    }
}

} // verus!
