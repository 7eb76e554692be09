//! From declared entries to a plan.
//!
//! An entry whose condition does not hold is neither resolved nor checked. Of the
//! others the source is checked before anything else is looked at, each target is
//! classified against what stands there, and all of them together must not fight
//! over a target. Only then is there a plan; nothing has been changed so far.

use crate::config::FileMode;
use crate::config::ManagedEntry;
use crate::error::EngineError;
use crate::journal::Plan;
use crate::paths::expand_tilde;
use crate::paths::locate;
use crate::paths::located;
use crate::paths::tilde_expanded;
use crate::status::LiveTarget;
use crate::status::bytes_view;
use crate::text::opt_view;
use crate::text::views;
use super::classify::ClassifyError;
use super::collisions::CollisionError;
use super::collisions::StakedTarget;
use super::collisions::TargetClaim;
use super::collisions::all_stakes;
use super::collisions::first_contained;
use super::collisions::first_duplicate;
use super::collisions::says_contained;
use super::collisions::says_same;
use super::collisions::stake_models;
use super::collisions::validate_targets;
use super::planning::LeafInput;
use super::planning::RelationModel;
use super::planning::ResolvedEntry;
use super::planning::ResolvedOperation;
use super::planning::TargetDisposition;
use super::planning::are_claims;
use super::planning::are_entry_claims;
use super::planning::assemble_plan_operations;
use super::planning::classify_target;
use super::planning::expand_claims;
use super::planning::planned_operations;
use super::planning::relation_models;
use super::planning::resolved_models;
use super::planning::resolved_operations;
use super::planning::target_relation;
use super::registry::EntryOrigin;
use super::registry::LeafFact;
use super::registry::RemoteError;
use super::registry::SourceFacts;
use super::registry::check_source;
use super::registry::is_source_verdict;
use super::registry::root_of;
use super::registry::source_root;
use vstd::prelude::*;

verus! {

/// Whether an entry is active: one without a condition is, and otherwise its
/// condition decides. `evaluated` is what the condition evaluates to, and is not
/// looked at where there is none.
pub fn is_active(condition: &Option<String>, evaluated: &Result<bool, String>) -> (r: Result<
    bool,
    EngineError,
>)
    ensures
        condition is None ==> r == Ok::<bool, EngineError>(true),
        condition is Some ==> match *evaluated {
            Ok(value) => r == Ok::<bool, EngineError>(value),
            Err(text) => r matches Err(EngineError::Template { message }) && message@ == text@,
        },
{
    match condition {
        None => Ok(true),
        Some(_) => match evaluated {
            Ok(value) => Ok(*value),
            Err(message) => Err(EngineError::Template { message: message.clone() }),
        },
    }
}

/// What was found at a declared target.
#[derive(Debug, PartialEq, Eq)]
pub struct TargetFacts {
    /// The absolute form of the directory that it is in, or of the target itself where
    /// its path cannot be parted.
    pub resolved: String,
    /// What stands there.
    pub live: LiveTarget,
    /// The bytes of the source, or why they cannot be read.
    pub source_bytes: Result<Vec<u8>, String>,
    /// The files of a source tree, in the order of the walk.
    pub inputs: Vec<LeafInput>,
}

/// What was found at the source and the targets of an entry.
#[derive(Debug, PartialEq, Eq)]
pub struct EntryFacts {
    /// The canonical form of the path that [`source_path`](super::registry::source_path)
    /// gives.
    pub source: String,
    /// What stands there.
    pub state: SourceFacts,
    /// The files of a source in a checkout.
    pub leaves: Vec<LeafFact>,
    /// The output of a template.
    pub rendered: Option<Vec<u8>>,
    /// The declared targets, in order.
    pub targets: Vec<TargetFacts>,
}

/// How each target of an entry relates to what would be written to it, or the first
/// source that cannot be read, and why.
pub open spec fn entry_relations(
    mode: FileMode,
    source: Seq<char>,
    rendered: Option<Seq<u8>>,
    targets: Seq<TargetFacts>,
) -> Result<Seq<RelationModel>, (Seq<char>, Seq<char>)>
    decreases targets.len(),
{
    if targets.len() == 0 {
        Ok(Seq::empty())
    } else {
        match entry_relations(mode, source, rendered, targets.drop_last()) {
            Err(fault) => Err(fault),
            Ok(before) => {
                let t = targets.last();
                match target_relation(mode, source, t.live, t.source_bytes, rendered, t.inputs@) {
                    Ok(relation) => Ok(before.push(relation)),
                    Err(fault) => Err(fault),
                }
            },
        }
    }
}

proof fn unreadable_in_front(
    mode: FileMode,
    source: Seq<char>,
    rendered: Option<Seq<u8>>,
    targets: Seq<TargetFacts>,
    n: int,
)
    requires
        0 <= n <= targets.len(),
        entry_relations(mode, source, rendered, targets.take(n)) is Err,
    ensures
        entry_relations(mode, source, rendered, targets) == entry_relations(
            mode,
            source,
            rendered,
            targets.take(n),
        ),
    decreases targets.len(),
{
    if n == targets.len() {
        assert(targets.take(n) =~= targets);
    } else {
        assert(targets.drop_last().take(n) =~= targets.take(n));
        unreadable_in_front(mode, source, rendered, targets.drop_last(), n);
    }
}

proof fn one_relation_each(
    mode: FileMode,
    source: Seq<char>,
    rendered: Option<Seq<u8>>,
    targets: Seq<TargetFacts>,
)
    ensures
        entry_relations(mode, source, rendered, targets) matches Ok(relations) ==> relations.len()
            == targets.len(),
    decreases targets.len(),
{
    if targets.len() > 0 {
        one_relation_each(mode, source, rendered, targets.drop_last());
    }
}

/// How each target of an entry relates to what would be written to it. A template is
/// rendered once for all of them.
pub fn classify_entry(
    mode: FileMode,
    source: &str,
    rendered: &Option<Vec<u8>>,
    targets: &Vec<TargetFacts>,
) -> (r: Result<Vec<TargetDisposition>, ClassifyError>)
    ensures
        match entry_relations(mode, source@, bytes_view(*rendered), targets@) {
            Ok(relations) => r is Ok && relation_models(r->Ok_0@) == relations,
            Err(fault) => r matches Err(ClassifyError::Io { path, message }) && path@ == fault.0
                && message@ == fault.1,
        },
{
    let ghost made = bytes_view(*rendered);
    let mut relations: Vec<TargetDisposition> = Vec::new();
    assert(relation_models(relations@) =~= Seq::<RelationModel>::empty());
    let mut i: usize = 0;
    while i < targets.len()
        invariant
            i <= targets@.len(),
            made == bytes_view(*rendered),
            entry_relations(mode, source@, made, targets@.take(i as int)) == Ok::<
                Seq<RelationModel>,
                (Seq<char>, Seq<char>),
            >(relation_models(relations@)),
        decreases targets@.len() - i,
    {
        let ghost before = relation_models(relations@);
        let t: &TargetFacts = &targets[i];
        proof {
            assert(targets@.take(i + 1).drop_last() =~= targets@.take(i as int));
            assert(targets@.take(i + 1).last() == *t);
        }
        match classify_target(mode, source, &t.live, &t.source_bytes, rendered, &t.inputs) {
            Ok(relation) => {
                let ghost model = relation@;
                relations.push(relation);
                assert(relation_models(relations@) =~= before.push(model));
            },
            Err(e) => {
                proof {
                    unreadable_in_front(mode, source@, made, targets@, i + 1);
                }
                return Err(e);
            },
        }
        i = i + 1;
    }
    assert(targets@.take(i as int) =~= targets@);
    Ok(relations)
}

/// The absolute paths of a row of declared targets.
pub open spec fn target_paths(
    declared: Seq<String>,
    home: Seq<char>,
    facts: Seq<TargetFacts>,
) -> Seq<Seq<char>> {
    Seq::new(
        declared.len(),
        |i: int| located(tilde_expanded(declared[i]@, home), facts[i].resolved@),
    )
}

/// Whether a resolved entry is that of a declared one.
pub open spec fn is_resolution(
    x: ResolvedEntry,
    entry: ManagedEntry,
    module: Seq<char>,
    home: Seq<char>,
    facts: EntryFacts,
    relations: Seq<RelationModel>,
) -> bool {
    &&& x.mode == entry.mode
    &&& x.source@ == facts.source@
    &&& views(x.targets@) == target_paths(entry.targets@, home, facts.targets@)
    &&& x.dispositions@.len() == x.targets@.len()
    &&& relation_models(x.dispositions@) == relations
    &&& x.module@ == module
    &&& x.declared_source@ == entry.source@
}

/// Whether `r` is what an active entry of `module` comes to. A checkout that is not
/// here is refused first, then what is wrong with the source, then a source that
/// cannot be read.
pub open spec fn is_entry_outcome(
    r: Result<ResolvedEntry, EngineError>,
    entry: ManagedEntry,
    origin: EntryOrigin,
    module: Seq<char>,
    home: Seq<char>,
    facts: EntryFacts,
) -> bool {
    if origin.source_root is None && origin.remote is Some {
        r matches Err(EngineError::Remote(RemoteError::CheckoutNotMaterialized { name })) && Some(
            name@,
        ) == opt_view(origin.remote)
    } else {
        exists|verdict: Result<(), EngineError>|
            #[trigger] is_source_verdict(
                verdict,
                opt_view(origin.remote),
                root_of(origin),
                entry.source@,
                facts.source@,
                entry.kind,
                facts.state,
                facts.leaves@,
            ) && match verdict {
                Err(e) => r == Err::<ResolvedEntry, EngineError>(e),
                Ok(_) => match entry_relations(
                    entry.mode,
                    facts.source@,
                    bytes_view(facts.rendered),
                    facts.targets@,
                ) {
                    Err(fault) => r matches Err(
                        EngineError::Classify(ClassifyError::Io { path, message }),
                    ) && path@ == fault.0 && message@ == fault.1,
                    Ok(relations) => r matches Ok(x) && is_resolution(
                        x,
                        entry,
                        module,
                        home,
                        facts,
                        relations,
                    ),
                },
            }
    }
}

/// What an active entry of `module` comes to. Its source is checked first, and its
/// targets are classified only if that is in order. Something was found at each
/// target of the entry.
pub fn resolve_entry(
    entry: &ManagedEntry,
    origin: &EntryOrigin,
    module: &str,
    home: &str,
    facts: &EntryFacts,
) -> (r: Result<ResolvedEntry, EngineError>)
    requires
        facts.targets@.len() == entry.targets@.len(),
    ensures
        is_entry_outcome(r, *entry, *origin, module@, home@, *facts),
        r matches Ok(x) ==> x.targets@.len() == entry.targets@.len() && x.dispositions@.len()
            == entry.targets@.len(),
{
    let root: String = match source_root(origin) {
        Ok(root) => root,
        Err(e) => return Err(EngineError::Remote(e)),
    };
    let verdict: Result<(), EngineError> = check_source(
        origin,
        root.as_str(),
        entry.source.as_str(),
        facts.source.as_str(),
        entry.kind,
        &facts.state,
        &facts.leaves,
    );
    assert(is_source_verdict(
        verdict,
        opt_view(origin.remote),
        root_of(*origin),
        entry.source@,
        facts.source@,
        entry.kind,
        facts.state,
        facts.leaves@,
    ));
    match verdict {
        Err(e) => return Err(e),
        Ok(_) => {},
    }
    let dispositions: Vec<TargetDisposition> = match classify_entry(
        entry.mode,
        facts.source.as_str(),
        &facts.rendered,
        &facts.targets,
    ) {
        Ok(dispositions) => dispositions,
        Err(e) => return Err(EngineError::Classify(e)),
    };
    proof {
        one_relation_each(entry.mode, facts.source@, bytes_view(facts.rendered), facts.targets@);
        assert(dispositions@.len() == relation_models(dispositions@).len());
    }
    let mut targets: Vec<String> = Vec::new();
    let mut i: usize = 0;
    while i < entry.targets.len()
        invariant
            i <= entry.targets@.len(),
            facts.targets@.len() == entry.targets@.len(),
            targets@.len() == i,
            forall|k: int|
                0 <= k < i ==> (#[trigger] targets@[k])@ == located(
                    tilde_expanded(entry.targets@[k]@, home@),
                    facts.targets@[k].resolved@,
                ),
        decreases entry.targets@.len() - i,
    {
        let place: String = expand_tilde(entry.targets[i].as_str(), home);
        targets.push(locate(place.as_str(), facts.targets[i].resolved.as_str()));
        i = i + 1;
    }
    assert(views(targets@) =~= target_paths(entry.targets@, home@, facts.targets@));
    Ok(
        ResolvedEntry {
            mode: entry.mode,
            source: facts.source.clone(),
            targets,
            dispositions,
            module: module.to_owned(),
            declared_source: entry.source.clone(),
        },
    )
}

/// Whether `r` is what the check of a row of claims comes to.
pub open spec fn is_collision_verdict(
    r: Result<(), CollisionError>,
    claims: Seq<TargetClaim>,
    anchors: Seq<(String, String)>,
) -> bool {
    exists|staked: Seq<StakedTarget>|
        #![trigger stake_models(staked)]
        stake_models(staked) == all_stakes(claims, claims.len() as int, anchors) && (
        match first_duplicate(staked, 0) {
            Some((i, j)) => r matches Err(e) && says_same(e, claims, staked, i, j),
            None => match first_contained(claims, staked, 0) {
                Some((o, i)) => r matches Err(e) && says_contained(e, claims, staked, o, i),
                None => r is Ok,
            },
        })
}

/// The claims of two rows of entries, one after the other, are those of both rows.
proof fn claims_of_both(
    claims: Seq<TargetClaim>,
    more: Seq<TargetClaim>,
    entries: Seq<Option<ResolvedEntry>>,
    others: Seq<Option<ResolvedEntry>>,
    walks: Seq<Vec<String>>,
    other_walks: Seq<Vec<String>>,
)
    requires
        walks.len() == entries.len(),
        other_walks.len() == others.len(),
        are_claims(claims, entries, walks),
        are_claims(more, others, other_walks),
    ensures
        are_claims(claims + more, entries + others, walks + other_walks),
    decreases others.len(),
{
    let all = entries + others;
    let files = walks + other_walks;
    if others.len() == 0 {
        assert(all =~= entries);
        assert(claims + more =~= claims);
        assert(files =~= walks);
    } else {
        let front = others.drop_last();
        let front_walks = other_walks.drop_last();
        assert(all.drop_last() =~= entries + front);
        assert(all.last() == others.last());
        assert(files[all.len() - 1] == other_walks[others.len() - 1]);
        match others.last() {
            None => {
                fewer_walks(more, front, other_walks, front_walks);
                claims_of_both(claims, more, entries, front, walks, front_walks);
                fewer_walks(claims + more, entries + front, walks + front_walks, files);
            },
            Some(entry) => {
                let cut = choose|cut: int|
                    #![trigger more.take(cut)]
                    0 <= cut <= more.len() && are_claims(more.take(cut), front, other_walks)
                        && are_entry_claims(
                        more.skip(cut),
                        entry,
                        views(other_walks[others.len() - 1]@),
                    );
                fewer_walks(more.take(cut), front, other_walks, front_walks);
                claims_of_both(claims, more.take(cut), entries, front, walks, front_walks);
                fewer_walks(
                    claims + more.take(cut),
                    entries + front,
                    walks + front_walks,
                    files,
                );
                let both = claims + more;
                let at = claims.len() + cut;
                assert(both.take(at) =~= claims + more.take(cut));
                assert(both.skip(at) =~= more.skip(cut));
            },
        }
    }
}

/// Only the walks of the entries of a row count for its claims.
proof fn fewer_walks(
    claims: Seq<TargetClaim>,
    entries: Seq<Option<ResolvedEntry>>,
    walks: Seq<Vec<String>>,
    others: Seq<Vec<String>>,
)
    requires
        are_claims(claims, entries, walks),
        entries.len() <= walks.len(),
        entries.len() <= others.len(),
        forall|i: int| 0 <= i < entries.len() ==> walks[i] == #[trigger] others[i],
    ensures
        are_claims(claims, entries, others),
    decreases entries.len(),
{
    if entries.len() > 0 {
        let front = entries.drop_last();
        let n = entries.len() - 1;
        match entries.last() {
            None => {
                fewer_walks(claims, front, walks, others);
            },
            Some(entry) => {
                let cut = choose|cut: int|
                    #![trigger claims.take(cut)]
                    0 <= cut <= claims.len() && are_claims(claims.take(cut), front, walks)
                        && are_entry_claims(claims.skip(cut), entry, views(walks[n]@));
                fewer_walks(claims.take(cut), front, walks, others);
                assert(walks[n] == others[n]);
            },
        }
    }
}

/// The plan for the declared entries and what the executor needs of it, every
/// `[[file]]` before every `[[directory]]`, or why two of them fight over a target.
/// An entry that is not active is `None`. The walks hold the files of the sources of
/// trees, and `anchors` says how parent directories are respelled.
pub fn plan_entries(
    file_entries: Vec<Option<ResolvedEntry>>,
    directory_entries: Vec<Option<ResolvedEntry>>,
    file_walks: &Vec<Vec<String>>,
    directory_walks: &Vec<Vec<String>>,
    anchors: &Vec<(String, String)>,
) -> (r: Result<(Plan, Vec<ResolvedOperation>), EngineError>)
    requires
        file_walks@.len() == file_entries@.len(),
        directory_walks@.len() == directory_entries@.len(),
    ensures
        exists|claims: Seq<TargetClaim>, verdict: Result<(), CollisionError>|
            are_claims(
                claims,
                file_entries@ + directory_entries@,
                file_walks@ + directory_walks@,
            ) && #[trigger] is_collision_verdict(verdict, claims, anchors@) && match verdict {
                Err(e) => r == Err::<(Plan, Vec<ResolvedOperation>), EngineError>(
                    EngineError::Collision(e),
                ),
                Ok(_) => r matches Ok((plan, ops)) && plan@.removal is None && plan@.operations
                    == planned_operations(file_entries@ + directory_entries@) && resolved_models(ops@) == resolved_operations(
                    file_entries@ + directory_entries@,
                ),
            },
{
    let mut claims: Vec<TargetClaim> = expand_claims(&file_entries, file_walks);
    let mut more: Vec<TargetClaim> = expand_claims(&directory_entries, directory_walks);
    proof {
        claims_of_both(
            claims@,
            more@,
            file_entries@,
            directory_entries@,
            file_walks@,
            directory_walks@,
        );
    }
    claims.append(&mut more);
    let verdict: Result<(), CollisionError> = validate_targets(&claims, anchors);
    assert(is_collision_verdict(verdict, claims@, anchors@));
    match verdict {
        Err(e) => Err(EngineError::Collision(e)),
        Ok(_) => {
            let (operations, resolved) = assemble_plan_operations(file_entries, directory_entries);
            Ok((Plan::new(operations), resolved))
        },
    }
}

} // verus!
