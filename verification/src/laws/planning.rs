//! From declared entries to a plan.

use crate::apply::classify::ClassifyError;
use crate::apply::collisions::CollisionError;
use crate::apply::collisions::TargetClaim;
use crate::apply::plan::DeclaredEntry;
use crate::apply::plan::DeclaredModule;
use crate::apply::plan::NamedEntry;
use crate::apply::plan::PlannedModules;
use crate::apply::plan::all_covered;
use crate::apply::plan::all_directories;
use crate::apply::plan::all_entries;
use crate::apply::plan::all_files;
use crate::apply::plan::all_hooks;
use crate::apply::plan::are_slots;
use crate::apply::plan::gate_and_resolve_entry;
use crate::apply::plan::is_covered;
use crate::apply::plan::is_slot;
use crate::apply::plan::named;
use crate::apply::plan::plan;
use crate::apply::planning::RelationModel;
use crate::apply::planning::ResolvedEntry;
use crate::apply::planning::ResolvedOperation;
use crate::apply::planning::TargetDisposition;
use crate::apply::planning::are_claims;
use crate::apply::planning::are_entry_claims;
use crate::apply::planning::assemble_plan_operations;
use crate::apply::planning::classify_target;
use crate::apply::planning::entry_operations;
use crate::apply::planning::expand_claims;
use crate::apply::planning::is_leaf_claim;
use crate::apply::planning::is_plain_claim;
use crate::apply::planning::leaf_models;
use crate::apply::planning::operation_for;
use crate::apply::planning::paired;
use crate::apply::planning::planned_operation;
use crate::apply::planning::planned_operations;
use crate::apply::planning::relation_models;
use crate::apply::planning::resolved_models;
use crate::apply::planning::resolved_operations;
use crate::apply::planning::target_relation;
use crate::apply::planning::validate_source_kind;
use crate::apply::registry::EntryOrigin;
use crate::apply::registry::LeafFact;
use crate::apply::registry::RemoteError;
use crate::apply::registry::SourceFacts;
use crate::apply::registry::check_source;
use crate::apply::registry::first_link;
use crate::apply::resolve::EntryFacts;
use crate::apply::resolve::TargetFacts;
use crate::apply::resolve::entry_relations;
use crate::apply::resolve::is_active;
use crate::apply::resolve::is_collision_verdict;
use crate::apply::resolve::resolve_entry;
use crate::config::EntryKind;
use crate::config::FileMode;
use crate::config::ManagedEntry;
use crate::error::EngineError;
use crate::journal::Disposition;
use crate::journal::OperationModel;
use crate::journal::PlannedOperation;
use crate::journal::operation_models;
use crate::path_order::path_under;
use crate::paths::expand_tilde;
use crate::paths::locate;
use crate::status::bytes_view;
use crate::text::views;
use crate::utf8_path::path_joined;
use vstd::prelude::*;

verus! {

/// An entry without a condition is active; any other is exactly where its condition
/// holds.
pub proof fn conditions_decide(
    condition: Option<String>,
    evaluated: Result<bool, String>,
    r: Result<bool, EngineError>,
)
    requires
        call_ensures(is_active, (&condition, &evaluated), r),
    ensures
        condition is None ==> r == Ok::<bool, EngineError>(true),
        condition is Some ==> (r is Err <==> evaluated is Err),
        condition is Some && evaluated is Ok ==> r == Ok::<bool, EngineError>(evaluated->Ok_0),
{
}

/// An entry whose condition does not hold comes to nothing, whatever was found of it.
/// Any other comes to something or to an error.
pub proof fn inactive_entries_come_to_nothing(
    declared: DeclaredEntry,
    module: &str,
    home: &str,
    r: Result<Option<ResolvedEntry>, EngineError>,
)
    requires
        call_ensures(gate_and_resolve_entry, (declared, module, home), r),
    ensures
        declared.entry.when is Some && declared.evaluated is Err ==> r is Err,
        declared.evaluated is Ok || declared.entry.when is None ==> (r == Ok::<
            Option<ResolvedEntry>,
            EngineError,
        >(None) <==> declared.entry.when is Some && declared.evaluated == Ok::<bool, String>(
            false,
        )),
        (declared.entry.when is None || declared.evaluated == Ok::<bool, String>(true))
            && declared.found is Err ==> r == Err::<Option<ResolvedEntry>, EngineError>(
            declared.found->Err_0,
        ),
{
}

proof fn relation_of_each(
    mode: FileMode,
    source: Seq<char>,
    rendered: Option<Seq<u8>>,
    targets: Seq<TargetFacts>,
    i: int,
)
    requires
        0 <= i < targets.len(),
        entry_relations(mode, source, rendered, targets) is Ok,
    ensures
        entry_relations(mode, source, rendered, targets)->Ok_0.len() == targets.len(),
        target_relation(
            mode,
            source,
            targets[i].live,
            targets[i].source_bytes,
            rendered,
            targets[i].inputs@,
        ) == Ok::<RelationModel, (Seq<char>, Seq<char>)>(
            entry_relations(mode, source, rendered, targets)->Ok_0[i],
        ),
    decreases targets.len(),
{
    let front = targets.drop_last();
    relations_as_many(mode, source, rendered, targets);
    relations_as_many(mode, source, rendered, front);
    if i < front.len() {
        assert(front[i] == targets[i]);
        relation_of_each(mode, source, rendered, front, i);
    }
}

proof fn relations_as_many(
    mode: FileMode,
    source: Seq<char>,
    rendered: Option<Seq<u8>>,
    targets: Seq<TargetFacts>,
)
    ensures
        entry_relations(mode, source, rendered, targets) matches Ok(all) ==> all.len()
            == targets.len(),
    decreases targets.len(),
{
    if targets.len() > 0 {
        relations_as_many(mode, source, rendered, targets.drop_last());
    }
}

/// An active entry keeps its mode, its module and its declared source, and has as many
/// targets as it declares.
pub proof fn entries_keep_what_they_declare(
    entry: ManagedEntry,
    origin: EntryOrigin,
    module: &str,
    home: &str,
    facts: EntryFacts,
    x: ResolvedEntry,
)
    requires
        facts.targets@.len() == entry.targets@.len(),
        call_ensures(
            resolve_entry,
            (&entry, &origin, module, home, &facts),
            Ok::<ResolvedEntry, EngineError>(x),
        ),
    ensures
        x.mode == entry.mode,
        x.source@ == facts.source@,
        x.module@ == module@,
        x.declared_source@ == entry.source@,
        x.targets@.len() == entry.targets@.len(),
        x.dispositions@.len() == entry.targets@.len(),
{
}

/// Each target of an active entry is where its declaration leads: with `~` expanded, and
/// the name kept under its resolved parent.
pub proof fn targets_are_where_they_are_declared(
    entry: ManagedEntry,
    origin: EntryOrigin,
    module: &str,
    home: &str,
    facts: EntryFacts,
    x: ResolvedEntry,
    i: int,
    declared: &str,
    place: String,
    expanded: &str,
    resolved: &str,
    target: String,
)
    requires
        facts.targets@.len() == entry.targets@.len(),
        call_ensures(
            resolve_entry,
            (&entry, &origin, module, home, &facts),
            Ok::<ResolvedEntry, EngineError>(x),
        ),
        0 <= i < entry.targets@.len(),
        declared@ == entry.targets@[i]@,
        call_ensures(expand_tilde, (declared, home), place),
        expanded@ == place@,
        resolved@ == facts.targets@[i].resolved@,
        call_ensures(locate, (expanded, resolved), target),
    ensures
        x.targets@[i]@ == target@,
{
    assert(views(x.targets@)[i] == x.targets@[i]@);
}

/// Each target of an active entry is classified by what was found there, as it would be
/// by itself.
pub proof fn targets_are_classified_one_by_one(
    entry: ManagedEntry,
    origin: EntryOrigin,
    module: &str,
    home: &str,
    facts: EntryFacts,
    x: ResolvedEntry,
    i: int,
    source: &str,
    relation: TargetDisposition,
)
    requires
        facts.targets@.len() == entry.targets@.len(),
        call_ensures(
            resolve_entry,
            (&entry, &origin, module, home, &facts),
            Ok::<ResolvedEntry, EngineError>(x),
        ),
        0 <= i < entry.targets@.len(),
        source@ == facts.source@,
        call_ensures(
            classify_target,
            (
                entry.mode,
                source,
                &facts.targets@[i].live,
                &facts.targets@[i].source_bytes,
                &facts.rendered,
                &facts.targets@[i].inputs,
            ),
            Ok::<TargetDisposition, ClassifyError>(relation),
        ),
    ensures
        x.dispositions@[i].aggregate == relation.aggregate,
        x.dispositions@[i].leaves@.len() == relation.leaves@.len(),
        forall|d: int|
            0 <= d < relation.leaves@.len() ==> (#[trigger] x.dispositions@[i].leaves@[d]).relative@
                == relation.leaves@[d].relative@ && x.dispositions@[i].leaves@[d].disposition
                == relation.leaves@[d].disposition,
{
    let rendered = bytes_view(facts.rendered);
    relation_of_each(entry.mode, facts.source@, rendered, facts.targets@, i);
    assert(relation_models(x.dispositions@)[i] == x.dispositions@[i]@);
    let a = x.dispositions@[i];
    assert(a@ == relation@);
    assert(leaf_models(a.leaves@) == leaf_models(relation.leaves@));
    assert(leaf_models(a.leaves@).len() == a.leaves@.len());
    assert(leaf_models(relation.leaves@).len() == relation.leaves@.len());
    assert forall|d: int| 0 <= d < relation.leaves@.len() implies (
    #[trigger] a.leaves@[d]).relative@ == relation.leaves@[d].relative@ && a.leaves@[d].disposition
        == relation.leaves@[d].disposition by {
        assert(leaf_models(a.leaves@)[d] == a.leaves@[d]@);
        assert(leaf_models(relation.leaves@)[d] == relation.leaves@[d]@);
    }
}

/// An entry from a remote whose checkout is not on this machine is refused by the name of the
/// remote, whatever its mode and whatever stands at its source.
pub proof fn missing_checkouts_are_refused(
    entry: ManagedEntry,
    origin: EntryOrigin,
    module: &str,
    home: &str,
    facts: EntryFacts,
    r: Result<ResolvedEntry, EngineError>,
)
    requires
        call_ensures(resolve_entry, (&entry, &origin, module, home, &facts), r),
        origin.source_root is None,
        origin.remote is Some,
    ensures
        r matches Err(EngineError::Remote(RemoteError::CheckoutNotMaterialized { name })) && name@
            == origin.remote->0@,
{
}

/// A source is refused exactly where something is wrong with it: it leads out of the
/// checkout of its remote, it is missing or cannot be looked at, its checkout holds a
/// link, or its kind is not that of its table.
pub proof fn sources_are_refused_for_a_reason(
    origin: EntryOrigin,
    root: &str,
    declared_source: &str,
    source: &str,
    kind: EntryKind,
    facts: SourceFacts,
    leaves: Vec<LeafFact>,
    r: Result<(), EngineError>,
)
    requires
        call_ensures(
            check_source,
            (&origin, root, declared_source, source, kind, &facts, &leaves),
            r,
        ),
    ensures
        r is Ok <==> (origin.remote is Some ==> path_under(source@, root@)) && (facts is File
            || facts is Directory) && (origin.remote is Some && facts is Directory ==> forall|i: int|
            0 <= i < leaves@.len() ==> !(#[trigger] leaves@[i]).is_link) && (kind is Directory
            <==> facts is Directory),
        origin.remote is Some && !path_under(source@, root@) ==> (r matches Err(
            EngineError::Remote(RemoteError::SourceEscapesCheckout { source_path, .. }),
        ) && source_path@ == declared_source@),
        (origin.remote is None || path_under(source@, root@)) && facts is Missing ==> (r matches Err(
            EngineError::SourceNotFound { path },
        ) && path@ == source@),
{
    links_are_found(leaves@);
}

pub(crate) proof fn links_are_found(leaves: Seq<LeafFact>)
    ensures
        first_link(leaves) is None <==> forall|i: int|
            0 <= i < leaves.len() ==> !(#[trigger] leaves[i]).is_link,
    decreases leaves.len(),
{
    if leaves.len() > 0 {
        let rest = leaves.drop_first();
        links_are_found(rest);
        assert(forall|i: int| 0 <= i < rest.len() ==> #[trigger] rest[i] == leaves[i + 1]);
        if first_link(leaves) is None {
            assert forall|i: int| 0 <= i < leaves.len() implies !(
            #[trigger] leaves[i]).is_link by {
                if i > 0 {
                    assert(!rest[i - 1].is_link);
                }
            }
        }
        if forall|i: int| 0 <= i < leaves.len() ==> !(#[trigger] leaves[i]).is_link {
            assert(!leaves[0].is_link);
            assert forall|i: int| 0 <= i < rest.len() implies !(#[trigger] rest[i]).is_link by {
                assert(!leaves[i + 1].is_link);
            }
        }
    }
}

/// A source is of the kind of its table: a directory for a `[[directory]]`, and anything
/// else for a `[[file]]`.
pub proof fn kinds_belong_to_their_tables(
    source: &str,
    kind: EntryKind,
    is_dir: bool,
    r: Result<(), EngineError>,
)
    requires
        call_ensures(validate_source_kind, (source, kind, is_dir), r),
    ensures
        r is Ok <==> (is_dir <==> kind is Directory),
        r matches Err(e) ==> (e matches EngineError::SourceKindMismatch { path, .. } && path@
            == source@),
{
}

/// What is recorded for a target is what is done there: a link, a copy or a rendered
/// template, from its source, to it.
pub proof fn operations_are_recorded_as_they_are(
    mode: FileMode,
    source: &str,
    target: &str,
    disposition: Disposition,
    op: PlannedOperation,
)
    requires
        call_ensures(planned_operation, (mode, source, target, disposition), op),
    ensures
        match mode {
            FileMode::Symlink | FileMode::SymlinkDir | FileMode::SymlinkTree => op@ == (
            OperationModel::Symlink { source: source@, target: target@, disposition }),
            FileMode::Copy | FileMode::CopyTree => op@ == (OperationModel::Copy {
                source: source@,
                target: target@,
                disposition,
            }),
            FileMode::TemplateRender => op@ == (OperationModel::Render {
                source: source@,
                target: target@,
                disposition,
            }),
        },
{
}

proof fn operation_is_planned(entries: Seq<Option<ResolvedEntry>>, e: int, t: int)
    requires
        0 <= e < entries.len(),
        entries[e] is Some,
        0 <= t < entries[e]->0.targets@.len(),
        t < entries[e]->0.dispositions@.len(),
    ensures
        planned_operations(entries).contains(
            operation_for(
                entries[e]->0.mode,
                entries[e]->0.source@,
                entries[e]->0.targets@[t]@,
                entries[e]->0.dispositions@[t].aggregate,
            ),
        ),
    decreases entries.len(),
{
    let front = entries.drop_last();
    let before = planned_operations(front);
    let entry = entries[e]->0;
    let op = operation_for(
        entry.mode,
        entry.source@,
        entry.targets@[t]@,
        entry.dispositions@[t].aggregate,
    );
    let all = planned_operations(entries);
    if e < front.len() {
        assert(front[e] == entries[e]);
        operation_is_planned(front, e, t);
        let k = choose|k: int| 0 <= k < before.len() && before[k] == op;
        assert(all[k] == op);
    } else {
        let here = entry_operations(entry, paired(entry));
        assert(here[t] == op);
        assert(all[before.len() + t] == op);
    }
}

/// Every target of every active entry has its operation in the plan, with its source and
/// its relation.
pub proof fn every_target_is_planned(
    files: Vec<Option<ResolvedEntry>>,
    directories: Vec<Option<ResolvedEntry>>,
    r: (Vec<PlannedOperation>, Vec<ResolvedOperation>),
    e: int,
    t: int,
)
    requires
        call_ensures(assemble_plan_operations, (files, directories), r),
        0 <= e < files@.len() + directories@.len(),
        (files@ + directories@)[e] is Some,
        0 <= t < (files@ + directories@)[e]->0.targets@.len(),
        t < (files@ + directories@)[e]->0.dispositions@.len(),
    ensures
        ({
            let entry = (files@ + directories@)[e]->0;
            exists|k: int|
                0 <= k < r.0@.len() && (#[trigger] r.0@[k])@ == match entry.mode {
                    FileMode::Symlink | FileMode::SymlinkDir | FileMode::SymlinkTree =>
                        OperationModel::Symlink {
                        source: entry.source@,
                        target: entry.targets@[t]@,
                        disposition: entry.dispositions@[t].aggregate,
                    },
                    FileMode::Copy | FileMode::CopyTree => OperationModel::Copy {
                        source: entry.source@,
                        target: entry.targets@[t]@,
                        disposition: entry.dispositions@[t].aggregate,
                    },
                    FileMode::TemplateRender => OperationModel::Render {
                        source: entry.source@,
                        target: entry.targets@[t]@,
                        disposition: entry.dispositions@[t].aggregate,
                    },
                }
        }),
{
    let entries = files@ + directories@;
    let entry = entries[e]->0;
    operation_is_planned(entries, e, t);
    let op = operation_for(
        entry.mode,
        entry.source@,
        entry.targets@[t]@,
        entry.dispositions@[t].aggregate,
    );
    let all = operation_models(r.0@);
    let k = choose|k: int| 0 <= k < all.len() && all[k] == op;
    assert(r.0@[k]@ == op);
}

proof fn entry_is_resolved(entries: Seq<Option<ResolvedEntry>>, e: int) -> (k: int)
    requires
        0 <= e < entries.len() <= u32::MAX,
        entries[e] is Some,
    ensures
        0 <= k < resolved_operations(entries).len(),
        resolved_operations(entries)[k].mode == entries[e]->0.mode,
        resolved_operations(entries)[k].source == entries[e]->0.source@,
        resolved_operations(entries)[k].targets == views(entries[e]->0.targets@),
        resolved_operations(entries)[k].dispositions == relation_models(
            entries[e]->0.dispositions@,
        ),
        resolved_operations(entries)[k].entry_index == e,
    decreases entries.len(),
{
    let front = entries.drop_last();
    if e < front.len() {
        assert(front[e] == entries[e]);
        entry_is_resolved(front, e)
    } else {
        resolved_operations(front).len() as int
    }
}

/// Every active entry has its operation for the executor, under the number of its place
/// in the declared row, with its mode, its source and all its targets.
pub proof fn every_active_entry_has_its_operation(
    files: Vec<Option<ResolvedEntry>>,
    directories: Vec<Option<ResolvedEntry>>,
    r: (Vec<PlannedOperation>, Vec<ResolvedOperation>),
    e: int,
)
    requires
        call_ensures(assemble_plan_operations, (files, directories), r),
        0 <= e < files@.len() + directories@.len() <= u32::MAX,
        (files@ + directories@)[e] is Some,
    ensures
        ({
            let entry = (files@ + directories@)[e]->0;
            exists|k: int|
                0 <= k < r.1@.len() && (#[trigger] r.1@[k]).entry_index == e && r.1@[k].mode
                    == entry.mode && r.1@[k].source@ == entry.source@ && views(r.1@[k].targets@)
                    == views(entry.targets@) && relation_models(r.1@[k].dispositions@)
                    == relation_models(entry.dispositions@)
        }),
{
    let k = entry_is_resolved(files@ + directories@, e);
    assert(resolved_models(r.1@)[k] == r.1@[k]@);
}

proof fn resolved_has_an_entry(entries: Seq<Option<ResolvedEntry>>, k: int) -> (e: int)
    requires
        entries.len() <= u32::MAX,
        0 <= k < resolved_operations(entries).len(),
    ensures
        0 <= e < entries.len(),
        entries[e] is Some,
        resolved_operations(entries)[k].entry_index == e,
        resolved_operations(entries)[k].mode == entries[e]->0.mode,
    decreases entries.len(),
{
    let front = entries.drop_last();
    if k < resolved_operations(front).len() {
        let e = resolved_has_an_entry(front, k);
        assert(front[e] == entries[e]);
        e
    } else {
        entries.len() - 1
    }
}

/// Nothing but the active entries has an operation.
pub proof fn only_active_entries_have_operations(
    files: Vec<Option<ResolvedEntry>>,
    directories: Vec<Option<ResolvedEntry>>,
    r: (Vec<PlannedOperation>, Vec<ResolvedOperation>),
    k: int,
)
    requires
        call_ensures(assemble_plan_operations, (files, directories), r),
        files@.len() + directories@.len() <= u32::MAX,
        0 <= k < r.1@.len(),
    ensures
        r.1@[k].entry_index < files@.len() + directories@.len(),
        (files@ + directories@)[r.1@[k].entry_index as int] is Some,
{
    assert(resolved_models(r.1@).len() == r.1@.len());
    assert(resolved_models(r.1@)[k] == r.1@[k]@);
    let e = resolved_has_an_entry(files@ + directories@, k);
}

/// The number of claims of an entry: one for each target of a tree, and else one.
spec fn claims_for(entry: Option<ResolvedEntry>) -> nat {
    match entry {
        None => 0,
        Some(x) => match x.mode {
            FileMode::SymlinkTree | FileMode::CopyTree => x.targets@.len(),
            _ => 1,
        },
    }
}

/// The number of claims of the first `n` entries.
spec fn claims_before(entries: Seq<Option<ResolvedEntry>>, n: int) -> nat
    decreases n,
{
    if n <= 0 {
        0
    } else {
        claims_before(entries, n - 1) + claims_for(entries[n - 1])
    }
}

proof fn claims_ascend(entries: Seq<Option<ResolvedEntry>>, m: int, n: int)
    requires
        0 <= m <= n,
    ensures
        claims_before(entries, m) <= claims_before(entries, n),
    decreases n - m,
{
    if m < n {
        claims_ascend(entries, m, n - 1);
    }
}

proof fn claims_of_front(entries: Seq<Option<ResolvedEntry>>, n: int)
    requires
        0 <= n < entries.len(),
    ensures
        claims_before(entries.drop_last(), n) == claims_before(entries, n),
    decreases n,
{
    if n > 0 {
        claims_of_front(entries, n - 1);
        assert(entries.drop_last()[n - 1] == entries[n - 1]);
    }
}

proof fn claims_are_counted(
    claims: Seq<TargetClaim>,
    entries: Seq<Option<ResolvedEntry>>,
    walks: Seq<Vec<String>>,
)
    requires
        are_claims(claims, entries, walks),
    ensures
        claims.len() == claims_before(entries, entries.len() as int),
    decreases entries.len(),
{
    if entries.len() > 0 {
        let front = entries.drop_last();
        claims_of_front(entries, entries.len() - 1);
        match entries.last() {
            None => {
                claims_are_counted(claims, front, walks);
            },
            Some(entry) => {
                let cut = choose|cut: int|
                    #![trigger claims.take(cut)]
                    0 <= cut <= claims.len() && are_claims(claims.take(cut), front, walks)
                        && are_entry_claims(
                        claims.skip(cut),
                        entry,
                        views(walks[entries.len() - 1]@),
                    );
                claims_are_counted(claims.take(cut), front, walks);
            },
        }
    }
}

/// The claims of an active entry stand where the entries before it leave off.
proof fn claims_stand_in_order(
    claims: Seq<TargetClaim>,
    entries: Seq<Option<ResolvedEntry>>,
    walks: Seq<Vec<String>>,
    e: int,
    t: int,
)
    requires
        are_claims(claims, entries, walks),
        0 <= e < entries.len(),
        entries[e] is Some,
        0 <= t < claims_for(entries[e]),
    ensures
        claims_before(entries, e) + t < claims.len(),
        ({
            let entry = entries[e]->0;
            let claim = claims[claims_before(entries, e) + t];
            match entry.mode {
                FileMode::SymlinkTree | FileMode::CopyTree => is_leaf_claim(
                    claim,
                    entry,
                    entry.targets@[t]@,
                    views(walks[e]@),
                ),
                _ => is_plain_claim(claim, entry),
            }
        }),
    decreases entries.len(),
{
    let front = entries.drop_last();
    let n = entries.len() - 1;
    claims_of_front(entries, n);
    claims_of_front(entries, e);
    claims_are_counted(claims, entries, walks);
    match entries.last() {
        None => {
            assert(front[e] == entries[e]);
            claims_stand_in_order(claims, front, walks, e, t);
        },
        Some(entry) => {
            let cut = choose|cut: int|
                #![trigger claims.take(cut)]
                0 <= cut <= claims.len() && are_claims(claims.take(cut), front, walks)
                    && are_entry_claims(claims.skip(cut), entry, views(walks[n]@));
            claims_are_counted(claims.take(cut), front, walks);
            if e < n {
                assert(front[e] == entries[e]);
                claims_stand_in_order(claims.take(cut), front, walks, e, t);
            } else {
                assert(claims.skip(cut)[t] == claims[cut + t]);
            }
        },
    }
}

/// Every active entry claims every object that it would write: each of its targets, or,
/// for a tree, each file of its source under each of its targets. The claim says whose
/// it is.
pub proof fn active_entries_claim_what_they_write(
    entries: Vec<Option<ResolvedEntry>>,
    walks: Vec<Vec<String>>,
    claims: Vec<TargetClaim>,
    e: int,
    t: int,
    l: int,
)
    requires
        walks@.len() == entries@.len(),
        call_ensures(expand_claims, (&entries, &walks), claims),
        0 <= e < entries@.len(),
        entries@[e] is Some,
        0 <= t < entries@[e]->0.targets@.len(),
        entries@[e]->0.mode == FileMode::SymlinkTree || entries@[e]->0.mode == FileMode::CopyTree
            ==> 0 <= l < walks@[e]@.len(),
    ensures
        ({
            let entry = entries@[e]->0;
            let place = match entry.mode {
                FileMode::SymlinkTree | FileMode::CopyTree => path_joined(
                    entry.targets@[t]@,
                    walks@[e]@[l]@,
                ),
                _ => entry.targets@[t]@,
            };
            exists|c: int, i: int|
                #![trigger claims@[c].targets@[i]]
                0 <= c < claims@.len() && 0 <= i < claims@[c].targets@.len()
                    && claims@[c].targets@[i]@ == place && claims@[c].mode == entry.mode
                    && claims@[c].module@ == entry.module@ && claims@[c].source@
                    == entry.declared_source@ && match entry.mode {
                    FileMode::SymlinkTree | FileMode::CopyTree => claims@[c].tree_target is Some
                        && claims@[c].tree_target->0@ == entry.targets@[t]@,
                    _ => claims@[c].tree_target is None,
                }
        }),
{
    let entry = entries@[e]->0;
    let tree = entry.mode == FileMode::SymlinkTree || entry.mode == FileMode::CopyTree;
    let at: int = if tree {
        t
    } else {
        0
    };
    claims_stand_in_order(claims@, entries@, walks@, e, at);
    let c = claims_before(entries@, e) + at;
    let claim = claims@[c];
    let i = if tree {
        l
    } else {
        t
    };
    assert(views(claim.targets@).len() == claim.targets@.len());
    assert(views(claim.targets@)[i] == claim.targets@[i]@);
    if tree {
        assert(views(walks@[e]@)[l] == walks@[e]@[l]@);
    } else {
        assert(views(entry.targets@)[t] == entry.targets@[t]@);
    }
    assert(claims@[c].targets@[i]@ == claim.targets@[i]@);
}

proof fn file_has_a_place(modules: Seq<DeclaredModule>, m: int, f: int) -> (k: int)
    requires
        0 <= m < modules.len(),
        0 <= f < modules[m].files@.len(),
    ensures
        0 <= k < all_files(modules).len(),
        all_files(modules)[k] == (modules[m].files@[f], modules[m].name@),
    decreases modules.len(),
{
    let here = named(modules[0].files@, modules[0].name@);
    let rest = modules.drop_first();
    if m == 0 {
        assert(here[f] == (modules[0].files@[f], modules[0].name@));
        f
    } else {
        assert(rest[m - 1] == modules[m]);
        let k = file_has_a_place(rest, m - 1, f);
        assert((here + all_files(rest))[here.len() + k] == all_files(rest)[k]);
        here.len() + k
    }
}

proof fn directory_has_a_place(modules: Seq<DeclaredModule>, m: int, d: int) -> (k: int)
    requires
        0 <= m < modules.len(),
        0 <= d < modules[m].directories@.len(),
    ensures
        0 <= k < all_directories(modules).len(),
        all_directories(modules)[k] == (modules[m].directories@[d], modules[m].name@),
    decreases modules.len(),
{
    let here = named(modules[0].directories@, modules[0].name@);
    let rest = modules.drop_first();
    if m == 0 {
        assert(here[d] == (modules[0].directories@[d], modules[0].name@));
        d
    } else {
        assert(rest[m - 1] == modules[m]);
        let k = directory_has_a_place(rest, m - 1, d);
        assert((here + all_directories(rest))[here.len() + k] == all_directories(rest)[k]);
        here.len() + k
    }
}

proof fn hook_has_a_place(modules: Seq<DeclaredModule>, m: int, h: int) -> (k: int)
    requires
        0 <= m < modules.len(),
        0 <= h < modules[m].hooks@.len(),
    ensures
        0 <= k < all_hooks(modules).len(),
        all_hooks(modules)[k] == modules[m].hooks@[h],
    decreases modules.len(),
{
    let here = modules[0].hooks@;
    let rest = modules.drop_first();
    if m == 0 {
        h
    } else {
        assert(rest[m - 1] == modules[m]);
        let k = hook_has_a_place(rest, m - 1, h);
        assert((here + all_hooks(rest))[here.len() + k] == all_hooks(rest)[k]);
        here.len() + k
    }
}

/// Whether a planned operation is that of a declared entry.
pub open spec fn is_planned(planned: PlannedModules, declared: DeclaredEntry) -> bool {
    declared.found is Ok && exists|k: int|
        0 <= k < planned.operations@.len() && (#[trigger] planned.operations@[k]).mode
            == declared.entry.mode && planned.operations@[k].source@
            == declared.found->Ok_0.facts.source@ && planned.operations@[k].targets@.len()
            == declared.entry.targets@.len() && planned.operations@[k].dispositions@.len()
            == declared.entry.targets@.len()
}

proof fn slot_is_planned(
    slots: Seq<Option<ResolvedEntry>>,
    entries: Seq<NamedEntry>,
    home: Seq<char>,
    all: Seq<Option<ResolvedEntry>>,
    planned: PlannedModules,
    k: int,
    at: int,
)
    requires
        are_slots(slots, entries, home),
        0 <= k < entries.len(),
        0 <= at < all.len() <= u32::MAX,
        all[at] == slots[k],
        resolved_models(planned.operations@) == resolved_operations(all),
        entries[k].0.entry.when is None || entries[k].0.evaluated == Ok::<bool, String>(true),
        entries[k].0.found matches Ok(found) ==> found.facts.targets@.len()
            == entries[k].0.entry.targets@.len(),
    ensures
        is_planned(planned, entries[k].0),
{
    let declared = entries[k].0;
    assert(is_slot(slots[k], entries[k], home));
    let x = slots[k]->0;
    let p = entry_is_resolved(all, at);
    assert(resolved_models(planned.operations@)[p] == planned.operations@[p]@);
    assert(views(planned.operations@[p].targets@).len() == planned.operations@[p].targets@.len());
    assert(relation_models(planned.operations@[p].dispositions@).len()
        == planned.operations@[p].dispositions@.len());
    assert(views(x.targets@).len() == x.targets@.len());
    assert(relation_models(x.dispositions@).len() == x.dispositions@.len());
}

/// A plan holds every active entry of every module: the `[[file]]` entries, the
/// `[[directory]]` entries and the hooks. It is that of the given run, and removes
/// nothing.
pub proof fn plans_hold_every_active_entry(
    modules: Vec<DeclaredModule>,
    home: &str,
    timestamp: &str,
    file_walks: Vec<Vec<String>>,
    directory_walks: Vec<Vec<String>>,
    anchors: Vec<(String, String)>,
    planned: PlannedModules,
    m: int,
)
    requires
        call_ensures(
            plan,
            (modules, home, timestamp, &file_walks, &directory_walks, &anchors),
            Ok::<PlannedModules, EngineError>(planned),
        ),
        all_covered(all_entries(modules@)),
        all_covered(all_files(modules@)),
        all_covered(all_directories(modules@)),
        all_files(modules@).len() + all_directories(modules@).len() <= u32::MAX,
        0 <= m < modules@.len(),
    ensures
        planned.timestamp@ == timestamp@,
        planned.plan@.removal is None,
        forall|f: int|
            0 <= f < modules@[m].files@.len() && ((#[trigger] modules@[m].files@[f]).entry.when
                is None || modules@[m].files@[f].evaluated == Ok::<bool, String>(true))
                ==> is_planned(planned, modules@[m].files@[f]),
        forall|d: int|
            0 <= d < modules@[m].directories@.len() && ((
            #[trigger] modules@[m].directories@[d]).entry.when is None
                || modules@[m].directories@[d].evaluated == Ok::<bool, String>(true)) ==> is_planned(
                planned,
                modules@[m].directories@[d],
            ),
        forall|h: int|
            0 <= h < modules@[m].hooks@.len() ==> planned.hooks@.contains(
                #[trigger] modules@[m].hooks@[h],
            ),
{
    let r = Ok::<PlannedModules, EngineError>(planned);
    let (files, directories, claims, verdict) = choose|
        files: Seq<Option<ResolvedEntry>>,
        directories: Seq<Option<ResolvedEntry>>,
        claims: Seq<TargetClaim>,
        verdict: Result<(), CollisionError>,
    |
        #[trigger] are_slots(files, all_files(modules@), home@) && #[trigger] are_slots(
            directories,
            all_directories(modules@),
            home@,
        ) && are_claims(claims, files + directories, file_walks@ + directory_walks@)
            && #[trigger] is_collision_verdict(verdict, claims, anchors@) && match verdict {
            Err(e) => r == Err::<PlannedModules, EngineError>(EngineError::Collision(e)),
            Ok(_) => r matches Ok(planned) && planned.timestamp@ == timestamp@
                && planned.plan@.removal is None && planned.plan@.operations == planned_operations(
                files + directories,
            ) && resolved_models(planned.operations@) == resolved_operations(files + directories)
                && planned.hooks@ == all_hooks(modules@),
        };
    let all = files + directories;
    let module = modules@[m];
    assert forall|f: int|
        0 <= f < module.files@.len() && ((#[trigger] module.files@[f]).entry.when is None
            || module.files@[f].evaluated == Ok::<bool, String>(true)) implies is_planned(
        planned,
        module.files@[f],
    ) by {
        let k = file_has_a_place(modules@, m, f);
        assert(all[k] == files[k]);
        assert(is_covered(all_files(modules@)[k].0));
        slot_is_planned(files, all_files(modules@), home@, all, planned, k, k);
    }
    assert forall|d: int|
        0 <= d < module.directories@.len() && ((#[trigger] module.directories@[d]).entry.when
            is None || module.directories@[d].evaluated == Ok::<bool, String>(
            true,
        )) implies is_planned(planned, module.directories@[d]) by {
        let k = directory_has_a_place(modules@, m, d);
        assert(all[files.len() + k] == directories[k]);
        assert(is_covered(all_directories(modules@)[k].0));
        slot_is_planned(
            directories,
            all_directories(modules@),
            home@,
            all,
            planned,
            k,
            files.len() + k,
        );
    }
    assert forall|h: int| 0 <= h < module.hooks@.len() implies planned.hooks@.contains(
        #[trigger] module.hooks@[h],
    ) by {
        let k = hook_has_a_place(modules@, m, h);
        assert(planned.hooks@[k] == module.hooks@[h]);
    }
}

} // verus!
