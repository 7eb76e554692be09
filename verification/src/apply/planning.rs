//! Turning resolved entries into a plan.
//!
//! Every `[[file]]` entry comes before every `[[directory]]` entry, each in the
//! order of declaration. Each declared entry has an index in that row, whether it
//! is active or not, and the targets of one entry are rolled back together.

use crate::config::EntryKind;
use crate::config::FileMode;
use crate::config::file_entry::walks_a_tree;
use crate::error::EngineError;
use crate::journal::Disposition;
use crate::journal::OperationModel;
use crate::journal::PlannedOperation;
use crate::journal::operation_models;
use crate::status::LiveTarget;
use crate::status::bytes_view;
use crate::text::opt_view;
use crate::text::views;
use crate::utf8_path::join_path;
use crate::utf8_path::path_joined;
use super::classify::ClassifyError;
use super::classify::classify_leaf;
use super::classify::failure_text;
use super::classify::is_tree_mode;
use super::classify::leaf_relation;
use super::classify::links;
use super::classify::read_view;
use super::collisions::TargetClaim;
use vstd::prelude::*;

verus! {

/// A file of a tree and how its target relates to it.
#[derive(Debug, Clone, PartialEq, Eq)]
pub struct LeafDisposition {
    /// Its path under the target directory.
    pub relative: String,
    /// How its target relates to it.
    pub disposition: Disposition,
}

/// A leaf with its path as a sequence of characters.
#[verifier::ext_equal]
pub ghost struct LeafModel {
    /// Its path under the target directory.
    pub relative: Seq<char>,
    /// How its target relates to it.
    pub disposition: Disposition,
}

impl View for LeafDisposition {
    type V = LeafModel;

    open spec fn view(&self) -> LeafModel {
        LeafModel { relative: self.relative@, disposition: self.disposition }
    }
}

/// The models of a row of leaves.
pub open spec fn leaf_models(leaves: Seq<LeafDisposition>) -> Seq<LeafModel> {
    leaves.map_values(|l: LeafDisposition| l@)
}

/// How one declared target relates to what would be written to it.
#[derive(Debug, Clone, PartialEq, Eq)]
pub struct TargetDisposition {
    /// The target as a whole.
    pub aggregate: Disposition,
    /// Each file of a tree; none for any other mode.
    pub leaves: Vec<LeafDisposition>,
}

/// A target's relation with its paths as sequences of characters.
#[verifier::ext_equal]
pub ghost struct RelationModel {
    /// The target as a whole.
    pub aggregate: Disposition,
    /// Each file of a tree.
    pub leaves: Seq<LeafModel>,
}

impl View for TargetDisposition {
    type V = RelationModel;

    open spec fn view(&self) -> RelationModel {
        RelationModel { aggregate: self.aggregate, leaves: leaf_models(self.leaves@) }
    }
}

/// The models of a row of relations.
pub open spec fn relation_models(dispositions: Seq<TargetDisposition>) -> Seq<RelationModel> {
    dispositions.map_values(|d: TargetDisposition| d@)
}

/// A file of a source tree, with what stands at its target.
#[derive(Debug, PartialEq, Eq)]
pub struct LeafInput {
    /// Its path under the source.
    pub relative: String,
    /// What stands at its target.
    pub live: LiveTarget,
    /// Its bytes, or why they cannot be read.
    pub source_bytes: Result<Vec<u8>, String>,
}

/// How a file of a source tree relates to its target.
pub open spec fn input_relation(mode: FileMode, source: Seq<char>, input: LeafInput) -> Option<
    Disposition,
> {
    leaf_relation(
        mode,
        path_joined(source, input.relative@),
        input.live,
        read_view(input.source_bytes),
        None,
    )
}

/// The leaves of a tree, or the first source that cannot be read, and why.
pub open spec fn classified_leaves(
    mode: FileMode,
    source: Seq<char>,
    inputs: Seq<LeafInput>,
) -> Result<Seq<LeafModel>, (Seq<char>, Seq<char>)>
    decreases inputs.len(),
{
    if inputs.len() == 0 {
        Ok(Seq::empty())
    } else {
        match classified_leaves(mode, source, inputs.drop_last()) {
            Err(fault) => Err(fault),
            Ok(leaves) => match input_relation(mode, source, inputs.last()) {
                None => Err(
                    (
                        path_joined(source, inputs.last().relative@),
                        failure_text(inputs.last().source_bytes),
                    ),
                ),
                Some(disposition) => Ok(
                    leaves.push(LeafModel { relative: inputs.last().relative@, disposition }),
                ),
            },
        }
    }
}

/// Whether every leaf is unchanged.
pub open spec fn all_unchanged(leaves: Seq<LeafModel>) -> bool {
    forall|i: int| 0 <= i < leaves.len() ==> (#[trigger] leaves[i]).disposition is Unchanged
}

/// What a row of leaves that exist comes to as a whole.
pub open spec fn aggregate_of(leaves: Seq<LeafModel>) -> Disposition {
    if all_unchanged(leaves) {
        Disposition::Unchanged
    } else {
        Disposition::Update
    }
}

/// How a declared target relates to what would be written to it, or the source
/// that cannot be read, and why. A tree whose target directory is not there is created as
/// a whole; of one that is there each file counts.
pub open spec fn target_relation(
    mode: FileMode,
    source: Seq<char>,
    live: LiveTarget,
    source_bytes: Result<Vec<u8>, String>,
    rendered: Option<Seq<u8>>,
    inputs: Seq<LeafInput>,
) -> Result<RelationModel, (Seq<char>, Seq<char>)> {
    if !walks_a_tree(mode) {
        match leaf_relation(mode, source, live, read_view(source_bytes), rendered) {
            Some(aggregate) => Ok(RelationModel { aggregate, leaves: Seq::empty() }),
            None => Err((source, failure_text(source_bytes))),
        }
    } else if !live.present {
        Ok(RelationModel { aggregate: Disposition::Create, leaves: Seq::empty() })
    } else {
        match classified_leaves(mode, source, inputs) {
            Ok(leaves) => Ok(RelationModel { aggregate: aggregate_of(leaves), leaves }),
            Err(fault) => Err(fault),
        }
    }
}

/// A tree that is there is unchanged as a whole exactly where each of its files
/// is.
pub proof fn tree_is_unchanged_when_its_leaves_are(leaves: Seq<LeafModel>)
    ensures
        aggregate_of(leaves) is Unchanged <==> all_unchanged(leaves),
        !(aggregate_of(leaves) is Create),
{
}

proof fn unclassified_in_front(mode: FileMode, source: Seq<char>, inputs: Seq<LeafInput>, n: int)
    requires
        0 <= n <= inputs.len(),
        classified_leaves(mode, source, inputs.take(n)) is Err,
    ensures
        classified_leaves(mode, source, inputs) == classified_leaves(mode, source, inputs.take(n)),
    decreases inputs.len(),
{
    if n == inputs.len() {
        assert(inputs.take(n) =~= inputs);
    } else {
        assert(inputs.drop_last().take(n) =~= inputs.take(n));
        unclassified_in_front(mode, source, inputs.drop_last(), n);
    }
}

fn classify_leaves(mode: FileMode, source: &str, inputs: &Vec<LeafInput>) -> (r: Result<
    Vec<LeafDisposition>,
    ClassifyError,
>)
    ensures
        match classified_leaves(mode, source@, inputs@) {
            Ok(leaves) => r is Ok && leaf_models(r->Ok_0@) == leaves,
            Err(fault) => r matches Err(ClassifyError::Io { path, message }) && path@ == fault.0
                && message@ == fault.1,
        },
{
    let mut leaves: Vec<LeafDisposition> = Vec::new();
    assert(leaf_models(leaves@) =~= Seq::<LeafModel>::empty());
    let mut i: usize = 0;
    while i < inputs.len()
        invariant
            i <= inputs@.len(),
            classified_leaves(mode, source@, inputs@.take(i as int)) == Ok::<
                Seq<LeafModel>,
                (Seq<char>, Seq<char>),
            >(leaf_models(leaves@)),
        decreases inputs@.len() - i,
    {
        let ghost before = leaf_models(leaves@);
        let input: &LeafInput = &inputs[i];
        let path: String = join_path(source, input.relative.as_str());
        proof {
            assert(inputs@.take(i + 1).drop_last() =~= inputs@.take(i as int));
            assert(inputs@.take(i + 1).last() == *input);
        }
        match classify_leaf(mode, path.as_str(), &input.live, &input.source_bytes, &None) {
            Ok(disposition) => {
                leaves.push(LeafDisposition { relative: input.relative.clone(), disposition });
                assert(leaf_models(leaves@) =~= before.push(
                    LeafModel { relative: input.relative@, disposition },
                ));
            },
            Err(e) => {
                proof {
                    unclassified_in_front(mode, source@, inputs@, i + 1);
                }
                return Err(e);
            },
        }
        i = i + 1;
    }
    assert(inputs@.take(i as int) =~= inputs@);
    Ok(leaves)
}

/// Whether every leaf is unchanged.
fn are_unchanged(leaves: &Vec<LeafDisposition>) -> (r: bool)
    ensures
        r == all_unchanged(leaf_models(leaves@)),
        r <==> forall|i: int|
            0 <= i < leaves@.len() ==> (#[trigger] leaves@[i]).disposition == Disposition::Unchanged,
{
    let mut i: usize = 0;
    while i < leaves.len()
        invariant
            i <= leaves@.len(),
            forall|k: int|
                0 <= k < i ==> (#[trigger] leaf_models(leaves@)[k]).disposition is Unchanged,
            forall|k: int|
                0 <= k < i ==> (#[trigger] leaves@[k]).disposition == Disposition::Unchanged,
        decreases leaves@.len() - i,
    {
        if leaves[i].disposition != Disposition::Unchanged {
            assert(!(leaf_models(leaves@)[i as int].disposition is Unchanged));
            return false;
        }
        i = i + 1;
    }
    true
}

/// How a declared target relates to what would be written to it. `live` is what
/// stands there; `source_bytes` and `rendered` count for a single object, and
/// `inputs`, the files of the source in the order of the walk, for a tree.
pub fn classify_target(
    mode: FileMode,
    source: &str,
    live: &LiveTarget,
    source_bytes: &Result<Vec<u8>, String>,
    rendered: &Option<Vec<u8>>,
    inputs: &Vec<LeafInput>,
) -> (r: Result<TargetDisposition, ClassifyError>)
    ensures
        match target_relation(
            mode,
            source@,
            *live,
            *source_bytes,
            bytes_view(*rendered),
            inputs@,
        ) {
            Ok(model) => r is Ok && r->Ok_0@ == model,
            Err(fault) => r matches Err(ClassifyError::Io { path, message }) && path@ == fault.0
                && message@ == fault.1,
        },
        r matches Ok(relation) ==> (mode == FileMode::SymlinkTree || mode == FileMode::CopyTree
            ==> (relation.aggregate == Disposition::Create <==> !live.present)),
        r matches Ok(relation) ==> ((mode == FileMode::SymlinkTree || mode == FileMode::CopyTree)
            && live.present ==> (relation.aggregate == Disposition::Unchanged <==> forall|i: int|
            0 <= i < relation.leaves@.len() ==> (#[trigger] relation.leaves@[i]).disposition
                == Disposition::Unchanged)),
{
    let none: Vec<LeafDisposition> = Vec::new();
    assert(leaf_models(none@) =~= Seq::<LeafModel>::empty());
    if !is_tree_mode(mode) {
        return match classify_leaf(mode, source, live, source_bytes, rendered) {
            Ok(aggregate) => Ok(TargetDisposition { aggregate, leaves: none }),
            Err(e) => Err(e),
        };
    }
    if !live.present {
        return Ok(TargetDisposition { aggregate: Disposition::Create, leaves: none });
    }
    match classify_leaves(mode, source, inputs) {
        Ok(leaves) => {
            proof {
                let models = leaf_models(leaves@);
                assert forall|i: int| 0 <= i < leaves@.len() implies (
                #[trigger] leaves@[i]).disposition == models[i].disposition by {}
                assert forall|i: int| 0 <= i < models.len() implies (
                #[trigger] models[i]).disposition == leaves@[i].disposition by {}
            }
            let aggregate: Disposition = if are_unchanged(&leaves) {
                Disposition::Unchanged
            } else {
                Disposition::Update
            };
            Ok(TargetDisposition { aggregate, leaves })
        },
        Err(e) => Err(e),
    }
}

/// An active entry with its paths resolved.
#[derive(Debug, Clone, PartialEq, Eq)]
pub struct ResolvedEntry {
    /// How it is materialized.
    pub mode: FileMode,
    /// Canonical absolute source.
    pub source: String,
    /// Absolute targets.
    pub targets: Vec<String>,
    /// How each target relates to what would be written to it.
    pub dispositions: Vec<TargetDisposition>,
    /// The module that declares the entry.
    pub module: String,
    /// The source as it was written.
    pub declared_source: String,
}

/// An operation as the executor needs it.
#[derive(Debug, Clone, PartialEq, Eq)]
pub struct ResolvedOperation {
    /// How it is materialized.
    pub mode: FileMode,
    /// Canonical absolute source.
    pub source: String,
    /// Absolute targets.
    pub targets: Vec<String>,
    /// How each target relates to what would be written to it.
    pub dispositions: Vec<TargetDisposition>,
    /// The index of the entry in the declared row.
    pub entry_index: u32,
}

/// An operation with its texts as sequences of characters.
#[verifier::ext_equal]
pub ghost struct ResolvedModel {
    /// How it is materialized.
    pub mode: FileMode,
    /// Canonical absolute source.
    pub source: Seq<char>,
    /// Absolute targets.
    pub targets: Seq<Seq<char>>,
    /// How each target relates to what would be written to it.
    pub dispositions: Seq<RelationModel>,
    /// The index of the entry in the declared row.
    pub entry_index: int,
}

impl View for ResolvedOperation {
    type V = ResolvedModel;

    open spec fn view(&self) -> ResolvedModel {
        ResolvedModel {
            mode: self.mode,
            source: self.source@,
            targets: views(self.targets@),
            dispositions: relation_models(self.dispositions@),
            entry_index: self.entry_index as int,
        }
    }
}

/// The operation that is recorded for a target.
pub open spec fn operation_for(
    mode: FileMode,
    source: Seq<char>,
    target: Seq<char>,
    disposition: Disposition,
) -> OperationModel {
    if links(mode) {
        OperationModel::Symlink { source, target, disposition }
    } else if mode is TemplateRender {
        OperationModel::Render { source, target, disposition }
    } else {
        OperationModel::Copy { source, target, disposition }
    }
}

/// The operation that is recorded for a target. The three kinds of links are one
/// kind of operation, and so are the two kinds of copies.
pub fn planned_operation(mode: FileMode, source: &str, target: &str, disposition: Disposition) -> (op:
    PlannedOperation)
    ensures
        op@ == operation_for(mode, source@, target@, disposition),
{
    match mode {
        FileMode::Symlink | FileMode::SymlinkDir | FileMode::SymlinkTree =>
            PlannedOperation::symlink(source, target, disposition),
        FileMode::Copy | FileMode::CopyTree => PlannedOperation::copy(source, target, disposition),
        FileMode::TemplateRender => PlannedOperation::render(source, target, disposition),
    }
}

/// The number of targets of an entry that have a relation.
pub open spec fn paired(entry: ResolvedEntry) -> nat {
    if entry.targets@.len() <= entry.dispositions@.len() {
        entry.targets@.len()
    } else {
        entry.dispositions@.len()
    }
}

/// The operations of the first `n` targets of an entry.
pub open spec fn entry_operations(entry: ResolvedEntry, n: nat) -> Seq<OperationModel> {
    Seq::new(
        n,
        |i: int|
            operation_for(
                entry.mode,
                entry.source@,
                entry.targets@[i]@,
                entry.dispositions@[i].aggregate,
            ),
    )
}

/// The operations of a row of declared entries, in order. An entry that is not
/// active has none.
pub open spec fn planned_operations(entries: Seq<Option<ResolvedEntry>>) -> Seq<OperationModel>
    decreases entries.len(),
{
    if entries.len() == 0 {
        Seq::empty()
    } else {
        let before = planned_operations(entries.drop_last());
        match entries.last() {
            Some(entry) => before + entry_operations(entry, paired(entry)),
            None => before,
        }
    }
}

/// The index of the entry at a place of the declared row: the place itself, as
/// far as the index can count.
pub open spec fn index_at(place: int) -> int {
    if place <= u32::MAX {
        place
    } else {
        u32::MAX as int
    }
}

/// What the executor needs of the active entries of a declared row, in order.
pub open spec fn resolved_operations(entries: Seq<Option<ResolvedEntry>>) -> Seq<ResolvedModel>
    decreases entries.len(),
{
    if entries.len() == 0 {
        Seq::empty()
    } else {
        let before = resolved_operations(entries.drop_last());
        match entries.last() {
            Some(entry) => before.push(
                ResolvedModel {
                    mode: entry.mode,
                    source: entry.source@,
                    targets: views(entry.targets@),
                    dispositions: relation_models(entry.dispositions@),
                    entry_index: index_at(entries.len() - 1),
                },
            ),
            None => before,
        }
    }
}

/// The models of a row of operations of the executor.
pub open spec fn resolved_models(ops: Seq<ResolvedOperation>) -> Seq<ResolvedModel> {
    ops.map_values(|o: ResolvedOperation| o@)
}

fn push_operations(ops: &mut Vec<PlannedOperation>, entry: &ResolvedEntry)
    ensures
        operation_models(final(ops)@) == operation_models(
            old(ops)@,
        ) + entry_operations(*entry, paired(*entry)),
{
    let ghost before = operation_models(ops@);
    let mut t: usize = 0;
    assert(before + entry_operations(*entry, 0) =~= before);
    while t < entry.targets.len() && t < entry.dispositions.len()
        invariant
            t <= entry.targets@.len(),
            t <= entry.dispositions@.len(),
            operation_models(ops@) == before + entry_operations(*entry, t as nat),
        decreases entry.targets@.len() - t,
    {
        let ghost so_far = operation_models(ops@);
        let op: PlannedOperation = planned_operation(
            entry.mode,
            entry.source.as_str(),
            entry.targets[t].as_str(),
            entry.dispositions[t].aggregate,
        );
        let ghost model = op@;
        ops.push(op);
        proof {
            assert(operation_models(ops@) =~= so_far.push(model));
            assert(entry_operations(*entry, (t + 1) as nat) =~= entry_operations(
                *entry,
                t as nat,
            ).push(model));
            assert(operation_models(ops@) =~= before + entry_operations(
                *entry,
                (t + 1) as nat,
            ));
        }
        t = t + 1;
    }
}

/// The durable operations and those of the executor for the declared entries,
/// every `[[file]]` before every `[[directory]]`. An entry that is not active is
/// `None`: it keeps its index and has no operation.
pub fn assemble_plan_operations(
    file_entries: Vec<Option<ResolvedEntry>>,
    directory_entries: Vec<Option<ResolvedEntry>>,
) -> (r: (Vec<PlannedOperation>, Vec<ResolvedOperation>))
    ensures
        operation_models(r.0@) == planned_operations(
            file_entries@ + directory_entries@,
        ),
        resolved_models(r.1@) == resolved_operations(file_entries@ + directory_entries@),
{
    let ghost all = file_entries@ + directory_entries@;
    let mut rest: Vec<Option<ResolvedEntry>> = file_entries;
    let mut tail: Vec<Option<ResolvedEntry>> = directory_entries;
    rest.append(&mut tail);
    let mut ops: Vec<PlannedOperation> = Vec::new();
    let mut resolved: Vec<ResolvedOperation> = Vec::new();
    let mut entry_index: u32 = 0;
    let ghost mut n: int = 0;
    proof {
        assert(rest@ =~= all.skip(0));
        assert(operation_models(ops@) =~= Seq::<OperationModel>::empty());
        assert(resolved_models(resolved@) =~= Seq::<ResolvedModel>::empty());
    }
    while rest.len() > 0
        invariant
            0 <= n <= all.len(),
            rest@ == all.skip(n),
            entry_index == index_at(n),
            operation_models(ops@) == planned_operations(all.take(n)),
            resolved_models(resolved@) == resolved_operations(all.take(n)),
        decreases rest@.len(),
    {
        let ghost before = resolved_models(resolved@);
        let slot: Option<ResolvedEntry> = rest.remove(0);
        proof {
            assert(slot == all[n]);
            assert(rest@ =~= all.skip(n + 1));
            assert(all.take(n + 1).drop_last() =~= all.take(n));
            assert(all.take(n + 1).last() == slot);
        }
        match slot {
            Some(entry) => {
                push_operations(&mut ops, &entry);
                let op: ResolvedOperation = ResolvedOperation {
                    mode: entry.mode,
                    source: entry.source,
                    targets: entry.targets,
                    dispositions: entry.dispositions,
                    entry_index,
                };
                let ghost model = op@;
                resolved.push(op);
                assert(resolved_models(resolved@) =~= before.push(model));
            },
            None => {},
        }
        entry_index = if entry_index < u32::MAX {
            entry_index + 1
        } else {
            entry_index
        };
        proof {
            n = n + 1;
        }
    }
    assert(all.take(n) =~= all);
    (ops, resolved)
}

/// The operations of the executor are in the order of the declarations and each
/// has an index of its own, so that a `[[file]]` and a `[[directory]]` are never
/// rolled back as one.
pub proof fn indices_are_ascending(entries: Seq<Option<ResolvedEntry>>, i: int, j: int)
    requires
        entries.len() <= u32::MAX,
        0 <= i < j < resolved_operations(entries).len(),
    ensures
        0 <= resolved_operations(entries)[i].entry_index < resolved_operations(
            entries,
        )[j].entry_index < entries.len(),
    decreases entries.len(),
{
    let front = entries.drop_last();
    let before = resolved_operations(front);
    if entries.last() is Some {
        if j < before.len() {
            indices_are_ascending(front, i, j);
        } else {
            index_is_inside(front, i);
        }
    } else {
        indices_are_ascending(front, i, j);
    }
}

proof fn index_is_inside(entries: Seq<Option<ResolvedEntry>>, i: int)
    requires
        entries.len() <= u32::MAX,
        0 <= i < resolved_operations(entries).len(),
    ensures
        0 <= resolved_operations(entries)[i].entry_index < entries.len(),
    decreases entries.len(),
{
    let front = entries.drop_last();
    if i < resolved_operations(front).len() {
        index_is_inside(front, i);
    }
}

/// The targets of the files of a tree under one target directory.
pub open spec fn leaf_targets(target: Seq<char>, leaves: Seq<Seq<char>>) -> Seq<Seq<char>> {
    leaves.map_values(|leaf: Seq<char>| path_joined(target, leaf))
}

/// Whether a claim is that of one declared target of a tree.
pub open spec fn is_leaf_claim(
    claim: TargetClaim,
    entry: ResolvedEntry,
    target: Seq<char>,
    leaves: Seq<Seq<char>>,
) -> bool {
    &&& claim.module@ == entry.module@
    &&& claim.source@ == entry.declared_source@
    &&& claim.mode == entry.mode
    &&& opt_view(claim.tree_target) == Some(target)
    &&& views(claim.targets@) == leaf_targets(target, leaves)
}

/// Whether a claim is that of an entry that is no tree.
pub open spec fn is_plain_claim(claim: TargetClaim, entry: ResolvedEntry) -> bool {
    &&& claim.module@ == entry.module@
    &&& claim.source@ == entry.declared_source@
    &&& claim.mode == entry.mode
    &&& claim.tree_target is None
    &&& views(claim.targets@) == views(entry.targets@)
}

/// Whether a row of claims is that of one active entry: of a tree one for each
/// declared target, with the files under it, and otherwise one.
pub open spec fn are_entry_claims(
    claims: Seq<TargetClaim>,
    entry: ResolvedEntry,
    leaves: Seq<Seq<char>>,
) -> bool {
    if walks_a_tree(entry.mode) {
        claims.len() == entry.targets@.len() && forall|i: int|
            0 <= i < claims.len() ==> is_leaf_claim(
                #[trigger] claims[i],
                entry,
                entry.targets@[i]@,
                leaves,
            )
    } else {
        claims.len() == 1 && is_plain_claim(claims[0], entry)
    }
}

fn joined_under(target: &str, leaves: &Vec<String>) -> (r: Vec<String>)
    ensures
        views(r@) == leaf_targets(target@, views(leaves@)),
{
    let mut r: Vec<String> = Vec::new();
    let mut i: usize = 0;
    while i < leaves.len()
        invariant
            i <= leaves@.len(),
            r@.len() == i,
            forall|k: int| 0 <= k < i ==> (#[trigger] r@[k])@ == path_joined(target@, leaves@[k]@),
        decreases leaves@.len() - i,
    {
        r.push(join_path(target, leaves[i].as_str()));
        i = i + 1;
    }
    assert(views(r@) =~= leaf_targets(target@, views(leaves@)));
    r
}

fn copy_texts(texts: &Vec<String>) -> (r: Vec<String>)
    ensures
        views(r@) == views(texts@),
{
    let mut r: Vec<String> = Vec::new();
    let mut i: usize = 0;
    while i < texts.len()
        invariant
            i <= texts@.len(),
            r@.len() == i,
            forall|k: int| 0 <= k < i ==> (#[trigger] r@[k])@ == texts@[k]@,
        decreases texts@.len() - i,
    {
        r.push(texts[i].clone());
        i = i + 1;
    }
    assert(views(r@) =~= views(texts@));
    r
}

/// What one active entry claims. `leaves` are the files of its source, for a tree.
pub fn claims_of(entry: &ResolvedEntry, leaves: &Vec<String>) -> (claims: Vec<TargetClaim>)
    ensures
        are_entry_claims(claims@, *entry, views(leaves@)),
{
    let mut claims: Vec<TargetClaim> = Vec::new();
    if !is_tree_mode(entry.mode) {
        claims.push(
            TargetClaim {
                module: entry.module.clone(),
                source: entry.declared_source.clone(),
                mode: entry.mode,
                tree_target: None,
                targets: copy_texts(&entry.targets),
            },
        );
        return claims;
    }
    let mut t: usize = 0;
    while t < entry.targets.len()
        invariant
            t <= entry.targets@.len(),
            claims@.len() == t,
            forall|i: int|
                0 <= i < t ==> is_leaf_claim(
                    #[trigger] claims@[i],
                    *entry,
                    entry.targets@[i]@,
                    views(leaves@),
                ),
        decreases entry.targets@.len() - t,
    {
        let target: &str = entry.targets[t].as_str();
        claims.push(
            TargetClaim {
                module: entry.module.clone(),
                source: entry.declared_source.clone(),
                mode: entry.mode,
                tree_target: Some(target.to_owned()),
                targets: joined_under(target, leaves),
            },
        );
        t = t + 1;
    }
    claims
}

/// Whether a row of claims is that of the active entries of a declared row, in
/// order. `walks` holds the files of each entry that is a tree.
pub open spec fn are_claims(
    claims: Seq<TargetClaim>,
    entries: Seq<Option<ResolvedEntry>>,
    walks: Seq<Vec<String>>,
) -> bool
    decreases entries.len(),
{
    if entries.len() == 0 {
        claims.len() == 0
    } else {
        let n = entries.len() - 1;
        match entries.last() {
            None => are_claims(claims, entries.drop_last(), walks),
            Some(entry) => exists|cut: int|
                #![trigger claims.take(cut)]
                0 <= cut <= claims.len() && are_claims(
                    claims.take(cut),
                    entries.drop_last(),
                    walks,
                ) && are_entry_claims(claims.skip(cut), entry, views(walks[n]@)),
        }
    }
}

/// What the active entries of a declared row claim, in order. `walks` holds, for
/// each entry, the files of its source if it is a tree.
pub fn expand_claims(entries: &Vec<Option<ResolvedEntry>>, walks: &Vec<Vec<String>>) -> (claims:
    Vec<TargetClaim>)
    requires
        walks@.len() == entries@.len(),
    ensures
        are_claims(claims@, entries@, walks@),
{
    let mut claims: Vec<TargetClaim> = Vec::new();
    let mut i: usize = 0;
    while i < entries.len()
        invariant
            i <= entries@.len(),
            walks@.len() == entries@.len(),
            are_claims(claims@, entries@.take(i as int), walks@),
        decreases entries@.len() - i,
    {
        proof {
            assert(entries@.take(i + 1).drop_last() =~= entries@.take(i as int));
            assert(entries@.take(i + 1).last() == entries@[i as int]);
        }
        match &entries[i] {
            Some(entry) => {
                let ghost before = claims@;
                let mut more: Vec<TargetClaim> = claims_of(entry, &walks[i]);
                let ghost added = more@;
                claims.append(&mut more);
                proof {
                    assert(claims@.take(before.len() as int) =~= before);
                    assert(claims@.skip(before.len() as int) =~= added);
                }
            },
            None => {},
        }
        i = i + 1;
    }
    assert(entries@.take(i as int) =~= entries@);
    claims
}

/// The error of a source whose kind is not that of its table.
pub open spec fn kind_fault(kind: EntryKind, is_dir: bool) -> bool {
    (kind is File && is_dir) || (kind is Directory && !is_dir)
}

/// Whether an error says what a source is and where it belongs.
pub open spec fn says_kind(e: EngineError, source: Seq<char>, is_dir: bool) -> bool {
    e matches EngineError::SourceKindMismatch { path, found, declared_table, expected_table }
        && path@ == source && (if is_dir {
        found@ == "directory"@ && declared_table@ == "[[file]]"@ && expected_table@
            == "[[directory]]"@
    } else {
        found@ == "file"@ && declared_table@ == "[[directory]]"@ && expected_table@ == "[[file]]"@
    })
}

/// Refuses a source whose kind is not that of the table that declares it.
pub fn validate_source_kind(source: &str, kind: EntryKind, is_dir: bool) -> (r: Result<
    (),
    EngineError,
>)
    ensures
        r is Ok <==> !kind_fault(kind, is_dir),
        r matches Err(e) ==> says_kind(e, source@, is_dir),
{
    match kind {
        EntryKind::File => {
            if is_dir {
                return Err(
                    EngineError::SourceKindMismatch {
                        path: source.to_owned(),
                        found: "directory",
                        declared_table: "[[file]]",
                        expected_table: "[[directory]]",
                    },
                );
            }
        },
        EntryKind::Directory => {
            if !is_dir {
                return Err(
                    EngineError::SourceKindMismatch {
                        path: source.to_owned(),
                        found: "file",
                        declared_table: "[[directory]]",
                        expected_table: "[[file]]",
                    },
                );
            }
        },
    }
    Ok(())
}

} // verus!
