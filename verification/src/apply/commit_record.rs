//! The record that a commit leaves behind.
//!
//! It holds one expected target for every object that the plan manages, and not
//! only for those that the run wrote: a target that was left alone because
//! nothing about it changed stays managed. A tree has one for each of its files.

use crate::clock::rfc3339;
use crate::clock::timestamp_to_rfc3339;
use crate::config::FileMode;
use crate::config::file_entry::walks_a_tree;
use crate::error::EngineError;
use crate::journal::ApplyRecord;
use crate::journal::Disposition;
use crate::journal::ExpectedTarget;
use crate::journal::JournalError;
use crate::journal::LastApply;
use crate::journal::blake3_hash;
use crate::journal::content_hash;
use crate::journal::record::TargetModel;
use crate::journal::record::target_models;
use crate::text::views;
use crate::utf8_path::join_path;
use crate::utf8_path::path_joined;
use super::classify::is_link_mode;
use super::classify::is_tree_mode;
use super::classify::links;
use super::planning::LeafModel;
use super::planning::RelationModel;
use super::planning::ResolvedModel;
use super::planning::ResolvedOperation;
use super::planning::TargetDisposition;
use super::planning::leaf_models;
use super::planning::resolved_models;
use vstd::prelude::*;

verus! {

/// An object that the plan manages.
#[derive(Debug, Clone, PartialEq, Eq)]
pub struct ManagedObject {
    /// How it is materialized.
    pub mode: FileMode,
    /// What it is made from.
    pub source: String,
    /// Where it stands.
    pub target: String,
    /// How it was classified at plan time.
    pub disposition: Disposition,
    /// The index of the entry that declares it.
    pub entry: u32,
}

/// An object with its paths as sequences of characters.
#[verifier::ext_equal]
pub ghost struct ObjectModel {
    /// How it is materialized.
    pub mode: FileMode,
    /// What it is made from.
    pub source: Seq<char>,
    /// Where it stands.
    pub target: Seq<char>,
    /// How it was classified at plan time.
    pub disposition: Disposition,
    /// The index of the entry that declares it.
    pub entry: int,
}

impl View for ManagedObject {
    type V = ObjectModel;

    open spec fn view(&self) -> ObjectModel {
        ObjectModel {
            mode: self.mode,
            source: self.source@,
            target: self.target@,
            disposition: self.disposition,
            entry: self.entry as int,
        }
    }
}

/// The models of a row of objects.
pub open spec fn object_models(objects: Seq<ManagedObject>) -> Seq<ObjectModel> {
    objects.map_values(|o: ManagedObject| o@)
}

/// The file `relative` of a tree as an object.
pub open spec fn leaf_object(
    op: ResolvedModel,
    target: Seq<char>,
    relative: Seq<char>,
    disposition: Disposition,
) -> ObjectModel {
    ObjectModel {
        mode: op.mode,
        source: path_joined(op.source, relative),
        target: path_joined(target, relative),
        disposition,
        entry: op.entry_index,
    }
}

/// The objects at a target of an operation. `walked` are the files of its source,
/// which a tree that was not there before is made of.
pub open spec fn target_objects(
    op: ResolvedModel,
    target: Seq<char>,
    relation: RelationModel,
    walked: Seq<Seq<char>>,
) -> Seq<ObjectModel> {
    if !walks_a_tree(op.mode) {
        seq![
            ObjectModel {
                mode: op.mode,
                source: op.source,
                target,
                disposition: relation.aggregate,
                entry: op.entry_index,
            },
        ]
    } else if relation.aggregate is Create {
        walked.map_values(|l: Seq<char>| leaf_object(op, target, l, Disposition::Create))
    } else {
        relation.leaves.map_values(
            |l: LeafModel| leaf_object(op, target, l.relative, l.disposition),
        )
    }
}

/// The number of targets of an operation that have a relation.
pub open spec fn pairs(op: ResolvedModel) -> nat {
    if op.targets.len() <= op.dispositions.len() {
        op.targets.len()
    } else {
        op.dispositions.len()
    }
}

/// The objects at the first `n` targets of an operation, in order.
pub open spec fn operation_objects(op: ResolvedModel, walked: Seq<Seq<char>>, n: nat) -> Seq<
    ObjectModel,
>
    decreases n,
{
    if n == 0 {
        Seq::empty()
    } else {
        operation_objects(op, walked, (n - 1) as nat) + target_objects(
            op,
            op.targets[n - 1],
            op.dispositions[n - 1],
            walked,
        )
    }
}

/// The objects of a row of operations, in order.
pub open spec fn plan_objects(ops: Seq<ResolvedModel>, walks: Seq<Seq<Seq<char>>>) -> Seq<
    ObjectModel,
>
    decreases ops.len(),
{
    if ops.len() == 0 {
        Seq::empty()
    } else {
        plan_objects(ops.drop_last(), walks) + operation_objects(
            ops.last(),
            walks[ops.len() - 1],
            pairs(ops.last()),
        )
    }
}

/// The views of a row of lists.
pub open spec fn walk_views(walks: Seq<Vec<String>>) -> Seq<Seq<Seq<char>>> {
    walks.map_values(|w: Vec<String>| views(w@))
}

/// Adds the objects of a tree at a target: its files as they were classified or,
/// where the target was not there, every file of the source.
fn record_tree_targets(
    objects: &mut Vec<ManagedObject>,
    op: &ResolvedOperation,
    target: &str,
    disposition: &TargetDisposition,
    walked: &Vec<String>,
)
    requires
        walks_a_tree(op.mode),
    ensures
        object_models(final(objects)@) == object_models(old(objects)@) + target_objects(
            op@,
            target@,
            disposition@,
            views(walked@),
        ),
{
    let ghost before = object_models(objects@);
    if disposition.aggregate == Disposition::Create {
        let ghost all = views(walked@);
        let ghost f = |l: Seq<char>| leaf_object(op@, target@, l, Disposition::Create);
        let mut i: usize = 0;
        assert(before + all.take(0).map_values(f) =~= before);
        while i < walked.len()
            invariant
                i <= walked@.len(),
                all == views(walked@),
                f == (|l: Seq<char>| leaf_object(op@, target@, l, Disposition::Create)),
                object_models(objects@) == before + all.take(i as int).map_values(f),
            decreases walked@.len() - i,
        {
            let ghost now = object_models(objects@);
            let object: ManagedObject = ManagedObject {
                mode: op.mode,
                source: join_path(op.source.as_str(), walked[i].as_str()),
                target: join_path(target, walked[i].as_str()),
                disposition: Disposition::Create,
                entry: op.entry_index,
            };
            let ghost o = object@;
            objects.push(object);
            proof {
                assert(object_models(objects@) =~= now.push(o));
                assert(all.take(i + 1).map_values(f) =~= all.take(i as int).map_values(f).push(o));
                assert(object_models(objects@) =~= before + all.take(i + 1).map_values(f));
            }
            i = i + 1;
        }
        assert(all.take(i as int) =~= all);
        return;
    }
    let ghost all = leaf_models(disposition.leaves@);
    let ghost f = |l: LeafModel| leaf_object(op@, target@, l.relative, l.disposition);
    let mut i: usize = 0;
    assert(before + all.take(0).map_values(f) =~= before);
    while i < disposition.leaves.len()
        invariant
            i <= disposition.leaves@.len(),
            all == leaf_models(disposition.leaves@),
            f == (|l: LeafModel| leaf_object(op@, target@, l.relative, l.disposition)),
            object_models(objects@) == before + all.take(i as int).map_values(f),
        decreases disposition.leaves@.len() - i,
    {
        let ghost now = object_models(objects@);
        let relative: &String = &disposition.leaves[i].relative;
        let object: ManagedObject = ManagedObject {
            mode: op.mode,
            source: join_path(op.source.as_str(), relative.as_str()),
            target: join_path(target, relative.as_str()),
            disposition: disposition.leaves[i].disposition,
            entry: op.entry_index,
        };
        let ghost o = object@;
        objects.push(object);
        proof {
            assert(all[i as int] == disposition.leaves@[i as int]@);
            assert(object_models(objects@) =~= now.push(o));
            assert(all.take(i + 1).map_values(f) =~= all.take(i as int).map_values(f).push(o));
            assert(object_models(objects@) =~= before + all.take(i + 1).map_values(f));
        }
        i = i + 1;
    }
    assert(all.take(i as int) =~= all);
}

fn push_operation_objects(
    objects: &mut Vec<ManagedObject>,
    op: &ResolvedOperation,
    walked: &Vec<String>,
)
    ensures
        object_models(final(objects)@) == object_models(old(objects)@) + operation_objects(
            op@,
            views(walked@),
            pairs(op@),
        ),
{
    let ghost before = object_models(objects@);
    let ghost files = views(walked@);
    let count: usize = if op.targets.len() <= op.dispositions.len() {
        op.targets.len()
    } else {
        op.dispositions.len()
    };
    let mut i: usize = 0;
    assert(before + operation_objects(op@, files, 0) =~= before);
    while i < count
        invariant
            i <= count,
            count == pairs(op@),
            count <= op.targets@.len(),
            count <= op.dispositions@.len(),
            files == views(walked@),
            object_models(objects@) == before + operation_objects(op@, files, i as nat),
        decreases count - i,
    {
        let ghost now = object_models(objects@);
        let ghost here = target_objects(
            op@,
            op@.targets[i as int],
            op@.dispositions[i as int],
            files,
        );
        if is_tree_mode(op.mode) {
            record_tree_targets(objects, op, op.targets[i].as_str(), &op.dispositions[i], walked);
        } else {
            let object: ManagedObject = ManagedObject {
                mode: op.mode,
                source: op.source.clone(),
                target: op.targets[i].clone(),
                disposition: op.dispositions[i].aggregate,
                entry: op.entry_index,
            };
            let ghost o = object@;
            objects.push(object);
            assert(object_models(objects@) =~= now + seq![o]);
        }
        proof {
            assert(object_models(objects@) =~= now + here);
            assert(before + operation_objects(op@, files, (i + 1) as nat) =~= now + here);
        }
        i = i + 1;
    }
}

/// The objects that the operations of a plan manage, in order, whether the run
/// wrote them or left them alone. `walks` holds the files of the source of each
/// operation that is a tree.
pub fn committed_objects(ops: &Vec<ResolvedOperation>, walks: &Vec<Vec<String>>) -> (r: Vec<
    ManagedObject,
>)
    requires
        walks@.len() == ops@.len(),
    ensures
        object_models(r@) == plan_objects(resolved_models(ops@), walk_views(walks@)),
{
    let ghost all = resolved_models(ops@);
    let ghost files = walk_views(walks@);
    let mut r: Vec<ManagedObject> = Vec::new();
    assert(object_models(r@) =~= Seq::<ObjectModel>::empty());
    let mut i: usize = 0;
    while i < ops.len()
        invariant
            i <= ops@.len(),
            walks@.len() == ops@.len(),
            all == resolved_models(ops@),
            files == walk_views(walks@),
            object_models(r@) == plan_objects(all.take(i as int), files),
        decreases ops@.len() - i,
    {
        proof {
            assert(all.take(i + 1).drop_last() =~= all.take(i as int));
            assert(all.take(i + 1).last() == ops@[i as int]@);
            assert(files[i as int] == views(walks@[i as int]@));
        }
        push_operation_objects(&mut r, &ops[i], &walks[i]);
        i = i + 1;
    }
    assert(all.take(i as int) =~= all);
    r
}

/// Every target that is no tree has its object, whatever was done with it: one that
/// was left alone too.
pub proof fn every_target_is_recorded(
    ops: Seq<ResolvedModel>,
    walks: Seq<Seq<Seq<char>>>,
    i: int,
    j: int,
)
    requires
        0 <= i < ops.len(),
        0 <= j < pairs(ops[i]),
        !walks_a_tree(ops[i].mode),
    ensures
        plan_objects(ops, walks).contains(
            ObjectModel {
                mode: ops[i].mode,
                source: ops[i].source,
                target: ops[i].targets[j],
                disposition: ops[i].dispositions[j].aggregate,
                entry: ops[i].entry_index,
            },
        ),
    decreases ops.len(),
{
    let object = ObjectModel {
        mode: ops[i].mode,
        source: ops[i].source,
        target: ops[i].targets[j],
        disposition: ops[i].dispositions[j].aggregate,
        entry: ops[i].entry_index,
    };
    let front = plan_objects(ops.drop_last(), walks);
    let last = operation_objects(ops.last(), walks[ops.len() - 1], pairs(ops.last()));
    if i < ops.len() - 1 {
        every_target_is_recorded(ops.drop_last(), walks, i, j);
        let k = choose|k: int| 0 <= k < front.len() && front[k] == object;
        assert((front + last)[k] == object);
    } else {
        single_target_is_recorded(ops.last(), walks[ops.len() - 1], pairs(ops.last()), j);
        let k = choose|k: int| 0 <= k < last.len() && last[k] == object;
        assert((front + last)[front.len() + k] == object);
    }
}

proof fn single_target_is_recorded(op: ResolvedModel, walked: Seq<Seq<char>>, n: nat, j: int)
    requires
        0 <= j < n,
        !walks_a_tree(op.mode),
    ensures
        operation_objects(op, walked, n).contains(
            ObjectModel {
                mode: op.mode,
                source: op.source,
                target: op.targets[j],
                disposition: op.dispositions[j].aggregate,
                entry: op.entry_index,
            },
        ),
    decreases n,
{
    let object = ObjectModel {
        mode: op.mode,
        source: op.source,
        target: op.targets[j],
        disposition: op.dispositions[j].aggregate,
        entry: op.entry_index,
    };
    let front = operation_objects(op, walked, (n - 1) as nat);
    let last = target_objects(op, op.targets[n - 1], op.dispositions[n - 1], walked);
    if j < n - 1 {
        single_target_is_recorded(op, walked, (n - 1) as nat, j);
        let k = choose|k: int| 0 <= k < front.len() && front[k] == object;
        assert((front + last)[k] == object);
    } else {
        assert((front + last)[front.len() as int] == object);
    }
}

/// What is recorded of an object, given the bytes that stand there if it is
/// content.
pub open spec fn expected_model(object: ManagedObject, content: Seq<u8>) -> TargetModel {
    if links(object.mode) {
        TargetModel::Symlink {
            target: object.target@,
            link_target: object.source@,
            entry: object.entry,
            disposition: object.disposition,
        }
    } else {
        TargetModel::Content {
            target: object.target@,
            source: object.source@,
            hash: blake3_hash(content),
            entry: object.entry,
            disposition: object.disposition,
        }
    }
}

/// Whether an object can be recorded: a link always, and content if it could be
/// read back.
pub open spec fn recordable(object: ManagedObject, content: Result<Vec<u8>, String>) -> bool {
    links(object.mode) || content is Ok
}

/// The bytes that were read back, and none where they were not.
pub open spec fn read_back(content: Result<Vec<u8>, String>) -> Seq<u8> {
    match content {
        Ok(bytes) => bytes@,
        Err(_) => Seq::empty(),
    }
}

/// What is recorded of an object: where a link points, or the hash of the bytes
/// that stand there. `content` is what reading the target gave, and is not looked
/// at for a link.
pub fn expected_target(object: &ManagedObject, content: &Result<Vec<u8>, String>) -> (r: Result<
    ExpectedTarget,
    EngineError,
>)
    ensures
        r is Ok <==> recordable(*object, *content),
        r matches Ok(t) ==> t@ == expected_model(*object, read_back(*content)),
        r matches Err(e) ==> e matches EngineError::Journal(j) && j is Filesystem
            && j->Filesystem_message@ == content->Err_0@,
{
    if is_link_mode(object.mode) {
        return Ok(
            ExpectedTarget::Symlink {
                target: object.target.clone(),
                link_target: object.source.clone(),
                entry: object.entry,
                disposition: object.disposition,
            },
        );
    }
    match content {
        Ok(bytes) => Ok(
            ExpectedTarget::Content {
                target: object.target.clone(),
                source: object.source.clone(),
                hash: content_hash(bytes.as_slice()),
                entry: object.entry,
                disposition: object.disposition,
            },
        ),
        Err(message) => Err(
            EngineError::Journal(JournalError::Filesystem { message: message.clone() }),
        ),
    }
}

/// The record of the run `timestamp` of `user` on `host`: what is expected of each
/// of `objects`, and the targets that the run removed. `contents` is what reading
/// each of them gave. The first content that could not be read is the error.
pub fn build_apply_record(
    timestamp: &str,
    user: &str,
    host: &str,
    objects: &Vec<ManagedObject>,
    contents: &Vec<Result<Vec<u8>, String>>,
    reaped: Vec<String>,
) -> (r: Result<ApplyRecord, EngineError>)
    requires
        contents@.len() == objects@.len(),
    ensures
        r is Ok <==> forall|i: int|
            0 <= i < objects@.len() ==> recordable(#[trigger] objects@[i], contents@[i]),
        r matches Ok(record) ==> record@.at == rfc3339(timestamp@) && record@.user == user@
            && record@.host == host@ && record@.reaped == views(reaped@) && !record@.checkpoint
            && record@.targets == Seq::new(
            objects@.len(),
            |i: int| expected_model(objects@[i], read_back(contents@[i])),
        ),
        r matches Err(e) ==> exists|i: int|
            0 <= i < objects@.len() && !recordable(#[trigger] objects@[i], contents@[i])
                && e is Journal && e->Journal_0 is Filesystem
                && e->Journal_0->Filesystem_message@ == contents@[i]->Err_0@ && forall|j: int|
                0 <= j < i ==> recordable(#[trigger] objects@[j], contents@[j]),
{
    let ghost f = |i: int| expected_model(objects@[i], read_back(contents@[i]));
    let mut targets: Vec<ExpectedTarget> = Vec::new();
    let mut i: usize = 0;
    while i < objects.len()
        invariant
            i <= objects@.len(),
            contents@.len() == objects@.len(),
            targets@.len() == i,
            f == (|i: int| expected_model(objects@[i], read_back(contents@[i]))),
            forall|j: int|
                0 <= j < i ==> recordable(#[trigger] objects@[j], contents@[j]),
            forall|j: int| 0 <= j < i ==> (#[trigger] targets@[j])@ == f(j),
        decreases objects@.len() - i,
    {
        match expected_target(&objects[i], &contents[i]) {
            Ok(target) => targets.push(target),
            Err(e) => {
                assert(!recordable(objects@[i as int], contents@[i as int]));
                return Err(e);
            },
        }
        i = i + 1;
    }
    let last_apply: LastApply = LastApply {
        at: timestamp_to_rfc3339(timestamp),
        user: user.to_owned(),
        host: host.to_owned(),
    };
    assert(target_models(targets@) =~= Seq::new(objects@.len(), f));
    Ok(ApplyRecord::new(last_apply, targets, reaped))
}

} // verus!
