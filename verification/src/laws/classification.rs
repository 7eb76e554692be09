//! How targets relate to what would be written to them, at plan time and in status.

use crate::apply::classify::ClassifyError;
use crate::apply::classify::classify_leaf;
use crate::apply::planning::LeafInput;
use crate::apply::planning::TargetDisposition;
use crate::apply::planning::classified_leaves;
use crate::apply::planning::classify_target;
use crate::apply::planning::leaf_models;
use crate::config::FileMode;
use crate::journal::Disposition;
use crate::journal::ExpectedTarget;
use crate::journal::blake3_hash;
use crate::paths::path_simplified;
use crate::status::LiveTarget;
use crate::status::TargetState;
use crate::status::classify;
use crate::status::content_matches;
use crate::status::symlink_matches;
use crate::utf8_path::path_joined;
use vstd::prelude::*;

verus! {

/// A link matches only where the whole path that it holds is the whole path that it is
/// to hold, but for a needless verbatim prefix of either. What is no link matches none.
pub proof fn links_match_by_the_whole_path(live: LiveTarget, desired: &str, r: bool)
    requires
        call_ensures(symlink_matches, (&live, desired), r),
    ensures
        live.link is None ==> !r,
        live.link matches Some(link) ==> (r <==> path_simplified(link@) == path_simplified(
            desired@,
        )),
{
}

/// Content matches only where all its bytes have the hash. What cannot be read has none.
pub proof fn content_matches_by_its_hash(live: LiveTarget, hash: [u8; 32], r: bool)
    requires
        call_ensures(content_matches, (&live, &hash), r),
    ensures
        live.content is None ==> !r,
        live.content matches Some(bytes) ==> (r <==> blake3_hash(bytes@) == hash@),
{
}

/// Status calls a target orphaned exactly where nothing manages it, and missing exactly
/// where it is managed and nothing stands there. A link that is there is clean where the
/// whole path that it holds is the recorded one, and content where its bytes have the
/// recorded hash; else it has drifted.
pub proof fn status_is_told_by_what_stands_there(
    expected: ExpectedTarget,
    managed: bool,
    live: LiveTarget,
    state: TargetState,
)
    requires
        call_ensures(classify, (&expected, managed, &live), state),
    ensures
        state == TargetState::Orphaned <==> !managed,
        state == TargetState::Missing <==> managed && !live.present,
        managed && live.present ==> state == TargetState::Clean || state == TargetState::Drifted,
        managed && live.present ==> (expected matches ExpectedTarget::Symlink { link_target, .. }
            ==> match live.link {
            Some(link) => state == TargetState::Clean <==> path_simplified(link@)
                == path_simplified(link_target@),
            None => state == TargetState::Drifted,
        }),
        managed && live.present ==> (expected matches ExpectedTarget::Content { hash, .. }
            ==> match live.content {
            Some(bytes) => state == TargetState::Clean <==> blake3_hash(bytes@) == hash@,
            None => state == TargetState::Drifted,
        }),
{
}

/// A single object is created exactly where nothing stands at its target. A link that
/// is there stays exactly where the whole path that it holds is its source, and a copy
/// or a rendered template exactly where what stands there has the hash of the bytes to
/// write. Everything else that is there is updated. Only the source of a copy over
/// something has to be read.
pub proof fn objects_are_told_by_what_stands_there(
    mode: FileMode,
    source: &str,
    live: LiveTarget,
    source_bytes: Result<Vec<u8>, String>,
    rendered: Option<Vec<u8>>,
    r: Result<Disposition, ClassifyError>,
)
    requires
        call_ensures(classify_leaf, (mode, source, &live, &source_bytes, &rendered), r),
    ensures
        r == Ok::<Disposition, ClassifyError>(Disposition::Create) <==> !live.present,
        r is Err <==> live.present && (mode == FileMode::Copy || mode == FileMode::CopyTree)
            && source_bytes is Err,
        r matches Err(ClassifyError::Io { path, message }) ==> path@ == source@ && message@
            == source_bytes->Err_0@,
        live.present && (mode == FileMode::Symlink || mode == FileMode::SymlinkDir || mode
            == FileMode::SymlinkTree) ==> match live.link {
            Some(link) => r == Ok::<Disposition, ClassifyError>(Disposition::Unchanged)
                <==> path_simplified(link@) == path_simplified(source@),
            None => r == Ok::<Disposition, ClassifyError>(Disposition::Update),
        },
        live.present && (mode == FileMode::Copy || mode == FileMode::CopyTree) ==> (source_bytes
            matches Ok(bytes) ==> match live.content {
            Some(found) => r == Ok::<Disposition, ClassifyError>(Disposition::Unchanged)
                <==> blake3_hash(found@) == blake3_hash(bytes@),
            None => r == Ok::<Disposition, ClassifyError>(Disposition::Update),
        }),
        live.present && mode == FileMode::TemplateRender ==> (rendered matches Some(bytes)
            ==> match live.content {
            Some(found) => r == Ok::<Disposition, ClassifyError>(Disposition::Unchanged)
                <==> blake3_hash(found@) == blake3_hash(bytes@),
            None => r == Ok::<Disposition, ClassifyError>(Disposition::Update),
        }),
{
}

/// What an apply would leave alone is what status calls clean, of what it recorded: a
/// link by its source, and content by its bytes. What it would update has drifted, and
/// what it would create is missing.
pub proof fn status_and_apply_agree(
    mode: FileMode,
    source: &str,
    live: LiveTarget,
    source_bytes: Result<Vec<u8>, String>,
    rendered: Option<Vec<u8>>,
    expected: ExpectedTarget,
    disposition: Disposition,
    state: TargetState,
)
    requires
        call_ensures(
            classify_leaf,
            (mode, source, &live, &source_bytes, &rendered),
            Ok::<Disposition, ClassifyError>(disposition),
        ),
        call_ensures(classify, (&expected, true, &live), state),
        match mode {
            FileMode::Symlink | FileMode::SymlinkDir | FileMode::SymlinkTree => expected matches
                ExpectedTarget::Symlink { link_target, .. } && link_target@ == source@,
            FileMode::Copy | FileMode::CopyTree => expected matches ExpectedTarget::Content {
                hash,
                ..
            } && source_bytes matches Ok(bytes) && hash@ == blake3_hash(bytes@),
            FileMode::TemplateRender => expected matches ExpectedTarget::Content { hash, .. }
                && rendered matches Some(bytes) && hash@ == blake3_hash(bytes@),
        },
    ensures
        disposition == Disposition::Unchanged <==> state == TargetState::Clean,
        disposition == Disposition::Update <==> state == TargetState::Drifted,
        disposition == Disposition::Create <==> state == TargetState::Missing,
{
}

/// A target that is one object has no files, and relates as that object does.
pub proof fn single_targets_relate_as_their_object(
    mode: FileMode,
    source: &str,
    live: LiveTarget,
    source_bytes: Result<Vec<u8>, String>,
    rendered: Option<Vec<u8>>,
    inputs: Vec<LeafInput>,
    r: Result<TargetDisposition, ClassifyError>,
    leaf: Result<Disposition, ClassifyError>,
)
    requires
        mode != FileMode::SymlinkTree && mode != FileMode::CopyTree,
        call_ensures(
            classify_target,
            (mode, source, &live, &source_bytes, &rendered, &inputs),
            r,
        ),
        call_ensures(classify_leaf, (mode, source, &live, &source_bytes, &rendered), leaf),
    ensures
        r is Ok <==> leaf is Ok,
        r matches Ok(relation) ==> relation.leaves@.len() == 0 && leaf == Ok::<
            Disposition,
            ClassifyError,
        >(relation.aggregate),
{
    let relation = r->Ok_0;
    assert(relation@.leaves.len() == relation.leaves@.len());
}

/// A tree is created exactly where nothing stands at its target directory. One that is
/// there is unchanged exactly where each of its files is: one file that is created or
/// updated makes it an update.
pub proof fn trees_relate_as_their_files(
    mode: FileMode,
    source: &str,
    live: LiveTarget,
    source_bytes: Result<Vec<u8>, String>,
    rendered: Option<Vec<u8>>,
    inputs: Vec<LeafInput>,
    relation: TargetDisposition,
)
    requires
        mode == FileMode::SymlinkTree || mode == FileMode::CopyTree,
        call_ensures(
            classify_target,
            (mode, source, &live, &source_bytes, &rendered, &inputs),
            Ok::<TargetDisposition, ClassifyError>(relation),
        ),
    ensures
        relation.aggregate == Disposition::Create <==> !live.present,
        !live.present ==> relation.leaves@.len() == 0,
        live.present ==> (relation.aggregate == Disposition::Unchanged <==> forall|i: int|
            0 <= i < relation.leaves@.len() ==> (#[trigger] relation.leaves@[i]).disposition
                == Disposition::Unchanged),
        live.present ==> (relation.aggregate == Disposition::Update <==> exists|i: int|
            0 <= i < relation.leaves@.len() && (#[trigger] relation.leaves@[i]).disposition
                != Disposition::Unchanged),
{
    let leaves = relation@.leaves;
    assert(leaves.len() == relation.leaves@.len());
    assert forall|i: int| 0 <= i < leaves.len() implies (#[trigger] relation.leaves@[i]).disposition
        == leaves[i].disposition by {}
    assert forall|i: int| 0 <= i < leaves.len() implies (#[trigger] leaves[i]).disposition
        == relation.leaves@[i].disposition by {}
}

/// A tree that is there has each file of its source, in the order of the walk, and each
/// relates as an object of its own: a link to that file of the source, or a copy of it.
pub proof fn files_of_a_tree_relate_one_by_one(
    mode: FileMode,
    source: &str,
    live: LiveTarget,
    source_bytes: Result<Vec<u8>, String>,
    rendered: Option<Vec<u8>>,
    inputs: Vec<LeafInput>,
    relation: TargetDisposition,
    i: int,
)
    requires
        mode == FileMode::SymlinkTree || mode == FileMode::CopyTree,
        live.present,
        call_ensures(
            classify_target,
            (mode, source, &live, &source_bytes, &rendered, &inputs),
            Ok::<TargetDisposition, ClassifyError>(relation),
        ),
        0 <= i < inputs@.len(),
    ensures
        relation.leaves@.len() == inputs@.len(),
        relation.leaves@[i].relative@ == inputs@[i].relative@,
        relation.leaves@[i].disposition == Disposition::Create <==> !inputs@[i].live.present,
        mode == FileMode::SymlinkTree && inputs@[i].live.present ==> match inputs@[i].live.link {
            Some(link) => relation.leaves@[i].disposition == Disposition::Unchanged
                <==> path_simplified(link@) == path_simplified(
                path_joined(source@, inputs@[i].relative@),
            ),
            None => relation.leaves@[i].disposition == Disposition::Update,
        },
        mode == FileMode::CopyTree && inputs@[i].live.present ==> inputs@[i].source_bytes is Ok
            && match inputs@[i].live.content {
            Some(found) => relation.leaves@[i].disposition == Disposition::Unchanged
                <==> blake3_hash(found@) == blake3_hash(inputs@[i].source_bytes->Ok_0@),
            None => relation.leaves@[i].disposition == Disposition::Update,
        },
{
    classified_one_by_one(mode, source@, inputs@, i);
    assert(relation@.leaves.len() == relation.leaves@.len());
    assert(leaf_models(relation.leaves@)[i] == relation.leaves@[i]@);
}

proof fn classified_one_by_one(mode: FileMode, source: Seq<char>, inputs: Seq<LeafInput>, i: int)
    requires
        mode == FileMode::SymlinkTree || mode == FileMode::CopyTree,
        classified_leaves(mode, source, inputs) is Ok,
        0 <= i < inputs.len(),
    ensures
        ({
            let leaves = classified_leaves(mode, source, inputs)->Ok_0;
            let live = inputs[i].live;
            &&& leaves.len() == inputs.len()
            &&& leaves[i].relative == inputs[i].relative@
            &&& leaves[i].disposition == Disposition::Create <==> !live.present
            &&& mode == FileMode::SymlinkTree && live.present ==> match live.link {
                Some(link) => leaves[i].disposition == Disposition::Unchanged <==> path_simplified(
                    link@,
                ) == path_simplified(path_joined(source, inputs[i].relative@)),
                None => leaves[i].disposition == Disposition::Update,
            }
            &&& mode == FileMode::CopyTree && live.present ==> inputs[i].source_bytes is Ok
                && match live.content {
                Some(found) => leaves[i].disposition == Disposition::Unchanged <==> blake3_hash(
                    found@,
                ) == blake3_hash(inputs[i].source_bytes->Ok_0@),
                None => leaves[i].disposition == Disposition::Update,
            }
        }),
    decreases inputs.len(),
{
    let front = inputs.drop_last();
    if i < front.len() {
        assert(front[i] == inputs[i]);
        classified_one_by_one(mode, source, front, i);
    } else {
        classified_as_many(mode, source, front);
        assert(inputs[i] == inputs.last());
    }
}

proof fn classified_as_many(mode: FileMode, source: Seq<char>, inputs: Seq<LeafInput>)
    requires
        classified_leaves(mode, source, inputs) is Ok,
    ensures
        classified_leaves(mode, source, inputs)->Ok_0.len() == inputs.len(),
    decreases inputs.len(),
{
    if inputs.len() > 0 {
        classified_as_many(mode, source, inputs.drop_last());
    }
}

} // verus!
