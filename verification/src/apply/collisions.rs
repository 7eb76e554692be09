//! No two active entries may fight over one target.
//!
//! A plan is refused, before anything is written, where two entries come to the
//! same target, and where an entry that links a whole directory has the target of
//! another inside it. Only such a link owns what lies below its target: a tree
//! that is linked or copied file by file owns the files that it makes, and those
//! are what it claims here.
//!
//! Targets are compared by a key: the parent directory respelled on the deepest
//! part of it that exists, with the name under it, folded to one case and one
//! normal form. The name itself is never resolved, so that a target which is
//! already a link into the repository is still compared by where it lies.

use crate::caseless::fold;
use crate::caseless::folded;
use crate::config::FileMode;
use crate::path_order::is_same_path;
use crate::path_order::is_under;
use crate::path_order::path_under;
use crate::path_order::same_path;
use crate::paths::location;
use crate::paths::split_location;
use crate::text::around;
use crate::text::opt_view;
use crate::text::put_around;
use crate::text::views;
use crate::utf8_path::join_all;
use crate::utf8_path::join_path;
use crate::utf8_path::joined_all;
use crate::utf8_path::path_joined;
use vstd::prelude::*;

verus! {

/// What an active entry claims of the filesystem.
#[derive(Debug, Clone, PartialEq, Eq)]
pub struct TargetClaim {
    /// The module that declares the entry.
    pub module: String,
    /// The source as it was written.
    pub source: String,
    /// How the entry is materialized.
    pub mode: FileMode,
    /// The directory target that the targets lie in, for a tree.
    pub tree_target: Option<String>,
    /// The targets: those declared, or one for each file of a tree.
    pub targets: Vec<String>,
}

/// Two active entries fight over one target.
#[derive(Debug, Clone, PartialEq, Eq)]
pub enum CollisionError {
    /// Two entries come to the same target.
    SameTarget {
        /// The target.
        target: String,
        /// Module of the entry declared first.
        first_module: String,
        /// Source of the entry declared first.
        first_source: String,
        /// Directory target of the entry declared first, for a tree.
        first_tree_target: Option<String>,
        /// Module of the entry declared second.
        second_module: String,
        /// Source of the entry declared second.
        second_source: String,
        /// Directory target of the entry declared second, for a tree.
        second_tree_target: Option<String>,
    },
    /// An entry that links a whole directory has the target of another inside it.
    ContainedTarget {
        /// Module of the entry that links a directory.
        outer_module: String,
        /// Source of the entry that links a directory.
        outer_source: String,
        /// Target of the entry that links a directory.
        outer_target: String,
        /// Module of the entry inside.
        inner_module: String,
        /// Source of the entry inside.
        inner_source: String,
        /// Directory target of the entry inside, for a tree.
        inner_tree_target: Option<String>,
        /// Target of the entry inside.
        inner_target: String,
    },
}

/// The words that name the directory target of a tree, or nothing.
pub open spec fn leaf_words(tree_target: Option<Seq<char>>) -> Seq<char> {
    match tree_target {
        Some(target) => around(" (under its target "@, target, ")"@),
        None => Seq::empty(),
    }
}

fn leaf_of(tree_target: &Option<String>) -> (r: String)
    ensures
        r@ == leaf_words(opt_view(*tree_target)),
{
    match tree_target {
        Some(target) => put_around(" (under its target ", target.as_str(), ")"),
        None => {
            let r: String = String::new();
            assert(r@ =~= Seq::<char>::empty());
            r
        },
    }
}

impl CollisionError {
    /// The error in words.
    pub open spec fn words(self) -> Seq<char> {
        match self {
            CollisionError::SameTarget {
                target,
                first_module,
                first_source,
                first_tree_target,
                second_module,
                second_source,
                second_tree_target,
            } => "two entries resolve to the same target "@ + target@ + ": `"@ + first_source@
                + "` in module `"@ + first_module@ + "`"@ + leaf_words(opt_view(first_tree_target))
                + " and `"@ + second_source@ + "` in module `"@ + second_module@ + "`"@ + leaf_words(
                opt_view(second_tree_target),
            )
                + ". Give them distinct targets, or guard them with mutually exclusive `when` predicates"@,
            CollisionError::ContainedTarget {
                outer_module,
                outer_source,
                outer_target,
                inner_module,
                inner_source,
                inner_tree_target,
                inner_target,
            } => "the directory entry `"@ + outer_source@ + "` in module `"@ + outer_module@
                + "` links its whole target "@ + outer_target@ + ", which contains the target "@
                + inner_target@ + " of `"@ + inner_source@ + "` in module `"@ + inner_module@ + "`"@
                + leaf_words(opt_view(inner_tree_target))
                + ". A `[[directory]]` `mode = \"symlink\"` replaces its target path outright, so move one of the two \u{2014} or switch it to `symlink-tree`, which owns only the leaves it materializes"@,
        }
    }

    /// The error in words.
    pub fn message(&self) -> (r: String)
        ensures
            r@ == self.words(),
    {
        match self {
            CollisionError::SameTarget {
                target,
                first_module,
                first_source,
                first_tree_target,
                second_module,
                second_source,
                second_tree_target,
            } => {
                let mut r: String = "two entries resolve to the same target ".to_owned();
                r.append(target.as_str());
                r.append(": `");
                r.append(first_source.as_str());
                r.append("` in module `");
                r.append(first_module.as_str());
                r.append("`");
                r.append(leaf_of(first_tree_target).as_str());
                r.append(" and `");
                r.append(second_source.as_str());
                r.append("` in module `");
                r.append(second_module.as_str());
                r.append("`");
                r.append(leaf_of(second_tree_target).as_str());
                r.append(
                    ". Give them distinct targets, or guard them with mutually exclusive `when` predicates",
                );
                r
            },
            CollisionError::ContainedTarget {
                outer_module,
                outer_source,
                outer_target,
                inner_module,
                inner_source,
                inner_tree_target,
                inner_target,
            } => {
                let mut r: String = "the directory entry `".to_owned();
                r.append(outer_source.as_str());
                r.append("` in module `");
                r.append(outer_module.as_str());
                r.append("` links its whole target ");
                r.append(outer_target.as_str());
                r.append(", which contains the target ");
                r.append(inner_target.as_str());
                r.append(" of `");
                r.append(inner_source.as_str());
                r.append("` in module `");
                r.append(inner_module.as_str());
                r.append("`");
                r.append(leaf_of(inner_tree_target).as_str());
                r.append(
                    ". A `[[directory]]` `mode = \"symlink\"` replaces its target path outright, so move one of the two \u{2014} or switch it to `symlink-tree`, which owns only the leaves it materializes",
                );
                r
            },
        }
    }
}

/// A directory that may exist, and the names from it down to the one that is
/// respelled.
#[derive(Debug, Clone, PartialEq, Eq)]
pub struct Rung {
    /// The directory.
    pub path: String,
    /// The names below it.
    pub below: Vec<String>,
}

/// A rung with its texts as sequences of characters.
#[verifier::ext_equal]
pub ghost struct RungModel {
    /// The directory.
    pub path: Seq<char>,
    /// The names below it.
    pub below: Seq<Seq<char>>,
}

impl View for Rung {
    type V = RungModel;

    open spec fn view(&self) -> RungModel {
        RungModel { path: self.path@, below: views(self.below@) }
    }
}

/// A path and the directories above it, each with the names below it, up to the
/// last one that has both a name and a parent.
pub open spec fn ladder(path: Seq<char>, below: Seq<Seq<char>>) -> Seq<RungModel>
    decreases path.len(),
{
    let here = RungModel { path, below };
    match location(path) {
        Some((up, name)) => if up.len() < path.len() {
            seq![here] + ladder(up, seq![name] + below)
        } else {
            seq![here]
        },
        None => seq![here],
    }
}

/// The models of a row of rungs.
pub open spec fn rung_models(rungs: Seq<Rung>) -> Seq<RungModel> {
    rungs.map_values(|r: Rung| r@)
}

fn copied(texts: &Vec<String>, first: String) -> (r: Vec<String>)
    ensures
        views(r@) == seq![first@] + views(texts@),
{
    let mut r: Vec<String> = Vec::new();
    let ghost head = first@;
    r.push(first);
    let mut i: usize = 0;
    assert(views(r@) =~= seq![head] + views(texts@).take(0));
    while i < texts.len()
        invariant
            i <= texts@.len(),
            views(r@) == seq![head] + views(texts@).take(i as int),
        decreases texts@.len() - i,
    {
        let ghost before = views(r@);
        r.push(texts[i].clone());
        assert(views(r@) =~= before.push(texts@[i as int]@));
        assert(views(r@) =~= seq![head] + views(texts@).take(i + 1));
        i = i + 1;
    }
    assert(views(texts@).take(i as int) =~= views(texts@));
    r
}

/// `parent` and the directories above it, from the deepest. The first that exists
/// is the one to respell `parent` on.
pub fn anchor(parent: &str) -> (rungs: Vec<Rung>)
    ensures
        rung_models(rungs@) == ladder(parent@, Seq::empty()),
{
    let mut rungs: Vec<Rung> = Vec::new();
    let mut path: String = parent.to_owned();
    let mut below: Vec<String> = Vec::new();
    let ghost whole = ladder(parent@, Seq::empty());
    assert(views(below@) =~= Seq::<Seq<char>>::empty());
    assert(rung_models(rungs@) + ladder(path@, views(below@)) =~= whole);
    loop
        invariant
            whole == ladder(parent@, Seq::empty()),
            rung_models(rungs@) + ladder(path@, views(below@)) == whole,
        decreases path@.len(),
    {
        let ghost done = rung_models(rungs@);
        let ghost here = RungModel { path: path@, below: views(below@) };
        match split_location(path.as_str()) {
            Some((up, name)) => {
                let deeper: Vec<String> = copied(&below, name);
                rungs.push(Rung { path, below });
                proof {
                    assert(rung_models(rungs@) =~= done.push(here));
                    assert(done + (seq![here] + ladder(up@, views(deeper@))) =~= done.push(here)
                        + ladder(up@, views(deeper@)));
                }
                path = up;
                below = deeper;
            },
            None => {
                rungs.push(Rung { path, below });
                assert(rung_models(rungs@) =~= done.push(here));
                assert(done + seq![here] =~= done.push(here));
                return rungs;
            },
        }
    }
}

/// The respelling of the directory that a rung leads to, given how the
/// filesystem spells the rung.
pub fn respelled(rung: &Rung, resolved: &str) -> (r: String)
    ensures
        r@ == joined_all(resolved@, rung@.below),
{
    join_all(resolved, &rung.below)
}

/// The key that a target is compared by, given how its parent directory is
/// respelled.
pub open spec fn collision_key(target: Seq<char>, parent: Option<Seq<char>>) -> Seq<char> {
    match location(target) {
        Some((declared, name)) => folded(
            path_joined(
                match parent {
                    Some(p) => p,
                    None => declared,
                },
                name,
            ),
        ),
        None => folded(target),
    }
}

/// The key that `target` is compared by. `parent` is how its parent directory is
/// respelled, or `None` where nothing on the way to it exists.
pub fn comparison_key(target: &str, parent: &Option<String>) -> (key: String)
    ensures
        key@ == collision_key(target@, opt_view(*parent)),
{
    match split_location(target) {
        Some((declared, name)) => {
            let spelled: String = match parent {
                Some(p) => join_path(p.as_str(), name.as_str()),
                None => join_path(declared.as_str(), name.as_str()),
            };
            fold(spelled.as_str())
        },
        None => fold(target),
    }
}

/// One target of one claim.
#[derive(Debug, Clone, PartialEq, Eq)]
pub struct StakedTarget {
    /// The place of the claim.
    pub claim: usize,
    /// The target.
    pub target: String,
    /// The key that it is compared by.
    pub key: String,
}

/// The first place before `j`, from `i` on, whose key is that of `j`.
pub open spec fn same_key_before(staked: Seq<StakedTarget>, i: int, j: int) -> Option<int>
    decreases j - i,
{
    if i >= j {
        None
    } else if same_path(staked[i].key@, staked[j].key@) {
        Some(i)
    } else {
        same_key_before(staked, i + 1, j)
    }
}

/// The first place from `j` on whose key an earlier one has, with that one.
pub open spec fn first_duplicate(staked: Seq<StakedTarget>, j: int) -> Option<(int, int)>
    decreases staked.len() - j,
{
    if j >= staked.len() {
        None
    } else {
        match same_key_before(staked, 0, j) {
            Some(i) => Some((i, j)),
            None => first_duplicate(staked, j + 1),
        }
    }
}

/// Whether the target at `inner` lies strictly inside the one at `outer`.
pub open spec fn inside(staked: Seq<StakedTarget>, outer: int, inner: int) -> bool {
    !same_path(staked[inner].key@, staked[outer].key@) && path_under(
        staked[inner].key@,
        staked[outer].key@,
    )
}

/// The first place from `inner` on that lies strictly inside the target at
/// `outer`.
pub open spec fn first_inside(staked: Seq<StakedTarget>, outer: int, inner: int) -> Option<int>
    decreases staked.len() - inner,
{
    if inner >= staked.len() {
        None
    } else if inside(staked, outer, inner) {
        Some(inner)
    } else {
        first_inside(staked, outer, inner + 1)
    }
}

/// Whether a place belongs to an entry that links a whole directory.
pub open spec fn owns_a_directory(
    claims: Seq<TargetClaim>,
    staked: Seq<StakedTarget>,
    place: int,
) -> bool {
    claims[staked[place].claim as int].mode is SymlinkDir
}

/// The first place from `outer` on that links a whole directory with another
/// target inside it, with that one.
pub open spec fn first_contained(
    claims: Seq<TargetClaim>,
    staked: Seq<StakedTarget>,
    outer: int,
) -> Option<(int, int)>
    decreases staked.len() - outer,
{
    if outer >= staked.len() {
        None
    } else if owns_a_directory(claims, staked, outer) && first_inside(staked, outer, 0) is Some {
        Some((outer, first_inside(staked, outer, 0)->0))
    } else {
        first_contained(claims, staked, outer + 1)
    }
}

/// Whether an error says that two places come to the same target.
pub open spec fn says_same(
    e: CollisionError,
    claims: Seq<TargetClaim>,
    staked: Seq<StakedTarget>,
    i: int,
    j: int,
) -> bool {
    let first = claims[staked[i].claim as int];
    let second = claims[staked[j].claim as int];
    e matches CollisionError::SameTarget {
        target,
        first_module,
        first_source,
        first_tree_target,
        second_module,
        second_source,
        second_tree_target,
    } && target@ == staked[j].target@ && first_module@ == first.module@ && first_source@
        == first.source@ && opt_view(first_tree_target) == opt_view(first.tree_target)
        && second_module@ == second.module@ && second_source@ == second.source@ && opt_view(
        second_tree_target,
    ) == opt_view(second.tree_target)
}

/// Whether an error says that one place has another inside it.
pub open spec fn says_contained(
    e: CollisionError,
    claims: Seq<TargetClaim>,
    staked: Seq<StakedTarget>,
    o: int,
    i: int,
) -> bool {
    let outer = claims[staked[o].claim as int];
    let inner = claims[staked[i].claim as int];
    e matches CollisionError::ContainedTarget {
        outer_module,
        outer_source,
        outer_target,
        inner_module,
        inner_source,
        inner_tree_target,
        inner_target,
    } && outer_module@ == outer.module@ && outer_source@ == outer.source@ && outer_target@
        == staked[o].target@ && inner_module@ == inner.module@ && inner_source@ == inner.source@
        && opt_view(inner_tree_target) == opt_view(inner.tree_target) && inner_target@
        == staked[i].target@
}

fn opt_clone(text: &Option<String>) -> (r: Option<String>)
    ensures
        opt_view(r) == opt_view(*text),
{
    match text {
        Some(t) => Some(t.clone()),
        None => None,
    }
}

/// Whether every place names a claim.
pub open spec fn places_are_claims(claims: Seq<TargetClaim>, staked: Seq<StakedTarget>) -> bool {
    forall|i: int| 0 <= i < staked.len() ==> (#[trigger] staked[i]).claim < claims.len()
}

fn reject_duplicate_targets(claims: &Vec<TargetClaim>, staked: &Vec<StakedTarget>) -> (r: Result<
    (),
    CollisionError,
>)
    requires
        places_are_claims(claims@, staked@),
    ensures
        match first_duplicate(staked@, 0) {
            None => r is Ok,
            Some((i, j)) => r matches Err(e) && says_same(e, claims@, staked@, i, j),
        },
{
    let mut j: usize = 0;
    while j < staked.len()
        invariant
            j <= staked@.len(),
            places_are_claims(claims@, staked@),
            first_duplicate(staked@, 0) == first_duplicate(staked@, j as int),
        decreases staked@.len() - j,
    {
        let mut i: usize = 0;
        while i < j
            invariant
                i <= j < staked@.len(),
                places_are_claims(claims@, staked@),
                first_duplicate(staked@, 0) == first_duplicate(staked@, j as int),
                same_key_before(staked@, 0, j as int) == same_key_before(
                    staked@,
                    i as int,
                    j as int,
                ),
            decreases j - i,
        {
            if is_same_path(staked[i].key.as_str(), staked[j].key.as_str()) {
                let first: &TargetClaim = &claims[staked[i].claim];
                let second: &TargetClaim = &claims[staked[j].claim];
                return Err(
                    CollisionError::SameTarget {
                        target: staked[j].target.clone(),
                        first_module: first.module.clone(),
                        first_source: first.source.clone(),
                        first_tree_target: opt_clone(&first.tree_target),
                        second_module: second.module.clone(),
                        second_source: second.source.clone(),
                        second_tree_target: opt_clone(&second.tree_target),
                    },
                );
            }
            i = i + 1;
        }
        j = j + 1;
    }
    Ok(())
}

fn is_directory_link(mode: FileMode) -> (r: bool)
    ensures
        r == (mode is SymlinkDir),
{
    matches!(mode, FileMode::SymlinkDir)
}

fn reject_contained_targets(claims: &Vec<TargetClaim>, staked: &Vec<StakedTarget>) -> (r: Result<
    (),
    CollisionError,
>)
    requires
        places_are_claims(claims@, staked@),
    ensures
        match first_contained(claims@, staked@, 0) {
            None => r is Ok,
            Some((o, i)) => r matches Err(e) && says_contained(e, claims@, staked@, o, i),
        },
{
    let mut o: usize = 0;
    while o < staked.len()
        invariant
            o <= staked@.len(),
            places_are_claims(claims@, staked@),
            first_contained(claims@, staked@, 0) == first_contained(claims@, staked@, o as int),
        decreases staked@.len() - o,
    {
        let outer: &TargetClaim = &claims[staked[o].claim];
        if is_directory_link(outer.mode) {
            let mut i: usize = 0;
            while i < staked.len()
                invariant
                    i <= staked@.len(),
                    o < staked@.len(),
                    places_are_claims(claims@, staked@),
                    *outer == claims@[staked@[o as int].claim as int],
                    outer.mode is SymlinkDir,
                    first_contained(claims@, staked@, 0) == first_contained(
                        claims@,
                        staked@,
                        o as int,
                    ),
                    first_inside(staked@, o as int, 0) == first_inside(
                        staked@,
                        o as int,
                        i as int,
                    ),
                decreases staked@.len() - i,
            {
                if !is_same_path(staked[i].key.as_str(), staked[o].key.as_str()) && is_under(
                    staked[i].key.as_str(),
                    staked[o].key.as_str(),
                ) {
                    let inner: &TargetClaim = &claims[staked[i].claim];
                    return Err(
                        CollisionError::ContainedTarget {
                            outer_module: outer.module.clone(),
                            outer_source: outer.source.clone(),
                            outer_target: staked[o].target.clone(),
                            inner_module: inner.module.clone(),
                            inner_source: inner.source.clone(),
                            inner_tree_target: opt_clone(&inner.tree_target),
                            inner_target: staked[i].target.clone(),
                        },
                    );
                }
                i = i + 1;
            }
        }
        o = o + 1;
    }
    Ok(())
}

/// Refuses both kinds of collision. `staked` are the targets of all claims with
/// their keys, in the order of declaration, which makes the pair that is reported
/// a property of the manifests. A target that two entries share is reported
/// before one that lies inside another.
pub fn validate_staked(claims: &Vec<TargetClaim>, staked: &Vec<StakedTarget>) -> (r: Result<
    (),
    CollisionError,
>)
    requires
        places_are_claims(claims@, staked@),
    ensures
        match first_duplicate(staked@, 0) {
            Some((i, j)) => r matches Err(e) && says_same(e, claims@, staked@, i, j),
            None => match first_contained(claims@, staked@, 0) {
                Some((o, i)) => r matches Err(e) && says_contained(e, claims@, staked@, o, i),
                None => r is Ok,
            },
        },
{
    match reject_duplicate_targets(claims, staked) {
        Ok(()) => reject_contained_targets(claims, staked),
        Err(e) => Err(e),
    }
}

/// How parent directories are respelled: pairs of a directory and its respelling.
/// A directory that is not among them stays as it is.
pub type Anchors = Vec<(String, String)>;

/// How a directory is respelled.
pub open spec fn anchored(anchors: Seq<(String, String)>, parent: Seq<char>) -> Option<Seq<char>>
    decreases anchors.len(),
{
    if anchors.len() == 0 {
        None
    } else if same_path(anchors[0].0@, parent) {
        Some(anchors[0].1@)
    } else {
        anchored(anchors.drop_first(), parent)
    }
}

fn find_anchor(anchors: &Vec<(String, String)>, parent: &str) -> (r: Option<String>)
    ensures
        opt_view(r) == anchored(anchors@, parent@),
{
    let mut i: usize = 0;
    assert(anchors@.skip(0) =~= anchors@);
    while i < anchors.len()
        invariant
            i <= anchors@.len(),
            anchored(anchors@, parent@) == anchored(anchors@.skip(i as int), parent@),
        decreases anchors@.len() - i,
    {
        assert(anchors@.skip(i as int).drop_first() =~= anchors@.skip(i + 1));
        if is_same_path(anchors[i].0.as_str(), parent) {
            return Some(anchors[i].1.clone());
        }
        i = i + 1;
    }
    None
}

/// How the parent directory of a target is respelled.
pub open spec fn parent_anchor(anchors: Seq<(String, String)>, target: Seq<char>) -> Option<
    Seq<char>,
> {
    match location(target) {
        Some((parent, _)) => anchored(anchors, parent),
        None => None,
    }
}

/// A place with its texts as sequences of characters.
#[verifier::ext_equal]
pub ghost struct StakeModel {
    /// The place of the claim.
    pub claim: int,
    /// The target.
    pub target: Seq<char>,
    /// The key that it is compared by.
    pub key: Seq<char>,
}

impl View for StakedTarget {
    type V = StakeModel;

    open spec fn view(&self) -> StakeModel {
        StakeModel { claim: self.claim as int, target: self.target@, key: self.key@ }
    }
}

/// The places of a row of targets of one claim.
pub open spec fn stakes_of(
    claim: int,
    targets: Seq<Seq<char>>,
    anchors: Seq<(String, String)>,
) -> Seq<StakeModel> {
    targets.map_values(
        |t: Seq<char>|
            StakeModel { claim, target: t, key: collision_key(t, parent_anchor(anchors, t)) },
    )
}

/// The places of all targets of the first `n` claims, in order.
pub open spec fn all_stakes(
    claims: Seq<TargetClaim>,
    n: int,
    anchors: Seq<(String, String)>,
) -> Seq<StakeModel>
    decreases n,
{
    if n <= 0 {
        Seq::empty()
    } else {
        all_stakes(claims, n - 1, anchors) + stakes_of(
            n - 1,
            views(claims[n - 1].targets@),
            anchors,
        )
    }
}

/// The models of a row of places.
pub open spec fn stake_models(staked: Seq<StakedTarget>) -> Seq<StakeModel> {
    staked.map_values(|s: StakedTarget| s@)
}

/// The places of all targets of a row of claims, in order.
pub fn stake_targets(claims: &Vec<TargetClaim>, anchors: &Vec<(String, String)>) -> (staked: Vec<
    StakedTarget,
>)
    ensures
        stake_models(staked@) == all_stakes(claims@, claims@.len() as int, anchors@),
        places_are_claims(claims@, staked@),
{
    let mut staked: Vec<StakedTarget> = Vec::new();
    assert(stake_models(staked@) =~= Seq::<StakeModel>::empty());
    let mut c: usize = 0;
    while c < claims.len()
        invariant
            c <= claims@.len(),
            stake_models(staked@) == all_stakes(claims@, c as int, anchors@),
            places_are_claims(claims@, staked@),
        decreases claims@.len() - c,
    {
        let ghost before = stake_models(staked@);
        let ghost all = views(claims@[c as int].targets@);
        let targets: &Vec<String> = &claims[c].targets;
        let mut t: usize = 0;
        assert(before + stakes_of(c as int, all.take(0), anchors@) =~= before);
        while t < targets.len()
            invariant
                t <= targets@.len(),
                c < claims@.len(),
                all == views(targets@),
                stake_models(staked@) == before + stakes_of(
                    c as int,
                    all.take(t as int),
                    anchors@,
                ),
                places_are_claims(claims@, staked@),
            decreases targets@.len() - t,
        {
            let ghost so_far = stake_models(staked@);
            let target: &str = targets[t].as_str();
            let parent: Option<String> = match split_location(target) {
                Some((parent, _)) => find_anchor(anchors, parent.as_str()),
                None => None,
            };
            let stake: StakedTarget = StakedTarget {
                claim: c,
                target: target.to_owned(),
                key: comparison_key(target, &parent),
            };
            let ghost model = stake@;
            staked.push(stake);
            proof {
                assert(stake_models(staked@) =~= so_far.push(model));
                assert(stakes_of(c as int, all.take(t + 1), anchors@) =~= stakes_of(
                    c as int,
                    all.take(t as int),
                    anchors@,
                ).push(model));
                assert(stake_models(staked@) =~= before + stakes_of(
                    c as int,
                    all.take(t + 1),
                    anchors@,
                ));
            }
            t = t + 1;
        }
        assert(all.take(t as int) =~= all);
        c = c + 1;
    }
    staked
}

/// Refuses a row of claims in which two entries fight over a target. The claims
/// are in the order of declaration; `anchors` says how parent directories are
/// respelled.
pub fn validate_targets(claims: &Vec<TargetClaim>, anchors: &Vec<(String, String)>) -> (r: Result<
    (),
    CollisionError,
>)
    ensures
        exists|staked: Seq<StakedTarget>|
            #![trigger stake_models(staked)]
            stake_models(staked) == all_stakes(claims@, claims@.len() as int, anchors@) && (
            match first_duplicate(staked, 0) {
                Some((i, j)) => r matches Err(e) && says_same(e, claims@, staked, i, j),
                None => match first_contained(claims@, staked, 0) {
                    Some((o, i)) => r matches Err(e) && says_contained(e, claims@, staked, o, i),
                    None => r is Ok,
                },
            }),
{
    let staked: Vec<StakedTarget> = stake_targets(claims, anchors);
    assert(stake_models(staked@) == all_stakes(claims@, claims@.len() as int, anchors@));
    validate_staked(claims, &staked)
}

proof fn no_same_key_before(staked: Seq<StakedTarget>, i: int, j: int, k: int)
    requires
        0 <= i <= k < j,
        same_key_before(staked, i, j) is None,
    ensures
        !same_path(staked[k].key@, staked[j].key@),
    decreases j - i,
{
    if i < k {
        no_same_key_before(staked, i + 1, j, k);
    }
}

pub(crate) proof fn no_duplicate_from(staked: Seq<StakedTarget>, from: int, i: int, j: int)
    requires
        0 <= from <= j,
        0 <= i < j < staked.len(),
        first_duplicate(staked, from) is None,
    ensures
        !same_path(staked[i].key@, staked[j].key@),
    decreases staked.len() - from,
{
    if from == j {
        no_same_key_before(staked, 0, j, i);
    } else {
        no_duplicate_from(staked, from + 1, i, j);
    }
}

proof fn none_inside_from(staked: Seq<StakedTarget>, o: int, from: int, i: int)
    requires
        0 <= from <= i < staked.len(),
        first_inside(staked, o, from) is None,
    ensures
        !inside(staked, o, i),
    decreases staked.len() - from,
{
    if from < i {
        none_inside_from(staked, o, from + 1, i);
    }
}

proof fn none_contained_from(
    claims: Seq<TargetClaim>,
    staked: Seq<StakedTarget>,
    from: int,
    o: int,
    i: int,
)
    requires
        0 <= from <= o < staked.len(),
        0 <= i < staked.len(),
        first_contained(claims, staked, from) is None,
        owns_a_directory(claims, staked, o),
    ensures
        !inside(staked, o, i),
    decreases staked.len() - from,
{
    if from == o {
        none_inside_from(staked, o, 0, i);
    } else {
        none_contained_from(claims, staked, from + 1, o, i);
    }
}

/// In a plan that is not refused every target has its own key, and no target lies
/// at or under that of another entry's whole-directory link.
pub proof fn accepted_targets_are_apart(
    claims: Seq<TargetClaim>,
    staked: Seq<StakedTarget>,
    i: int,
    j: int,
)
    requires
        first_duplicate(staked, 0) is None,
        first_contained(claims, staked, 0) is None,
        0 <= i < staked.len(),
        0 <= j < staked.len(),
        i != j,
    ensures
        !same_path(staked[i].key@, staked[j].key@),
        owns_a_directory(claims, staked, i) ==> !path_under(staked[j].key@, staked[i].key@),
{
    if i < j {
        no_duplicate_from(staked, 0, i, j);
    } else {
        no_duplicate_from(staked, 0, j, i);
    }
    if owns_a_directory(claims, staked, i) {
        none_contained_from(claims, staked, 0, i, j);
    }
}

/// The pair that is reported as one target does share a key, and the second is
/// the first of all targets that an earlier one shares its key with.
pub proof fn reported_duplicates_share_a_key(staked: Seq<StakedTarget>, from: int)
    requires
        0 <= from,
    ensures
        first_duplicate(staked, from) matches Some((i, j)) ==> 0 <= i < j < staked.len()
            && same_path(staked[i].key@, staked[j].key@),
    decreases staked.len() - from,
{
    if from < staked.len() {
        same_key_before_is_earlier(staked, 0, from);
        if same_key_before(staked, 0, from) is None {
            reported_duplicates_share_a_key(staked, from + 1);
        }
    }
}

proof fn same_key_before_is_earlier(staked: Seq<StakedTarget>, i: int, j: int)
    requires
        0 <= i,
    ensures
        same_key_before(staked, i, j) matches Some(k) ==> i <= k < j && same_path(
            staked[k].key@,
            staked[j].key@,
        ),
    decreases j - i,
{
    if i < j && !same_path(staked[i].key@, staked[j].key@) {
        same_key_before_is_earlier(staked, i + 1, j);
    }
}

} // verus!
