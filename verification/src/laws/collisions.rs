//! No two active entries fight over a target.

use crate::apply::collisions::CollisionError;
use crate::apply::collisions::StakeModel;
use crate::apply::collisions::StakedTarget;
use crate::apply::collisions::TargetClaim;
use crate::apply::collisions::accepted_targets_are_apart;
use crate::apply::collisions::all_stakes;
use crate::apply::collisions::anchored;
use crate::apply::collisions::collision_key;
use crate::apply::collisions::comparison_key;
use crate::apply::collisions::first_contained;
use crate::apply::collisions::first_duplicate;
use crate::apply::collisions::first_inside;
use crate::apply::collisions::inside;
use crate::apply::collisions::no_duplicate_from;
use crate::apply::collisions::owns_a_directory;
use crate::apply::collisions::parent_anchor;
use crate::apply::collisions::reported_duplicates_share_a_key;
use crate::apply::collisions::says_contained;
use crate::apply::collisions::says_same;
use crate::apply::collisions::stake_models;
use crate::apply::collisions::validate_targets;
use crate::caseless::folded;
use crate::config::FileMode;
use crate::path_order::path_under;
use crate::path_order::same_path;
use crate::text::views;
use crate::utf8_path::path_components;
use crate::utf8_path::path_joined;
use crate::utf8_path::path_parent;
use vstd::prelude::*;

verus! {

/// The number of targets of the first `n` claims.
spec fn count(claims: Seq<TargetClaim>, n: int) -> nat
    decreases n,
{
    if n <= 0 {
        0
    } else {
        count(claims, n - 1) + claims[n - 1].targets@.len()
    }
}

/// The key of a target of a claim.
spec fn key_at(claims: Seq<TargetClaim>, anchors: Seq<(String, String)>, c: int, t: int) -> Seq<
    char,
> {
    collision_key(claims[c].targets@[t]@, parent_anchor(anchors, claims[c].targets@[t]@))
}

proof fn counts_ascend(claims: Seq<TargetClaim>, m: int, n: int)
    requires
        0 <= m <= n,
    ensures
        count(claims, m) <= count(claims, n),
    decreases n - m,
{
    if m < n {
        counts_ascend(claims, m, n - 1);
    }
}

/// Every target of every claim has a place, in the order of the claims and of their
/// targets.
proof fn every_target_has_a_place(
    claims: Seq<TargetClaim>,
    anchors: Seq<(String, String)>,
    n: int,
    c: int,
    t: int,
)
    requires
        0 <= c < n <= claims.len(),
        0 <= t < claims[c].targets@.len(),
    ensures
        all_stakes(claims, n, anchors).len() == count(claims, n),
        count(claims, c) + t < count(claims, n),
        all_stakes(claims, n, anchors)[count(claims, c) + t] == (StakeModel {
            claim: c,
            target: claims[c].targets@[t]@,
            key: key_at(claims, anchors, c, t),
        }),
    decreases n,
{
    places_are_counted(claims, anchors, n);
    places_are_counted(claims, anchors, n - 1);
    counts_ascend(claims, c + 1, n);
    if c < n - 1 {
        every_target_has_a_place(claims, anchors, n - 1, c, t);
    } else {
        assert(views(claims[c].targets@)[t] == claims[c].targets@[t]@);
    }
}

proof fn places_are_counted(claims: Seq<TargetClaim>, anchors: Seq<(String, String)>, n: int)
    requires
        0 <= n <= claims.len(),
    ensures
        all_stakes(claims, n, anchors).len() == count(claims, n),
    decreases n,
{
    if n > 0 {
        places_are_counted(claims, anchors, n - 1);
    }
}

/// Every place is that of a target of a claim.
proof fn every_place_has_a_target(
    claims: Seq<TargetClaim>,
    anchors: Seq<(String, String)>,
    n: int,
    k: int,
) -> (r: (int, int))
    requires
        0 <= n <= claims.len(),
        0 <= k < all_stakes(claims, n, anchors).len(),
    ensures
        0 <= r.0 < n,
        0 <= r.1 < claims[r.0].targets@.len(),
        k == count(claims, r.0) + r.1,
        all_stakes(claims, n, anchors)[k] == (StakeModel {
            claim: r.0,
            target: claims[r.0].targets@[r.1]@,
            key: key_at(claims, anchors, r.0, r.1),
        }),
    decreases n,
{
    places_are_counted(claims, anchors, n - 1);
    let before = all_stakes(claims, n - 1, anchors);
    if k < before.len() {
        every_place_has_a_target(claims, anchors, n - 1, k)
    } else {
        let t = k - before.len();
        assert(views(claims[n - 1].targets@)[t] == claims[n - 1].targets@[t]@);
        (n - 1, t)
    }
}

/// In a row of claims that is accepted any two targets have different keys, of whatever
/// entries and modes they are, and none lies at or below the target of an entry that
/// links a whole directory.
pub proof fn accepted_claims_are_apart(
    claims: Vec<TargetClaim>,
    anchors: Vec<(String, String)>,
    r: Result<(), CollisionError>,
    a: int,
    i: int,
    b: int,
    j: int,
)
    requires
        call_ensures(validate_targets, (&claims, &anchors), r),
        r is Ok,
        0 <= a < claims@.len(),
        0 <= i < claims@[a].targets@.len(),
        0 <= b < claims@.len(),
        0 <= j < claims@[b].targets@.len(),
        a != b || i != j,
    ensures
        ({
            let first = claims@[a].targets@[i]@;
            let second = claims@[b].targets@[j]@;
            let key = |t: Seq<char>| collision_key(t, parent_anchor(anchors@, t));
            &&& !same_path(key(first), key(second))
            &&& claims@[a].mode == FileMode::SymlinkDir ==> !path_under(key(second), key(first))
        }),
{
    let n = claims@.len() as int;
    let staked = choose|staked: Seq<StakedTarget>|
        #![trigger stake_models(staked)]
        stake_models(staked) == all_stakes(claims@, n, anchors@) && first_duplicate(staked, 0)
            is None && first_contained(claims@, staked, 0) is None;
    let x = count(claims@, a) + i;
    let y = count(claims@, b) + j;
    every_target_has_a_place(claims@, anchors@, n, a, i);
    every_target_has_a_place(claims@, anchors@, n, b, j);
    if a < b {
        counts_ascend(claims@, a + 1, b);
    } else if b < a {
        counts_ascend(claims@, b + 1, a);
    }
    assert(stake_models(staked).len() == staked.len());
    assert(stake_models(staked)[x] == staked[x]@);
    assert(stake_models(staked)[y] == staked[y]@);
    accepted_targets_are_apart(claims@, staked, x, y);
}

/// Two claims of one target are refused, of whatever entries and modes they are.
pub proof fn one_target_is_claimed_once(
    claims: Vec<TargetClaim>,
    anchors: Vec<(String, String)>,
    r: Result<(), CollisionError>,
    a: int,
    i: int,
    b: int,
    j: int,
)
    requires
        call_ensures(validate_targets, (&claims, &anchors), r),
        0 <= a < claims@.len(),
        0 <= i < claims@[a].targets@.len(),
        0 <= b < claims@.len(),
        0 <= j < claims@[b].targets@.len(),
        a != b || i != j,
        claims@[a].targets@[i]@ == claims@[b].targets@[j]@,
    ensures
        r is Err,
        r->Err_0 is SameTarget,
{
    if r is Ok {
        accepted_claims_are_apart(claims, anchors, r, a, i, b, j);
    } else {
        let n = claims@.len() as int;
        let staked = choose|staked: Seq<StakedTarget>|
            #![trigger stake_models(staked)]
            stake_models(staked) == all_stakes(claims@, n, anchors@) && (match first_duplicate(
                staked,
                0,
            ) {
                Some((i, j)) => r matches Err(e) && says_same(e, claims@, staked, i, j),
                None => match first_contained(claims@, staked, 0) {
                    Some((o, i)) => r matches Err(e) && says_contained(e, claims@, staked, o, i),
                    None => r is Ok,
                },
            });
        every_target_has_a_place(claims@, anchors@, n, a, i);
        every_target_has_a_place(claims@, anchors@, n, b, j);
        let x = count(claims@, a) + i;
        let y = count(claims@, b) + j;
        if a < b {
            counts_ascend(claims@, a + 1, b);
        } else if b < a {
            counts_ascend(claims@, b + 1, a);
        }
        assert(stake_models(staked).len() == staked.len());
        assert(stake_models(staked)[x] == staked[x]@);
        assert(stake_models(staked)[y] == staked[y]@);
        if first_duplicate(staked, 0) is None {
            if x < y {
                no_duplicate_from(staked, 0, x, y);
            } else {
                no_duplicate_from(staked, 0, y, x);
            }
        }
    }
}

/// A refusal has its reason, and names it: two places in the order of declaration that
/// share a key, or a place inside that of an entry that links a whole directory. It says
/// whose targets they are.
pub proof fn refused_claims_do_fight(
    claims: Vec<TargetClaim>,
    anchors: Vec<(String, String)>,
    e: CollisionError,
)
    requires
        call_ensures(validate_targets, (&claims, &anchors), Err::<(), CollisionError>(e)),
    ensures
        exists|a: int, i: int, b: int, j: int|
            0 <= a < claims@.len() && 0 <= i < claims@[a].targets@.len() && 0 <= b < claims@.len()
                && 0 <= j < claims@[b].targets@.len() && (a != b || i != j) && ({
                let first = #[trigger] claims@[a].targets@[i]@;
                let second = #[trigger] claims@[b].targets@[j]@;
                let key = |t: Seq<char>| collision_key(t, parent_anchor(anchors@, t));
                match e {
                    CollisionError::SameTarget {
                        target,
                        first_module,
                        first_source,
                        second_module,
                        second_source,
                        ..
                    } => same_path(key(first), key(second)) && (a < b || (a == b && i < j))
                        && target@ == second && first_module@ == claims@[a].module@
                        && first_source@ == claims@[a].source@ && second_module@
                        == claims@[b].module@ && second_source@ == claims@[b].source@,
                    CollisionError::ContainedTarget {
                        outer_module,
                        outer_source,
                        outer_target,
                        inner_module,
                        inner_source,
                        inner_target,
                        ..
                    } => claims@[a].mode == FileMode::SymlinkDir && path_under(
                        key(second),
                        key(first),
                    ) && outer_target@ == first && inner_target@ == second && outer_module@
                        == claims@[a].module@ && outer_source@ == claims@[a].source@
                        && inner_module@ == claims@[b].module@ && inner_source@
                        == claims@[b].source@,
                }
            }),
{
    let n = claims@.len() as int;
    let r = Err::<(), CollisionError>(e);
    let staked = choose|staked: Seq<StakedTarget>|
        #![trigger stake_models(staked)]
        stake_models(staked) == all_stakes(claims@, n, anchors@) && (match first_duplicate(
            staked,
            0,
        ) {
            Some((i, j)) => r matches Err(e) && says_same(e, claims@, staked, i, j),
            None => match first_contained(claims@, staked, 0) {
                Some((o, i)) => r matches Err(e) && says_contained(e, claims@, staked, o, i),
                None => r is Ok,
            },
        });
    assert(stake_models(staked).len() == staked.len());
    reported_duplicates_share_a_key(staked, 0);
    contained_is_inside(claims@, staked, 0);
    let (x, y) = match first_duplicate(staked, 0) {
        Some(pair) => pair,
        None => first_contained(claims@, staked, 0)->0,
    };
    assert(stake_models(staked)[x] == staked[x]@);
    assert(stake_models(staked)[y] == staked[y]@);
    let (a, i) = every_place_has_a_target(claims@, anchors@, n, x);
    let (b, j) = every_place_has_a_target(claims@, anchors@, n, y);
    if b < a {
        counts_ascend(claims@, b + 1, a);
    }
    let first = claims@[a].targets@[i]@;
    let second = claims@[b].targets@[j]@;
}

proof fn contained_is_inside(claims: Seq<TargetClaim>, staked: Seq<StakedTarget>, from: int)
    requires
        0 <= from,
    ensures
        first_contained(claims, staked, from) matches Some((o, i)) ==> 0 <= o < staked.len() && 0
            <= i < staked.len() && o != i && owns_a_directory(claims, staked, o) && inside(
            staked,
            o,
            i,
        ),
    decreases staked.len() - from,
{
    if from < staked.len() {
        inside_is_found(staked, from, 0);
        contained_is_inside(claims, staked, from + 1);
    }
}

proof fn inside_is_found(staked: Seq<StakedTarget>, outer: int, from: int)
    requires
        0 <= from,
    ensures
        first_inside(staked, outer, from) matches Some(i) ==> from <= i < staked.len() && inside(
            staked,
            outer,
            i,
        ),
    decreases staked.len() - from,
{
    if from < staked.len() {
        inside_is_found(staked, outer, from + 1);
    }
}

/// The key of a target is its name under its parent directory as that is respelled, or
/// as it was declared, folded to one case. A path that has no name under a parent is
/// folded whole.
pub proof fn keys_fold_the_place_of_a_target(target: &str, parent: Option<String>, key: String)
    requires
        call_ensures(comparison_key, (target, &parent), key),
    ensures
        ({
            let parts = path_components(target@);
            match path_parent(target@) {
                Some(declared) => if declared.len() > 0 && parts.len() > 0 && parts.last()
                    is Normal {
                    key@ == folded(
                        path_joined(
                            match parent {
                                Some(spelled) => spelled@,
                                None => declared,
                            },
                            parts.last()->Normal_text,
                        ),
                    )
                } else {
                    key@ == folded(target@)
                },
                None => key@ == folded(target@),
            }
        }),
{
}

/// A directory is respelled by the first pair that is for it, and stays as it is where
/// there is none.
pub proof fn directories_are_respelled_by_their_pair(
    anchors: Seq<(String, String)>,
    target: Seq<char>,
    k: int,
)
    requires
        path_parent(target) matches Some(parent) && parent.len() > 0,
        path_components(target).len() > 0,
        path_components(target).last() is Normal,
        0 <= k <= anchors.len(),
        k < anchors.len() ==> same_path(anchors[k].0@, path_parent(target)->0),
        forall|i: int|
            0 <= i < k ==> !same_path((#[trigger] anchors[i]).0@, path_parent(target)->0),
    ensures
        parent_anchor(anchors, target) == (if k < anchors.len() {
            Some(anchors[k].1@)
        } else {
            None
        }),
{
    respelled_by_the_first(anchors, path_parent(target)->0, k);
}

proof fn respelled_by_the_first(anchors: Seq<(String, String)>, parent: Seq<char>, k: int)
    requires
        0 <= k <= anchors.len(),
        k < anchors.len() ==> same_path(anchors[k].0@, parent),
        forall|i: int| 0 <= i < k ==> !same_path((#[trigger] anchors[i]).0@, parent),
    ensures
        anchored(anchors, parent) == (if k < anchors.len() {
            Some(anchors[k].1@)
        } else {
            None
        }),
    decreases anchors.len(),
{
    if anchors.len() > 0 && k > 0 {
        let rest = anchors.drop_first();
        assert(!same_path(anchors[0].0@, parent));
        assert forall|i: int| 0 <= i < k - 1 implies !same_path(
            (#[trigger] rest[i]).0@,
            parent,
        ) by {
            assert(rest[i] == anchors[i + 1]);
        }
        if k < anchors.len() {
            assert(rest[k - 1] == anchors[k]);
        }
        respelled_by_the_first(rest, parent, k - 1);
    }
}

} // verus!
