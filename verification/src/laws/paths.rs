//! When two paths are one, and when one lies under the other.

use crate::path_order::component_key;
use crate::path_order::is_same_path;
use crate::path_order::is_under;
use crate::path_order::parts_key;
use crate::utf8_path::ComponentModel;
use crate::utf8_path::PrefixModel;
use crate::utf8_path::path_components;
use crate::utf8_path::path_prefix;
use vstd::prelude::*;

verus! {

/// Whether two components are alike: both the root, both `.`, both `..`, or one name.
pub open spec fn alike(a: ComponentModel, b: ComponentModel) -> bool {
    match (a, b) {
        (ComponentModel::RootDir { .. }, ComponentModel::RootDir { .. }) => true,
        (ComponentModel::CurDir, ComponentModel::CurDir) => true,
        (ComponentModel::ParentDir, ComponentModel::ParentDir) => true,
        (ComponentModel::Normal { text: x }, ComponentModel::Normal { text: y }) => x == y,
        _ => false,
    }
}

/// Whether a path names no volume.
pub open spec fn names_no_volume(path: Seq<char>) -> bool {
    forall|i: int|
        0 <= i < path_components(path).len() ==> !((#[trigger] path_components(path)[i]) is Prefix)
}

proof fn key_by_component(parts: Seq<ComponentModel>, prefix: Option<PrefixModel>)
    requires
        forall|i: int| 0 <= i < parts.len() ==> !((#[trigger] parts[i]) is Prefix),
    ensures
        parts_key(parts, prefix).len() == parts.len(),
        forall|i: int|
            0 <= i < parts.len() ==> (#[trigger] parts_key(parts, prefix)[i]) == component_key(
                parts[i],
                prefix,
            )[0],
    decreases parts.len(),
{
    if parts.len() > 0 {
        let front = parts.drop_last();
        assert(forall|i: int| 0 <= i < front.len() ==> #[trigger] front[i] == parts[i]);
        key_by_component(front, prefix);
        assert(!(parts[parts.len() - 1] is Prefix));
    }
}

proof fn keys_tell_components_apart(
    a: ComponentModel,
    b: ComponentModel,
    p: Option<PrefixModel>,
    q: Option<PrefixModel>,
)
    requires
        !(a is Prefix),
        !(b is Prefix),
    ensures
        component_key(a, p)[0] == component_key(b, q)[0] <==> alike(a, b),
{
    reveal_strlit("1");
    reveal_strlit("2");
    reveal_strlit("3");
    reveal_strlit("4");
    let x = component_key(a, p)[0];
    let y = component_key(b, q)[0];
    assert(x.len() > 0 && y.len() > 0);
    if x == y {
        assert(x[0] == y[0]);
        match (a, b) {
            (ComponentModel::Normal { text: s }, ComponentModel::Normal { text: t }) => {
                assert(("4"@ + s).skip(1) =~= s);
                assert(("4"@ + t).skip(1) =~= t);
            },
            _ => {},
        }
    }
}

/// Two paths that name no volume are one exactly where they have as many components and
/// these are alike, one by one.
pub proof fn paths_are_one_by_their_components(a: &str, b: &str, r: bool)
    requires
        call_ensures(is_same_path, (a, b), r),
        names_no_volume(a@),
        names_no_volume(b@),
    ensures
        r <==> path_components(a@).len() == path_components(b@).len() && forall|i: int|
            0 <= i < path_components(a@).len() ==> alike(
                #[trigger] path_components(a@)[i],
                path_components(b@)[i],
            ),
{
    let x = path_components(a@);
    let y = path_components(b@);
    let p = path_prefix(a@);
    let q = path_prefix(b@);
    key_by_component(x, p);
    key_by_component(y, q);
    let kx = parts_key(x, p);
    let ky = parts_key(y, q);
    assert forall|i: int| 0 <= i < x.len() && i < y.len() implies (kx[i] == ky[i] <==> alike(
        #[trigger] x[i],
        y[i],
    )) by {
        assert(kx[i] == component_key(x[i], p)[0]);
        assert(ky[i] == component_key(y[i], q)[0]);
        keys_tell_components_apart(x[i], y[i], p, q);
    }
    if r {
        assert(kx == ky);
    }
    if x.len() == y.len() && forall|i: int| 0 <= i < x.len() ==> alike(#[trigger] x[i], y[i]) {
        assert forall|i: int| 0 <= i < kx.len() implies kx[i] == ky[i] by {
            assert(alike(x[i], y[i]));
        }
        assert(kx =~= ky);
    }
}

/// A path that names no volume lies at or under another exactly where it starts with
/// components that are alike the other's, one by one.
pub proof fn paths_lie_under_by_their_components(path: &str, base: &str, r: bool)
    requires
        call_ensures(is_under, (path, base), r),
        names_no_volume(path@),
        names_no_volume(base@),
    ensures
        r <==> path_components(base@).len() <= path_components(path@).len() && forall|i: int|
            0 <= i < path_components(base@).len() ==> alike(
                #[trigger] path_components(base@)[i],
                path_components(path@)[i],
            ),
{
    let x = path_components(base@);
    let y = path_components(path@);
    let p = path_prefix(base@);
    let q = path_prefix(path@);
    key_by_component(x, p);
    key_by_component(y, q);
    let kx = parts_key(x, p);
    let ky = parts_key(y, q);
    assert forall|i: int| 0 <= i < x.len() && i < y.len() implies (kx[i] == ky[i] <==> alike(
        #[trigger] x[i],
        y[i],
    )) by {
        assert(kx[i] == component_key(x[i], p)[0]);
        assert(ky[i] == component_key(y[i], q)[0]);
        keys_tell_components_apart(x[i], y[i], p, q);
    }
    if r {
        assert(kx =~= ky.take(kx.len() as int));
        assert forall|i: int| 0 <= i < x.len() implies alike(#[trigger] x[i], y[i]) by {
            assert(ky.take(kx.len() as int)[i] == ky[i]);
        }
    }
    if x.len() <= y.len() && forall|i: int| 0 <= i < x.len() ==> alike(#[trigger] x[i], y[i]) {
        assert forall|i: int| 0 <= i < kx.len() implies kx[i] == ky[i] by {
            assert(alike(x[i], y[i]));
        }
        assert(kx =~= ky.take(kx.len() as int));
    }
}

} // verus!
