//! Equality, containment and order of paths.
//!
//! Two paths are the same where their components are, so that `a//b` and `a/b`
//! are one path, and a path lies under another where its components start with
//! the other's. Paths are ordered by their components in turn: a volume before
//! the root, the root before `.`, `.` before `..` and that before a name, and
//! names by their characters.

use crate::text::joined;
use crate::text::same_text;
use crate::text::text_less;
use crate::text::text_order_is_irreflexive;
use crate::text::text_order_is_total;
use crate::text::text_order_is_transitive;
use crate::text::views;
use crate::utf8_path::ComponentModel;
use crate::utf8_path::PathComponent;
use crate::utf8_path::PathPrefix;
use crate::utf8_path::PrefixModel;
use crate::utf8_path::component_views;
use crate::utf8_path::components_of;
use crate::utf8_path::path_components;
use crate::utf8_path::path_prefix;
use crate::utf8_path::prefix_of;
use crate::utf8_path::prefix_view;
use vstd::prelude::*;

verus! {

/// What a volume contributes to a path's key. A volume and its verbatim form
/// contribute different parts: they are not the same path.
pub open spec fn prefix_key(prefix: Option<PrefixModel>) -> Seq<Seq<char>> {
    match prefix {
        None => Seq::empty(),
        Some(PrefixModel::Verbatim { name }) => seq!["00"@ + name],
        Some(PrefixModel::VerbatimUnc { host, share }) => seq!["01"@ + host, share],
        Some(PrefixModel::VerbatimDisk { letter }) => seq!["02"@.push(letter)],
        Some(PrefixModel::Device { name }) => seq!["03"@ + name],
        Some(PrefixModel::Unc { host, share }) => seq!["04"@ + host, share],
        Some(PrefixModel::Disk { letter }) => seq!["05"@.push(letter)],
    }
}

/// What a component contributes to a path's key.
pub open spec fn component_key(c: ComponentModel, prefix: Option<PrefixModel>) -> Seq<Seq<char>> {
    match c {
        ComponentModel::Prefix { .. } => prefix_key(prefix),
        ComponentModel::RootDir { .. } => seq!["1"@],
        ComponentModel::CurDir => seq!["2"@],
        ComponentModel::ParentDir => seq!["3"@],
        ComponentModel::Normal { text } => seq!["4"@ + text],
    }
}

/// The key of a row of components.
pub open spec fn parts_key(parts: Seq<ComponentModel>, prefix: Option<PrefixModel>) -> Seq<
    Seq<char>,
>
    decreases parts.len(),
{
    if parts.len() == 0 {
        Seq::empty()
    } else {
        parts_key(parts.drop_last(), prefix) + component_key(parts.last(), prefix)
    }
}

/// What a path is compared by.
pub open spec fn path_key(path: Seq<char>) -> Seq<Seq<char>> {
    parts_key(path_components(path), path_prefix(path))
}

/// Whether two paths have the same components.
pub open spec fn same_path(a: Seq<char>, b: Seq<char>) -> bool {
    path_key(a) == path_key(b)
}

/// Whether `path` is `base` or lies under it.
pub open spec fn path_under(path: Seq<char>, base: Seq<char>) -> bool {
    path_key(base).is_prefix_of(path_key(path))
}

/// The order of keys.
pub open spec fn key_less(a: Seq<Seq<char>>, b: Seq<Seq<char>>) -> bool
    decreases a.len(),
{
    if b.len() == 0 {
        false
    } else if a.len() == 0 {
        true
    } else {
        text_less(a[0], b[0]) || (a[0] == b[0] && key_less(a.drop_first(), b.drop_first()))
    }
}

/// Whether `a` comes before `b`.
pub open spec fn path_before(a: Seq<char>, b: Seq<char>) -> bool {
    key_less(path_key(a), path_key(b))
}

/// Whether no path comes before one in front of it.
pub open spec fn in_path_order(paths: Seq<Seq<char>>) -> bool {
    forall|i: int, j: int|
        0 <= i < j < paths.len() ==> !path_before(#[trigger] paths[j], #[trigger] paths[i])
}

/// No key comes before itself.
pub proof fn key_order_is_irreflexive(a: Seq<Seq<char>>)
    ensures
        !key_less(a, a),
    decreases a.len(),
{
    if a.len() > 0 {
        text_order_is_irreflexive(a[0]);
        key_order_is_irreflexive(a.drop_first());
    }
}

/// Of two different keys one comes before the other.
pub proof fn key_order_is_total(a: Seq<Seq<char>>, b: Seq<Seq<char>>)
    ensures
        key_less(a, b) || a == b || key_less(b, a),
    decreases a.len(),
{
    if a.len() == 0 || b.len() == 0 {
        if a.len() == b.len() {
            assert(a =~= b);
        }
    } else {
        text_order_is_total(a[0], b[0]);
        if a[0] == b[0] {
            key_order_is_total(a.drop_first(), b.drop_first());
            if a.drop_first() == b.drop_first() {
                assert(a =~= seq![a[0]] + a.drop_first());
                assert(b =~= seq![b[0]] + b.drop_first());
            }
        }
    }
}

/// The order of keys is transitive.
pub proof fn key_order_is_transitive(a: Seq<Seq<char>>, b: Seq<Seq<char>>, c: Seq<Seq<char>>)
    requires
        key_less(a, b),
        key_less(b, c),
    ensures
        key_less(a, c),
    decreases a.len(),
{
    if a.len() > 0 {
        if text_less(a[0], b[0]) && text_less(b[0], c[0]) {
            text_order_is_transitive(a[0], b[0], c[0]);
        } else if a[0] == b[0] && b[0] == c[0] {
            key_order_is_transitive(a.drop_first(), b.drop_first(), c.drop_first());
        }
    }
}

/// A path lies under itself, and containment is transitive. Two paths that lie
/// under each other are the same.
pub proof fn containment_is_an_order(a: Seq<char>, b: Seq<char>, c: Seq<char>)
    ensures
        path_under(a, a),
        path_under(a, b) && path_under(b, c) ==> path_under(a, c),
        path_under(a, b) && path_under(b, a) ==> same_path(a, b),
{
    if path_under(a, b) && path_under(b, c) {
        assert(path_key(c) =~= path_key(a).take(path_key(c).len() as int));
    }
    if path_under(a, b) && path_under(b, a) {
        assert(path_key(a) =~= path_key(b));
    }
}

fn letter_text(head: &str, letter: char) -> (r: String)
    ensures
        r@ == head@.push(letter),
{
    let mut r: String = head.to_owned();
    r.push(letter);
    r
}

fn push_prefix_key(key: &mut Vec<String>, prefix: &Option<PathPrefix>)
    ensures
        views(final(key)@) == views(old(key)@) + prefix_key(prefix_view(*prefix)),
{
    let ghost before = views(key@);
    match prefix {
        None => {},
        Some(PathPrefix::Verbatim { name }) => key.push(joined("00", name.as_str())),
        Some(PathPrefix::VerbatimUnc { host, share }) => {
            key.push(joined("01", host.as_str()));
            key.push(share.clone());
        },
        Some(PathPrefix::VerbatimDisk { letter }) => key.push(letter_text("02", *letter)),
        Some(PathPrefix::Device { name }) => key.push(joined("03", name.as_str())),
        Some(PathPrefix::Unc { host, share }) => {
            key.push(joined("04", host.as_str()));
            key.push(share.clone());
        },
        Some(PathPrefix::Disk { letter }) => key.push(letter_text("05", *letter)),
    }
    assert(views(key@) =~= before + prefix_key(prefix_view(*prefix)));
}

/// What `path` is compared by.
pub fn key_of(path: &str) -> (key: Vec<String>)
    ensures
        views(key@) == path_key(path@),
{
    let parts: Vec<PathComponent> = components_of(path);
    let prefix: Option<PathPrefix> = prefix_of(path);
    let ghost all = component_views(parts@);
    let ghost volume = prefix_view(prefix);
    let mut key: Vec<String> = Vec::new();
    assert(views(key@) =~= Seq::<Seq<char>>::empty());
    let mut i: usize = 0;
    while i < parts.len()
        invariant
            i <= parts@.len(),
            all == component_views(parts@),
            volume == prefix_view(prefix),
            views(key@) == parts_key(all.take(i as int), volume),
        decreases parts@.len() - i,
    {
        let ghost before = views(key@);
        assert(all[i as int] == parts@[i as int]@);
        match &parts[i] {
            PathComponent::Prefix { .. } => push_prefix_key(&mut key, &prefix),
            PathComponent::RootDir { .. } => key.push("1".to_owned()),
            PathComponent::CurDir => key.push("2".to_owned()),
            PathComponent::ParentDir => key.push("3".to_owned()),
            PathComponent::Normal { text } => key.push(joined("4", text.as_str())),
        }
        proof {
            assert(all.take(i + 1).drop_last() =~= all.take(i as int));
            assert(all.take(i + 1).last() == all[i as int]);
            assert(views(key@) =~= before + component_key(all[i as int], volume));
        }
        i = i + 1;
    }
    assert(all.take(i as int) =~= all);
    key
}

/// Whether a key starts with another.
fn key_starts_with(key: &Vec<String>, base: &Vec<String>) -> (r: bool)
    ensures
        r == views(base@).is_prefix_of(views(key@)),
{
    if base.len() > key.len() {
        assert(views(base@).len() > views(key@).len());
        return false;
    }
    let mut i: usize = 0;
    while i < base.len()
        invariant
            i <= base@.len() <= key@.len(),
            forall|k: int| 0 <= k < i ==> (#[trigger] views(base@)[k]) == views(key@)[k],
        decreases base@.len() - i,
    {
        if !same_text(base[i].as_str(), key[i].as_str()) {
            assert(views(base@)[i as int] != views(key@)[i as int]);
            return false;
        }
        i = i + 1;
    }
    assert(views(base@) =~= views(key@).take(base@.len() as int));
    true
}

/// Whether two paths have the same components.
pub fn is_same_path(a: &str, b: &str) -> (r: bool)
    ensures
        r == same_path(a@, b@),
{
    let ka: Vec<String> = key_of(a);
    let kb: Vec<String> = key_of(b);
    if ka.len() != kb.len() {
        assert(views(ka@).len() != views(kb@).len());
        return false;
    }
    let r: bool = key_starts_with(&ka, &kb);
    assert(r ==> views(ka@) =~= views(kb@));
    r
}

/// Whether `path` is `base` or lies under it.
pub fn is_under(path: &str, base: &str) -> (r: bool)
    ensures
        r == path_under(path@, base@),
{
    key_starts_with(&key_of(path), &key_of(base))
}

/// Whether `a` comes before `b`, by the order of [`camino::Utf8Path`], which compares
/// the components of two paths in turn.
#[verifier::external_body]
pub(crate) fn comes_before(a: &str, b: &str) -> (r: bool)
    ensures
        r == path_before(a@, b@),
{
    camino::Utf8Path::new(a) < camino::Utf8Path::new(b)
}

/// Sorts paths by their components.
pub fn sort_paths(paths: &mut Vec<String>)
    ensures
        in_path_order(views(final(paths)@)),
        views(final(paths)@).to_multiset() == views(old(paths)@).to_multiset(),
{
    let ghost all = views(paths@);
    let mut rest: Vec<String> = Vec::new();
    let mut sorted: Vec<String> = Vec::new();
    rest.append(paths);
    assert(views(rest@) =~= all);
    assert(views(sorted@) + views(rest@) =~= all);
    while rest.len() > 0
        invariant
            in_path_order(views(sorted@)),
            (views(sorted@) + views(rest@)).to_multiset() == all.to_multiset(),
        decreases rest@.len(),
    {
        let ghost s = views(sorted@);
        let ghost r = views(rest@);
        let path: String = rest.remove(0);
        proof {
            assert(path@ == r[0]);
            assert(views(rest@) =~= r.drop_first());
            assert(s + r =~= s.push(path@) + views(rest@));
        }
        insert_path(&mut sorted, path);
        proof {
            vstd::seq_lib::lemma_multiset_commutative(views(sorted@), views(rest@));
            vstd::seq_lib::lemma_multiset_commutative(s.push(r[0]), views(rest@));
        }
    }
    assert(views(sorted@) + views(rest@) =~= views(sorted@));
    paths.append(&mut sorted);
}

fn insert_path(sorted: &mut Vec<String>, path: String)
    requires
        in_path_order(views(old(sorted)@)),
    ensures
        in_path_order(views(final(sorted)@)),
        views(final(sorted)@).to_multiset() == views(old(sorted)@).push(path@).to_multiset(),
{
    let ghost s = views(sorted@);
    let ghost p = path@;
    let mut i: usize = sorted.len();
    while i > 0 && comes_before(path.as_str(), sorted[i - 1].as_str())
        invariant
            i <= sorted@.len(),
            s == views(sorted@),
            p == path@,
            in_path_order(s),
            forall|k: int| i <= k < s.len() ==> path_before(p, #[trigger] s[k]),
        decreases i,
    {
        i = i - 1;
    }
    assert(i > 0 ==> !path_before(p, s[i - 1]));
    assert(forall|k: int| i <= k < s.len() ==> path_before(p, #[trigger] s[k]));
    sorted.insert(i, path);
    proof {
        let n = views(sorted@);
        assert(n =~= s.insert(i as int, p));
        assert forall|a: int, b: int| 0 <= a < b < n.len() implies !path_before(
            #[trigger] n[b],
            #[trigger] n[a],
        ) by {
            let ka = path_key(n[a]);
            let kb = path_key(n[b]);
            if a == i {
                assert(n[b] == s[b - 1]);
                if key_less(kb, ka) {
                    key_order_is_transitive(kb, ka, kb);
                    key_order_is_irreflexive(kb);
                }
            } else if b == i {
                assert(n[a] == s[a]);
                let last = path_key(s[i - 1]);
                if key_less(kb, ka) {
                    if a < i - 1 {
                        assert(!path_before(s[i - 1], s[a]));
                        key_order_is_total(ka, last);
                        if key_less(ka, last) {
                            key_order_is_transitive(kb, ka, last);
                        }
                    }
                }
            } else {
                let x = if a < i {
                    a
                } else {
                    a - 1
                };
                let y = if b < i {
                    b
                } else {
                    b - 1
                };
                assert(n[a] == s[x] && n[b] == s[y]);
            }
        }
        vstd::seq_lib::to_multiset_insert(s, i as int, p);
        vstd::seq_lib::to_multiset_build(s, p);
    }
}

} // verus!
