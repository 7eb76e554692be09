//! Where paths lead, and where backups of what stands there lie.

use crate::backups::backup_before_overwrite;
use crate::journal::probe::mirror_backup_path;
use crate::journal::probe::mirror_components;
use crate::journal::probe::mirror_parts;
use crate::journal::probe::volume_parts;
use crate::paths::CanonicalStep;
use crate::paths::canonical_step;
use crate::paths::canonicalize_lexical;
use crate::paths::dots_folded;
use crate::paths::expand_tilde;
use crate::paths::fold_dot_segments;
use crate::paths::fold_parts;
use crate::paths::locate;
use crate::paths::split_location;
use crate::text::views;
use crate::utf8_path::ComponentModel;
use crate::utf8_path::PathComponent;
use crate::utf8_path::PathPrefix;
use crate::utf8_path::PrefixModel;
use crate::utf8_path::component_views;
use crate::utf8_path::joined_all;
use crate::utf8_path::path_components;
use crate::utf8_path::path_is_absolute;
use crate::utf8_path::path_joined;
use crate::utf8_path::path_parent;
use crate::utf8_path::path_prefix;
use crate::utf8_path::prefix_view;
use vstd::prelude::*;

verus! {

/// A `~` is the home directory, and what follows a `~/` lies under it. Any other path
/// stays.
pub proof fn tildes_lead_home(path: &str, home: &str, r: String, rest: Seq<char>)
    requires
        call_ensures(expand_tilde, (path, home), r),
    ensures
        path@ == seq!['~'] ==> r@ == home@,
        path@ == seq!['~', '/'] + rest && (path_components(rest).len() == 0 || !(path_components(
            rest,
        )[0] is Prefix || path_components(rest)[0] is RootDir)) ==> r@ == path_joined(home@, rest),
        path@.len() == 0 || path@[0] != '~' || (path@.len() > 1 && path@[1] != '/') ==> r@ == path@,
{
    reveal_strlit("~");
    reveal_strlit("~/");
    assert("~"@ =~= seq!['~']);
    assert("~/"@ =~= seq!['~', '/']);
    if path@ == seq!['~', '/'] + rest {
        assert(path@.take(2) =~= "~/"@);
        assert(path@.skip(2) =~= rest);
        assert(path@.len() >= 2);
    }
    if path@.len() >= 2 && path@.take(2) == "~/"@ {
        assert(path@.take(2)[0] == path@[0]);
        assert(path@.take(2)[1] == path@[1]);
    }
}

proof fn folding_goes_on(a: Seq<ComponentModel>, b: Seq<ComponentModel>, rest: Seq<ComponentModel>)
    requires
        dots_folded(a) == dots_folded(b),
    ensures
        dots_folded(a + rest) == dots_folded(b + rest),
    decreases rest.len(),
{
    if rest.len() == 0 {
        assert(a + rest =~= a);
        assert(b + rest =~= b);
    } else {
        folding_goes_on(a, b, rest.drop_last());
        assert((a + rest).drop_last() =~= a + rest.drop_last());
        assert((b + rest).drop_last() =~= b + rest.drop_last());
        assert((a + rest).last() == (b + rest).last());
    }
}

/// A `.` makes no difference, wherever it stands.
pub proof fn dots_make_no_difference(
    with: Vec<PathComponent>,
    without: Vec<PathComponent>,
    r: Vec<PathComponent>,
    s: Vec<PathComponent>,
    front: Seq<ComponentModel>,
    rest: Seq<ComponentModel>,
)
    requires
        call_ensures(fold_parts, (&with,), r),
        call_ensures(fold_parts, (&without,), s),
        component_views(with@) == front.push(ComponentModel::CurDir) + rest,
        component_views(without@) == front + rest,
    ensures
        component_views(r@) == component_views(s@),
{
    assert(front.push(ComponentModel::CurDir).drop_last() =~= front);
    folding_goes_on(front.push(ComponentModel::CurDir), front, rest);
}

/// A `..` takes away the name right before it, wherever the two stand, and only where
/// there is one: right behind a volume or the root it makes no difference.
pub proof fn parents_take_a_name_away(
    with: Vec<PathComponent>,
    without: Vec<PathComponent>,
    r: Vec<PathComponent>,
    s: Vec<PathComponent>,
    front: Seq<ComponentModel>,
    before: ComponentModel,
    rest: Seq<ComponentModel>,
)
    requires
        call_ensures(fold_parts, (&with,), r),
        call_ensures(fold_parts, (&without,), s),
        component_views(with@) == front.push(before).push(ComponentModel::ParentDir) + rest,
        match before {
            ComponentModel::Normal { .. } => component_views(without@) == front + rest,
            ComponentModel::RootDir { .. } => component_views(without@) == front.push(before)
                + rest,
            ComponentModel::Prefix { .. } => component_views(without@) == front.push(before) + rest,
            _ => false,
        },
    ensures
        component_views(r@) == component_views(s@),
{
    let one = front.push(before);
    let two = one.push(ComponentModel::ParentDir);
    assert(one.drop_last() =~= front);
    assert(two.drop_last() =~= one);
    assert(dots_folded(one) == dots_folded(front).push(before));
    match before {
        ComponentModel::Normal { .. } => {
            assert(dots_folded(two) =~= dots_folded(front));
            folding_goes_on(two, front, rest);
        },
        _ => {
            folding_goes_on(two, one, rest);
        },
    }
}

/// What is left climbs first and then names: where the row starts with as many `..` as
/// it holds and has no `.`, nothing is taken away.
pub proof fn climbs_and_names_stay(parts: Vec<PathComponent>, r: Vec<PathComponent>, n: int)
    requires
        call_ensures(fold_parts, (&parts,), r),
        0 <= n <= parts@.len(),
        forall|i: int| 0 <= i < n ==> (#[trigger] parts@[i]) is ParentDir,
        forall|i: int|
            n <= i < parts@.len() ==> !((#[trigger] parts@[i]) is ParentDir || parts@[i] is CurDir),
    ensures
        component_views(r@) == component_views(parts@),
{
    let all = component_views(parts@);
    assert(forall|i: int| 0 <= i < all.len() ==> #[trigger] all[i] == parts@[i]@);
    climb_stays(all, n);
}

proof fn climb_stays(parts: Seq<ComponentModel>, n: int)
    requires
        0 <= n <= parts.len(),
        forall|i: int| 0 <= i < n ==> (#[trigger] parts[i]) is ParentDir,
        forall|i: int|
            n <= i < parts.len() ==> !((#[trigger] parts[i]) is ParentDir || parts[i] is CurDir),
    ensures
        dots_folded(parts) == parts,
    decreases parts.len(),
{
    if parts.len() > 0 {
        let front = parts.drop_last();
        assert(forall|i: int| 0 <= i < front.len() ==> #[trigger] front[i] == parts[i]);
        let k = if n < parts.len() {
            n
        } else {
            n - 1
        };
        climb_stays(front, k);
        assert(parts =~= front.push(parts.last()));
        assert(parts[parts.len() - 1] == parts.last());
        if parts.last() is ParentDir {
            if front.len() > 0 {
                assert(front[front.len() - 1] is ParentDir);
            }
        }
    } else {
        assert(dots_folded(parts) =~= parts);
    }
}

/// A path is parted where it ends in a name and has a parent that is not empty: into that
/// parent and that name. Its place is the name under whatever the parent resolves to, and
/// else whatever the path resolves to.
pub proof fn paths_are_parted_at_their_name(
    path: &str,
    resolved: &str,
    r: Option<(String, String)>,
    place: String,
)
    requires
        call_ensures(split_location, (path,), r),
        call_ensures(locate, (path, resolved), place),
    ensures
        r is Some <==> {
            &&& path_parent(path@) is Some
            &&& path_parent(path@)->0.len() > 0
            &&& path_components(path@).len() > 0
            &&& path_components(path@).last() is Normal
        },
        r matches Some((parent, name)) ==> {
            &&& Some(parent@) == path_parent(path@)
            &&& path_components(path@).last() == (ComponentModel::Normal { text: name@ })
            &&& place@ == path_joined(resolved@, name@)
        },
        r is None ==> place@ == resolved@,
{
}

/// What exists is resolved whole. What does not exist is resolved by its parent, where that
/// does and the path can be parted, and else on paper.
pub proof fn paths_are_resolved_as_far_as_they_exist(
    path: &str,
    found: bool,
    parent_exists: bool,
    r: CanonicalStep,
    parts: Option<(String, String)>,
)
    requires
        call_ensures(canonical_step, (path, found, parent_exists), r),
        call_ensures(split_location, (path,), parts),
    ensures
        r is Whole <==> found,
        r is UnderParent <==> !found && parent_exists && parts is Some,
        r matches CanonicalStep::UnderParent { parent, name } ==> (parts matches Some((p, n))
            && parent@ == p@ && name@ == n@),
        r matches CanonicalStep::OnPaper { relative } ==> relative == !path_is_absolute(path@),
{
}

/// On paper a path is what is left of it on top of its base when the dots are folded out,
/// wherever that keeps an absolute path absolute.
pub proof fn paths_on_paper_are_folded(
    base: &str,
    path: &str,
    r: String,
    whole: &str,
    folded: String,
)
    requires
        call_ensures(canonicalize_lexical, (base, path), r),
        whole@ == path_joined(base@, path@),
        call_ensures(fold_dot_segments, (whole,), folded),
    ensures
        path_is_absolute(whole@) && !path_is_absolute(folded@) ==> r@ == whole@,
        !path_is_absolute(whole@) || path_is_absolute(folded@) ==> r@ == folded@,
{
}

proof fn mirrors_add_up(
    a: Seq<ComponentModel>,
    b: Seq<ComponentModel>,
    prefix: Option<PrefixModel>,
)
    ensures
        mirror_parts(a + b, prefix) == mirror_parts(a, prefix) + mirror_parts(b, prefix),
    decreases b.len(),
{
    if b.len() == 0 {
        assert(a + b =~= a);
        assert(mirror_parts(a, prefix) + mirror_parts(b, prefix) =~= mirror_parts(a, prefix));
    } else {
        mirrors_add_up(a, b.drop_last(), prefix);
        assert((a + b).drop_last() =~= a + b.drop_last());
        assert((a + b).last() == b.last());
        assert(mirror_parts(a + b, prefix) =~= mirror_parts(a, prefix) + mirror_parts(b, prefix));
    }
}

/// Two rows of components are mirrored one after the other, and of a single component the
/// mirror is its name, what stands for its volume, or nothing.
pub proof fn mirrors_go_component_by_component(
    whole: Vec<PathComponent>,
    front: Vec<PathComponent>,
    rest: Vec<PathComponent>,
    prefix: Option<PathPrefix>,
    r: Vec<String>,
    a: Vec<String>,
    b: Vec<String>,
)
    requires
        call_ensures(mirror_components, (&whole, &prefix), r),
        call_ensures(mirror_components, (&front, &prefix), a),
        call_ensures(mirror_components, (&rest, &prefix), b),
        whole@ == front@ + rest@,
    ensures
        views(r@) == views(a@) + views(b@),
        rest@.len() == 0 ==> b@.len() == 0,
        rest@.len() == 1 ==> match rest@[0] {
            PathComponent::Normal { text } => views(b@) == seq![text@],
            PathComponent::Prefix { .. } => match prefix {
                None => b@.len() == 0,
                Some(PathPrefix::Disk { letter }) => views(b@) == seq![seq![letter]],
                Some(PathPrefix::VerbatimDisk { letter }) => views(b@) == seq![seq![letter]],
                Some(PathPrefix::Unc { host, share }) => views(b@) == seq![
                    "__unc__"@,
                    host@,
                    share@,
                ],
                Some(PathPrefix::VerbatimUnc { host, share }) => views(b@) == seq![
                    "__unc__"@,
                    host@,
                    share@,
                ],
                Some(PathPrefix::Device { name }) => views(b@) == seq!["__device__"@, name@],
                Some(PathPrefix::Verbatim { name }) => views(b@) == seq!["__verbatim__"@, name@],
            },
            _ => b@.len() == 0,
        },
{
    let p = prefix_view(prefix);
    let x = component_views(front@);
    let y = component_views(rest@);
    assert(component_views(whole@) =~= x + y);
    mirrors_add_up(x, y, p);
    assert(views(b@).len() == b@.len());
    if rest@.len() == 1 {
        assert(y.last() == rest@[0]@);
        assert(y.drop_last() =~= Seq::<ComponentModel>::empty());
        assert(mirror_parts(y.drop_last(), p) =~= Seq::<Seq<char>>::empty());
        match rest@[0] {
            PathComponent::Normal { text } => {
                assert(views(b@) =~= seq![text@]);
            },
            PathComponent::Prefix { .. } => {
                assert(Seq::<Seq<char>>::empty() + volume_parts(p)
                    =~= volume_parts(p));
            },
            _ => {},
        }
    }
}

/// A backup lies under the directory of its run, by the names that mirror its target: each
/// further name leads one level down. There is one where something stands at the target.
pub proof fn backups_lie_under_their_run(
    backups: &str,
    id: &str,
    target: &str,
    present: bool,
    r: Option<String>,
    place: String,
    parts: Vec<PathComponent>,
    prefix: Option<PathPrefix>,
    names: Vec<String>,
)
    requires
        call_ensures(backup_before_overwrite, (backups, id, target, present), r),
        call_ensures(mirror_backup_path, (backups, id, target), place),
        component_views(parts@) == path_components(target@),
        prefix_view(prefix) == path_prefix(target@),
        call_ensures(mirror_components, (&parts, &prefix), names),
    ensures
        r is Some <==> present,
        r is Some ==> r->0@ == place@,
        names@.len() == 0 ==> place@ == path_joined(backups@, id@),
        names@.len() == 1 ==> place@ == path_joined(path_joined(backups@, id@), names@[0]@),
        names@.len() == 2 ==> place@ == path_joined(
            path_joined(path_joined(backups@, id@), names@[0]@),
            names@[1]@,
        ),
        names@.len() > 0 ==> exists|dir: Seq<char>|
            place@ == #[trigger] path_joined(dir, names@.last()@),
{
    reveal_with_fuel(joined_all, 3);
    let all = views(names@);
    assert(all.len() == names@.len());
    assert(forall|i: int| 0 <= i < all.len() ==> #[trigger] all[i] == names@[i]@);
    let base = path_joined(backups@, id@);
    assert(place@ == joined_all(base, all));
    if all.len() > 0 {
        assert(place@ == path_joined(
            joined_all(base, all.drop_last()),
            names@.last()@,
        ));
    }
    if all.len() == 2 {
        assert(all.drop_last().last() == names@[0]@);
        assert(all.drop_last().drop_last() =~= Seq::<Seq<char>>::empty());
    }
    if all.len() == 1 {
        assert(all.drop_last() =~= Seq::<Seq<char>>::empty());
    }
}

} // verus!
