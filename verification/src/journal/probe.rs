//! Looking at a target, and the place of its backup.
//!
//! The backup of a target lives under `<backups>/<id>/`, at a path that mirrors
//! the target's own. The writer of backups and recovery use the one mapping
//! here, so that they agree on where an original lies.

use crate::text::views;
use crate::utf8_path::ComponentModel;
use crate::utf8_path::PathComponent;
use crate::utf8_path::PathPrefix;
use crate::utf8_path::PrefixModel;
use crate::utf8_path::component_views;
use crate::utf8_path::components_of;
use crate::utf8_path::join_all;
use crate::utf8_path::join_path;
use crate::utf8_path::joined_all;
use crate::utf8_path::path_components;
use crate::utf8_path::path_joined;
use crate::utf8_path::path_prefix;
use crate::utf8_path::prefix_of;
use crate::utf8_path::prefix_view;
use super::PlannedOperation;
use vstd::prelude::*;

verus! {

/// What stands at a planned target.
#[derive(Debug, Clone, Copy, PartialEq, Eq, Structural)]
#[non_exhaustive]
pub enum Probe {
    /// A file, a directory or a symbolic link, even one that points nowhere.
    Present,
    /// Nothing.
    Absent,
}

/// What stands at a target, given whether its entry, not followed, could be
/// read.
pub fn classify_target(entry_present: bool) -> (r: Probe)
    ensures
        r == (if entry_present {
            Probe::Present
        } else {
            Probe::Absent
        }),
{
    if entry_present {
        Probe::Present
    } else {
        Probe::Absent
    }
}

/// The path that an operation writes or removes.
pub fn operation_target(op: &PlannedOperation) -> (target: &str)
    ensures
        target@ == op@.target(),
{
    match op {
        PlannedOperation::Symlink { target, .. } => target.as_str(),
        PlannedOperation::Render { target, .. } => target.as_str(),
        PlannedOperation::Copy { target, .. } => target.as_str(),
        PlannedOperation::Remove { target } => target.as_str(),
    }
}

/// In front of the host and share of a network volume. A drive is one letter:
/// the marker keeps a host of one letter apart from it.
const UNC_MARKER: &'static str = "__unc__";

/// In front of the name of a device.
const DEVICE_MARKER: &'static str = "__device__";

/// In front of a verbatim name that is neither a drive nor a share.
const VERBATIM_MARKER: &'static str = "__verbatim__";

/// The directory names that stand for a volume.
pub open spec fn volume_parts(prefix: Option<PrefixModel>) -> Seq<Seq<char>> {
    match prefix {
        None => Seq::empty(),
        Some(PrefixModel::Disk { letter }) => seq![seq![letter]],
        Some(PrefixModel::VerbatimDisk { letter }) => seq![seq![letter]],
        Some(PrefixModel::Unc { host, share }) => seq!["__unc__"@, host, share],
        Some(PrefixModel::VerbatimUnc { host, share }) => seq!["__unc__"@, host, share],
        Some(PrefixModel::Device { name }) => seq!["__device__"@, name],
        Some(PrefixModel::Verbatim { name }) => seq!["__verbatim__"@, name],
    }
}

/// The directory and file names under the backup root that mirror a row of
/// components: its volume and its names. A root, a `.` and a `..` leave nothing,
/// so that no mirror leaves the backup root.
pub open spec fn mirror_parts(parts: Seq<ComponentModel>, prefix: Option<PrefixModel>) -> Seq<
    Seq<char>,
>
    decreases parts.len(),
{
    if parts.len() == 0 {
        Seq::empty()
    } else {
        let before = mirror_parts(parts.drop_last(), prefix);
        match parts.last() {
            ComponentModel::Prefix { .. } => before + volume_parts(prefix),
            ComponentModel::Normal { text } => before.push(text),
            _ => before,
        }
    }
}

/// Where the backup of a target lies.
pub open spec fn mirror(backups: Seq<char>, id: Seq<char>, target: Seq<char>) -> Seq<char> {
    joined_all(
        path_joined(backups, id),
        mirror_parts(path_components(target), path_prefix(target)),
    )
}

fn push_volume(out: &mut Vec<String>, prefix: &Option<PathPrefix>)
    ensures
        views(final(out)@) == views(old(out)@) + volume_parts(prefix_view(*prefix)),
{
    let ghost before = views(out@);
    match prefix {
        None => {},
        Some(PathPrefix::Disk { letter }) | Some(PathPrefix::VerbatimDisk { letter }) => {
            let mut text: String = String::new();
            text.push(*letter);
            assert(text@ =~= seq![*letter]);
            out.push(text);
        },
        Some(PathPrefix::Unc { host, share }) | Some(PathPrefix::VerbatimUnc { host, share }) => {
            out.push(UNC_MARKER.to_owned());
            out.push(host.clone());
            out.push(share.clone());
        },
        Some(PathPrefix::Device { name }) => {
            out.push(DEVICE_MARKER.to_owned());
            out.push(name.clone());
        },
        Some(PathPrefix::Verbatim { name }) => {
            out.push(VERBATIM_MARKER.to_owned());
            out.push(name.clone());
        },
    }
    assert(views(out@) =~= before + volume_parts(prefix_view(*prefix)));
}

/// The names under the backup root that mirror a row of components.
pub fn mirror_components(parts: &Vec<PathComponent>, prefix: &Option<PathPrefix>) -> (out: Vec<
    String,
>)
    ensures
        views(out@) == mirror_parts(component_views(parts@), prefix_view(*prefix)),
{
    let ghost all = component_views(parts@);
    let ghost volume = prefix_view(*prefix);
    let mut out: Vec<String> = Vec::new();
    assert(views(out@) =~= Seq::<Seq<char>>::empty());
    let mut i: usize = 0;
    while i < parts.len()
        invariant
            i <= parts@.len(),
            all == component_views(parts@),
            volume == prefix_view(*prefix),
            views(out@) == mirror_parts(all.take(i as int), volume),
        decreases parts@.len() - i,
    {
        let ghost before = views(out@);
        proof {
            assert(all.take(i + 1).drop_last() =~= all.take(i as int));
            assert(all.take(i + 1).last() == parts@[i as int]@);
        }
        match &parts[i] {
            PathComponent::Prefix { .. } => push_volume(&mut out, prefix),
            PathComponent::Normal { text } => {
                out.push(text.clone());
                assert(views(out@) =~= before.push(text@));
            },
            _ => {},
        }
        i = i + 1;
    }
    assert(all.take(i as int) =~= all);
    out
}

/// Where the backup of `target` lies under `<backups_dir>/<timestamp>/`.
pub fn mirror_backup_path(backups_dir: &str, timestamp: &str, target: &str) -> (r: String)
    ensures
        r@ == mirror(backups_dir@, timestamp@, target@),
{
    let root: String = join_path(backups_dir, timestamp);
    let parts: Vec<String> = mirror_components(&components_of(target), &prefix_of(target));
    join_all(root.as_str(), &parts)
}

/// Whether two prefixes name the same volume, written verbatim or not.
pub open spec fn same_volume(a: PrefixModel, b: PrefixModel) -> bool {
    match (a, b) {
        (PrefixModel::Disk { letter: x }, PrefixModel::Disk { letter: y }) => x == y,
        (PrefixModel::Disk { letter: x }, PrefixModel::VerbatimDisk { letter: y }) => x == y,
        (PrefixModel::VerbatimDisk { letter: x }, PrefixModel::Disk { letter: y }) => x == y,
        (PrefixModel::VerbatimDisk { letter: x }, PrefixModel::VerbatimDisk { letter: y }) => x
            == y,
        (PrefixModel::Unc { host: h, share: s }, PrefixModel::Unc { host, share }) => h == host && s
            == share,
        (PrefixModel::Unc { host: h, share: s }, PrefixModel::VerbatimUnc { host, share }) => h
            == host && s == share,
        (PrefixModel::VerbatimUnc { host: h, share: s }, PrefixModel::Unc { host, share }) => h
            == host && s == share,
        (
            PrefixModel::VerbatimUnc { host: h, share: s },
            PrefixModel::VerbatimUnc { host, share },
        ) => h == host && s == share,
        (PrefixModel::Device { name: x }, PrefixModel::Device { name: y }) => x == y,
        (PrefixModel::Verbatim { name: x }, PrefixModel::Verbatim { name: y }) => x == y,
        _ => false,
    }
}

/// The components of a path of names under a root.
pub open spec fn rooted(names: Seq<Seq<char>>, root: Seq<char>) -> Seq<ComponentModel> {
    seq![ComponentModel::RootDir { text: root }] + names.map_values(
        |n: Seq<char>| ComponentModel::Normal { text: n },
    )
}

/// The components of a path of names under the root of a volume.
pub open spec fn on_volume(
    volume: Seq<char>,
    names: Seq<Seq<char>>,
    root: Seq<char>,
) -> Seq<ComponentModel> {
    seq![ComponentModel::Prefix { text: volume }] + rooted(names, root)
}

proof fn mirror_of_names(
    head: Seq<ComponentModel>,
    names: Seq<Seq<char>>,
    prefix: Option<PrefixModel>,
)
    ensures
        mirror_parts(
            head + names.map_values(|n: Seq<char>| ComponentModel::Normal { text: n }),
            prefix,
        ) == mirror_parts(head, prefix) + names,
    decreases names.len(),
{
    let f = |n: Seq<char>| ComponentModel::Normal { text: n };
    let all = head + names.map_values(f);
    if names.len() == 0 {
        assert(all =~= head);
        assert(mirror_parts(head, prefix) + names =~= mirror_parts(head, prefix));
    } else {
        mirror_of_names(head, names.drop_last(), prefix);
        assert(all.drop_last() =~= head + names.drop_last().map_values(f));
        assert(all.last() == ComponentModel::Normal { text: names.last() });
        assert(names =~= names.drop_last().push(names.last()));
        assert(mirror_parts(all, prefix) =~= mirror_parts(head, prefix) + names);
    }
}

/// The backup of an absolute path mirrors exactly its names, in order, so that
/// two such paths never share a backup.
pub proof fn rooted_mirror_keeps_the_names(names: Seq<Seq<char>>, root: Seq<char>)
    ensures
        mirror_parts(rooted(names, root), None) == names,
{
    let head = seq![ComponentModel::RootDir { text: root }];
    mirror_of_names(head, names, None);
    assert(head.drop_last() =~= Seq::empty());
    assert(mirror_parts(head.drop_last(), None::<PrefixModel>) == Seq::<Seq<char>>::empty());
    assert(mirror_parts(head, None) =~= Seq::empty());
    assert(mirror_parts(head, None) + names =~= names);
}

/// Two paths on volumes share a backup only where the volumes and the names are
/// the same: a host named like a drive does not meet that drive, and two shares
/// whose names run together alike stay apart.
pub proof fn volume_mirrors_are_apart(
    a: PrefixModel,
    b: PrefixModel,
    names_a: Seq<Seq<char>>,
    names_b: Seq<Seq<char>>,
    text_a: Seq<char>,
    text_b: Seq<char>,
    root: Seq<char>,
)
    requires
        mirror_parts(on_volume(text_a, names_a, root), Some(a)) == mirror_parts(
            on_volume(text_b, names_b, root),
            Some(b),
        ),
    ensures
        same_volume(a, b),
        names_a == names_b,
{
    mirror_on_volume(a, names_a, text_a, root);
    mirror_on_volume(b, names_b, text_b, root);
    let va = volume_parts(Some(a));
    let vb = volume_parts(Some(b));
    let ma = va + names_a;
    let mb = vb + names_b;
    reveal_strlit("__unc__");
    reveal_strlit("__device__");
    reveal_strlit("__verbatim__");
    assert(ma[0] == va[0]);
    assert(mb[0] == vb[0]);
    assert(va[0].len() == vb[0].len());
    assert(va.len() == vb.len());
    assert(ma.take(va.len() as int) =~= va);
    assert(mb.take(vb.len() as int) =~= vb);
    assert(ma.skip(va.len() as int) =~= names_a);
    assert(mb.skip(vb.len() as int) =~= names_b);
    if a is Disk || a is VerbatimDisk {
        assert(va[0][0] == vb[0][0]);
    } else if a is Unc || a is VerbatimUnc {
        assert(va[1] == vb[1] && va[2] == vb[2]);
    } else {
        assert(va[1] == vb[1]);
    }
}

proof fn mirror_on_volume(
    a: PrefixModel,
    names: Seq<Seq<char>>,
    text: Seq<char>,
    root: Seq<char>,
)
    ensures
        mirror_parts(on_volume(text, names, root), Some(a)) == volume_parts(Some(a)) + names,
{
    let f = |n: Seq<char>| ComponentModel::Normal { text: n };
    let first = seq![ComponentModel::Prefix { text }];
    let head = seq![ComponentModel::Prefix { text }, ComponentModel::RootDir { text: root }];
    assert(on_volume(text, names, root) =~= head + names.map_values(f));
    mirror_of_names(head, names, Some(a));
    assert(head.drop_last() =~= first);
    assert(first.drop_last() =~= Seq::empty());
    assert(mirror_parts(first.drop_last(), Some(a)) == Seq::<Seq<char>>::empty());
    assert(mirror_parts(first, Some(a)) =~= volume_parts(Some(a)));
    assert(mirror_parts(head, Some(a)) =~= volume_parts(Some(a)));
}

} // verus!
