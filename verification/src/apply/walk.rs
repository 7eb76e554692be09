//! The files of a source tree.
//!
//! A tree that is linked or copied file by file is walked first. The paths come
//! relative to its root and in one order, so that the same tree gives the same
//! row of records on every run and platform.

use crate::ignore_rules::front_left_out;
use crate::ignore_rules::ignores;
use crate::ignore_rules::leaves_out;
use crate::ignore_rules::part_texts;
use crate::ignore_rules::pruned;
use crate::ignore_rules::rules_lines;
use crate::ignore_rules::rules_root;
use crate::path_order::in_path_order;
use crate::path_order::sort_paths;
use crate::text::views;
use crate::utf8_path::join_path;
use crate::utf8_path::joined_all;
use crate::utf8_path::path_components;
use ignore::gitignore::Gitignore;
use super::executors::ExecutorError;
use super::executors::ExecutorFault;
use vstd::prelude::*;

verus! {

/// What a directory of a source tree holds, or what went wrong where it was
/// listed.
#[derive(Debug, PartialEq, Eq)]
pub enum SourceEntry {
    /// A directory.
    Directory {
        /// Its name.
        name: String,
        /// What it holds, in the order of the listing.
        children: Vec<SourceEntry>,
    },
    /// Anything else: a file or a link.
    Leaf {
        /// Its name.
        name: String,
    },
    /// An entry that could not be told.
    Fault {
        /// The path that it is about.
        path: String,
        /// What went wrong.
        message: String,
    },
}

/// The path of a row of names under the root of a walk.
pub open spec fn names_path(names: Seq<Seq<char>>) -> Seq<char> {
    joined_all(""@, names)
}

/// What a walk finds below the directory `dir`, which is a row of names: the
/// paths of its leaves, without those that the patterns leave out. A directory
/// that is left out is not entered. The first fault that is met ends the walk.
pub open spec fn walked(
    entries: Seq<SourceEntry>,
    dir: Seq<Seq<char>>,
    root: Seq<char>,
    lines: Seq<(Seq<char>, bool)>,
) -> Result<Seq<Seq<char>>, ExecutorFault>
    decreases entries,
{
    if entries.len() == 0 {
        Ok(Seq::empty())
    } else {
        let rest = entries.subrange(1, entries.len() as int);
        match entries[0] {
            SourceEntry::Fault { path, message } => Err(
                ExecutorFault::Io { path: path@, message: message@ },
            ),
            SourceEntry::Leaf { name } => match walked(rest, dir, root, lines) {
                Err(fault) => Err(fault),
                Ok(paths) => if ignores(root, lines, names_path(dir.push(name@)), false) {
                    Ok(paths)
                } else {
                    Ok(seq![names_path(dir.push(name@))] + paths)
                },
            },
            SourceEntry::Directory { name, children } => if ignores(
                root,
                lines,
                names_path(dir.push(name@)),
                true,
            ) {
                walked(rest, dir, root, lines)
            } else {
                match walked(children@, dir.push(name@), root, lines) {
                    Err(fault) => Err(fault),
                    Ok(inner) => match walked(rest, dir, root, lines) {
                        Err(fault) => Err(fault),
                        Ok(paths) => Ok(inner + paths),
                    },
                }
            },
        }
    }
}

/// Adds what a walk finds below a directory to `out`.
fn walk_into(
    entries: &Vec<SourceEntry>,
    dir: &str,
    rules: &Gitignore,
    out: &mut Vec<String>,
    Ghost(names): Ghost<Seq<Seq<char>>>,
) -> (r: Result<(), ExecutorError>)
    requires
        dir@ == names_path(names),
    ensures
        match walked(entries@, names, rules_root(*rules), rules_lines(*rules)) {
            Ok(paths) => r is Ok && views(final(out)@) == views(old(out)@) + paths,
            Err(fault) => r matches Err(e) && e@ == fault,
        },
    decreases entries,
{
    let ghost root = rules_root(*rules);
    let ghost lines = rules_lines(*rules);
    let ghost all = entries@;
    let ghost before = views(out@);
    let ghost whole = walked(all, names, root, lines);
    let mut i: usize = 0;
    assert(all.subrange(0, all.len() as int) =~= all);
    while i < entries.len()
        invariant
            i <= entries@.len(),
            all == entries@,
            root == rules_root(*rules),
            lines == rules_lines(*rules),
            dir@ == names_path(names),
            whole == walked(all, names, root, lines),
            match walked(all.subrange(i as int, all.len() as int), names, root, lines) {
                Ok(rest) => whole is Ok && before + whole->Ok_0 == views(out@) + rest,
                Err(fault) => whole == Err::<Seq<Seq<char>>, ExecutorFault>(fault),
            },
        decreases entries@.len() - i,
    {
        let ghost rest = all.subrange(i as int, all.len() as int);
        let ghost tail = all.subrange(i + 1, all.len() as int);
        let ghost so_far = views(out@);
        proof {
            assert(rest[0] == entries@[i as int]);
            assert(rest.subrange(1, rest.len() as int) =~= tail);
        }
        match &entries[i] {
            SourceEntry::Fault { path, message } => {
                return Err(ExecutorError::Io { path: path.clone(), message: message.clone() });
            },
            SourceEntry::Leaf { name } => {
                let rel: String = join_path(dir, name.as_str());
                proof {
                    assert(names.push(name@).drop_last() =~= names);
                    assert(rel@ == names_path(names.push(name@)));
                }
                if !leaves_out(rules, rel.as_str(), false) {
                    let ghost path = rel@;
                    out.push(rel);
                    proof {
                        assert(views(out@) =~= so_far.push(path));
                        if let Ok(found) = walked(tail, names, root, lines) {
                            assert(so_far + (seq![path] + found) =~= so_far.push(path) + found);
                        }
                    }
                }
            },
            SourceEntry::Directory { name, children } => {
                let rel: String = join_path(dir, name.as_str());
                proof {
                    assert(names.push(name@).drop_last() =~= names);
                    assert(rel@ == names_path(names.push(name@)));
                }
                if !leaves_out(rules, rel.as_str(), true) {
                    let ghost below = names.push(name@);
                    match walk_into(children, rel.as_str(), rules, out, Ghost(below)) {
                        Ok(_) => {},
                        Err(e) => return Err(e),
                    }
                    proof {
                        let inner = walked(children@, below, root, lines)->Ok_0;
                        if let Ok(found) = walked(tail, names, root, lines) {
                            assert(so_far + (inner + found) =~= so_far + inner + found);
                        }
                    }
                }
            },
        }
        i = i + 1;
    }
    proof {
        let rest = all.subrange(i as int, all.len() as int);
        assert(rest.len() == 0);
        assert(views(out@) + Seq::<Seq<char>>::empty() =~= views(out@));
    }
    Ok(())
}

/// The files of a source tree as paths relative to its root, in order, without
/// those that `rules` leave out.
pub fn walk_files(entries: &Vec<SourceEntry>, rules: &Gitignore) -> (r: Result<
    Vec<String>,
    ExecutorError,
>)
    ensures
        match walked(entries@, Seq::empty(), rules_root(*rules), rules_lines(*rules)) {
            Ok(paths) => r matches Ok(files) && in_path_order(views(files@)) && views(
                files@,
            ).to_multiset() == paths.to_multiset(),
            Err(fault) => r matches Err(e) && e@ == fault,
        },
{
    let mut files: Vec<String> = Vec::new();
    let ghost names = Seq::<Seq<char>>::empty();
    assert(views(files@) =~= Seq::<Seq<char>>::empty());
    match walk_into(entries, "", rules, &mut files, Ghost(names)) {
        Ok(_) => {
            proof {
                let paths = walked(entries@, names, rules_root(*rules), rules_lines(*rules))->Ok_0;
                assert(Seq::<Seq<char>>::empty() + paths =~= paths);
            }
            sort_paths(&mut files);
            Ok(files)
        },
        Err(e) => Err(e),
    }
}

/// Whether everything in a tree could be told.
pub open spec fn readable(entries: Seq<SourceEntry>) -> bool
    decreases entries,
{
    entries.len() == 0 || (match entries[0] {
        SourceEntry::Fault { .. } => false,
        SourceEntry::Leaf { .. } => true,
        SourceEntry::Directory { children, .. } => readable(children@),
    } && readable(entries.subrange(1, entries.len() as int)))
}

/// Every leaf of a tree below the directory `dir`, as a row of names.
pub open spec fn leaf_names(entries: Seq<SourceEntry>, dir: Seq<Seq<char>>) -> Seq<Seq<Seq<char>>>
    decreases entries,
{
    if entries.len() == 0 {
        Seq::empty()
    } else {
        let rest = leaf_names(entries.subrange(1, entries.len() as int), dir);
        match entries[0] {
            SourceEntry::Fault { .. } => rest,
            SourceEntry::Leaf { name } => seq![dir.push(name@)] + rest,
            SourceEntry::Directory { name, children } => leaf_names(children@, dir.push(name@))
                + rest,
        }
    }
}

/// Whether the first `n` names of a row are left out. All but the last of the row
/// are directories.
pub open spec fn names_left_out(
    root: Seq<char>,
    lines: Seq<(Seq<char>, bool)>,
    names: Seq<Seq<char>>,
    n: int,
) -> bool {
    ignores(root, lines, names_path(names.take(n)), n < names.len())
}

/// Whether a leaf is left out, or a directory on the way to it that is more than
/// `from` names deep.
pub open spec fn dropped(
    root: Seq<char>,
    lines: Seq<(Seq<char>, bool)>,
    names: Seq<Seq<char>>,
    from: int,
) -> bool {
    exists|n: int| from < n <= names.len() && #[trigger] names_left_out(root, lines, names, n)
}

/// The paths of those rows of names that are not dropped.
pub open spec fn kept(
    root: Seq<char>,
    lines: Seq<(Seq<char>, bool)>,
    rows: Seq<Seq<Seq<char>>>,
    from: int,
) -> Seq<Seq<char>>
    decreases rows.len(),
{
    if rows.len() == 0 {
        Seq::empty()
    } else if dropped(root, lines, rows.last(), from) {
        kept(root, lines, rows.drop_last(), from)
    } else {
        kept(root, lines, rows.drop_last(), from).push(names_path(rows.last()))
    }
}

proof fn kept_parts(
    root: Seq<char>,
    lines: Seq<(Seq<char>, bool)>,
    a: Seq<Seq<Seq<char>>>,
    b: Seq<Seq<Seq<char>>>,
    from: int,
)
    ensures
        kept(root, lines, a + b, from) == kept(root, lines, a, from) + kept(root, lines, b, from),
    decreases b.len(),
{
    if b.len() == 0 {
        assert(a + b =~= a);
        assert(kept(root, lines, a, from) + kept(root, lines, b, from) =~= kept(
            root,
            lines,
            a,
            from,
        ));
    } else {
        kept_parts(root, lines, a, b.drop_last(), from);
        assert((a + b).drop_last() =~= a + b.drop_last());
        assert((a + b).last() == b.last());
        assert(kept(root, lines, a + b, from) =~= kept(root, lines, a, from) + kept(
            root,
            lines,
            b,
            from,
        ));
    }
}

proof fn leaves_lie_below(entries: Seq<SourceEntry>, dir: Seq<Seq<char>>)
    ensures
        forall|i: int|
            0 <= i < leaf_names(entries, dir).len() ==> (#[trigger] leaf_names(entries, dir)[i]).len()
                > dir.len() && leaf_names(entries, dir)[i].take(dir.len() as int) == dir,
    decreases entries,
{
    if entries.len() > 0 {
        let rest = entries.subrange(1, entries.len() as int);
        let later = leaf_names(rest, dir);
        leaves_lie_below(rest, dir);
        match entries[0] {
            SourceEntry::Fault { .. } => {},
            SourceEntry::Leaf { name } => {
                let row = dir.push(name@);
                assert(row.take(dir.len() as int) =~= dir);
                assert forall|i: int| 0 <= i < leaf_names(entries, dir).len() implies (
                #[trigger] leaf_names(entries, dir)[i]).len() > dir.len() && leaf_names(
                    entries,
                    dir,
                )[i].take(dir.len() as int) == dir by {
                    if i > 0 {
                        assert(leaf_names(entries, dir)[i] == later[i - 1]);
                    }
                }
            },
            SourceEntry::Directory { name, children } => {
                let deep = dir.push(name@);
                let inner = leaf_names(children@, deep);
                leaves_lie_below(children@, deep);
                assert forall|i: int| 0 <= i < leaf_names(entries, dir).len() implies (
                #[trigger] leaf_names(entries, dir)[i]).len() > dir.len() && leaf_names(
                    entries,
                    dir,
                )[i].take(dir.len() as int) == dir by {
                    if i < inner.len() {
                        let row = inner[i];
                        assert(leaf_names(entries, dir)[i] == row);
                        assert(row.take(dir.len() as int) =~= row.take(deep.len() as int).take(
                            dir.len() as int,
                        ));
                        assert(deep.take(dir.len() as int) =~= dir);
                    } else {
                        assert(leaf_names(entries, dir)[i] == later[i - inner.len()]);
                    }
                }
            },
        }
    }
}

proof fn closed_directory_keeps_nothing(
    root: Seq<char>,
    lines: Seq<(Seq<char>, bool)>,
    rows: Seq<Seq<Seq<char>>>,
    deep: Seq<Seq<char>>,
)
    requires
        deep.len() > 0,
        ignores(root, lines, names_path(deep), true),
        forall|i: int|
            0 <= i < rows.len() ==> (#[trigger] rows[i]).len() > deep.len() && rows[i].take(
                deep.len() as int,
            ) == deep,
    ensures
        kept(root, lines, rows, deep.len() - 1) == Seq::<Seq<char>>::empty(),
    decreases rows.len(),
{
    if rows.len() > 0 {
        assert(rows.last() == rows[rows.len() - 1]);
        assert(names_left_out(root, lines, rows.last(), deep.len() as int));
        assert forall|i: int| 0 <= i < rows.drop_last().len() implies (
        #[trigger] rows.drop_last()[i]).len() > deep.len() && rows.drop_last()[i].take(
            deep.len() as int,
        ) == deep by {
            assert(rows.drop_last()[i] == rows[i]);
        }
        closed_directory_keeps_nothing(root, lines, rows.drop_last(), deep);
    }
}

proof fn open_directory_changes_nothing(
    root: Seq<char>,
    lines: Seq<(Seq<char>, bool)>,
    rows: Seq<Seq<Seq<char>>>,
    deep: Seq<Seq<char>>,
)
    requires
        deep.len() > 0,
        !ignores(root, lines, names_path(deep), true),
        forall|i: int|
            0 <= i < rows.len() ==> (#[trigger] rows[i]).len() > deep.len() && rows[i].take(
                deep.len() as int,
            ) == deep,
    ensures
        kept(root, lines, rows, deep.len() - 1) == kept(root, lines, rows, deep.len() as int),
    decreases rows.len(),
{
    if rows.len() > 0 {
        let row = rows.last();
        assert(row == rows[rows.len() - 1]);
        assert(!names_left_out(root, lines, row, deep.len() as int));
        if dropped(root, lines, row, deep.len() - 1) {
            let n = choose|n: int|
                deep.len() - 1 < n <= row.len() && #[trigger] names_left_out(root, lines, row, n);
            assert(n > deep.len());
        }
        assert forall|i: int| 0 <= i < rows.drop_last().len() implies (
        #[trigger] rows.drop_last()[i]).len() > deep.len() && rows.drop_last()[i].take(
            deep.len() as int,
        ) == deep by {
            assert(rows.drop_last()[i] == rows[i]);
        }
        open_directory_changes_nothing(root, lines, rows.drop_last(), deep);
    }
}

pub(crate) proof fn walk_keeps(
    entries: Seq<SourceEntry>,
    dir: Seq<Seq<char>>,
    root: Seq<char>,
    lines: Seq<(Seq<char>, bool)>,
)
    requires
        readable(entries),
    ensures
        walked(entries, dir, root, lines) == Ok::<Seq<Seq<char>>, ExecutorFault>(
            kept(root, lines, leaf_names(entries, dir), dir.len() as int),
        ),
    decreases entries,
{
    if entries.len() > 0 {
        let rest = entries.subrange(1, entries.len() as int);
        let later = leaf_names(rest, dir);
        let from = dir.len() as int;
        walk_keeps(rest, dir, root, lines);
        match entries[0] {
            SourceEntry::Fault { .. } => {},
            SourceEntry::Leaf { name } => {
                let row = dir.push(name@);
                kept_parts(root, lines, seq![row], later, from);
                assert(row.take(row.len() as int) =~= row);
                assert(names_left_out(root, lines, row, row.len() as int) == ignores(
                    root,
                    lines,
                    names_path(row),
                    false,
                ));
                assert(seq![row].drop_last() =~= Seq::<Seq<Seq<char>>>::empty());
                assert(seq![row].last() == row);
                assert(kept(root, lines, seq![row].drop_last(), from) =~= Seq::<
                    Seq<char>,
                >::empty());
                if ignores(root, lines, names_path(row), false) {
                    assert(dropped(root, lines, row, from));
                    assert(kept(root, lines, seq![row], from) =~= Seq::<Seq<char>>::empty());
                    assert(Seq::<Seq<char>>::empty() + kept(root, lines, later, from) =~= kept(
                        root,
                        lines,
                        later,
                        from,
                    ));
                } else {
                    assert(!dropped(root, lines, row, from));
                    assert(kept(root, lines, seq![row], from) =~= seq![names_path(row)]);
                }
            },
            SourceEntry::Directory { name, children } => {
                let deep = dir.push(name@);
                let inner = leaf_names(children@, deep);
                kept_parts(root, lines, inner, later, from);
                leaves_lie_below(children@, deep);
                if ignores(root, lines, names_path(deep), true) {
                    closed_directory_keeps_nothing(root, lines, inner, deep);
                    assert(Seq::<Seq<char>>::empty() + kept(root, lines, later, from) =~= kept(
                        root,
                        lines,
                        later,
                        from,
                    ));
                } else {
                    walk_keeps(children@, deep, root, lines);
                    open_directory_changes_nothing(root, lines, inner, deep);
                }
            },
        }
    }
}

/// A walk drops exactly what `prunes` says that it drops: of the leaves of a tree
/// that can be read, in the order of the listing, those are left for which
/// `prunes` is false. A name of a tree is one component of its path.
pub proof fn walk_drops_what_is_pruned(
    entries: Seq<SourceEntry>,
    root: Seq<char>,
    lines: Seq<(Seq<char>, bool)>,
)
    requires
        readable(entries),
        forall|i: int|
            0 <= i < leaf_names(entries, Seq::empty()).len() ==> part_texts(
                path_components(names_path(#[trigger] leaf_names(entries, Seq::empty())[i])),
            ) == leaf_names(entries, Seq::empty())[i],
    ensures
        walked(entries, Seq::empty(), root, lines) == Ok::<Seq<Seq<char>>, ExecutorFault>(
            kept(root, lines, leaf_names(entries, Seq::empty()), 0),
        ),
        forall|i: int|
            0 <= i < leaf_names(entries, Seq::empty()).len() ==> dropped(
                root,
                lines,
                #[trigger] leaf_names(entries, Seq::empty())[i],
                0,
            ) == pruned(
                root,
                lines,
                path_components(names_path(leaf_names(entries, Seq::empty())[i])),
            ),
{
    let rows = leaf_names(entries, Seq::empty());
    walk_keeps(entries, Seq::empty(), root, lines);
    assert forall|i: int| 0 <= i < rows.len() implies dropped(root, lines, #[trigger] rows[i], 0)
        == pruned(root, lines, path_components(names_path(rows[i]))) by {
        let row = rows[i];
        let parts = path_components(names_path(row));
        assert(parts.len() == part_texts(parts).len());
        assert forall|n: int| 1 <= n <= row.len() implies #[trigger] names_left_out(
            root,
            lines,
            row,
            n,
        ) == front_left_out(root, lines, parts, n) by {}
        if dropped(root, lines, row, 0) {
            let n = choose|n: int|
                0 < n <= row.len() && #[trigger] names_left_out(root, lines, row, n);
            assert(front_left_out(root, lines, parts, n));
        }
        if pruned(root, lines, parts) {
            let n = choose|n: int|
                1 <= n <= parts.len() && #[trigger] front_left_out(root, lines, parts, n);
            assert(names_left_out(root, lines, row, n));
        }
    }
}

} // verus!
