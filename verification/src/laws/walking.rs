//! What a walk of a source tree finds.

use crate::apply::executors::ExecutorError;
use crate::apply::registry::LeafFact;
use crate::apply::registry::RemoteError;
use crate::apply::registry::reject_symlink_leaves;
use crate::apply::walk::SourceEntry;
use crate::apply::walk::dropped;
use crate::apply::walk::kept;
use crate::apply::walk::leaf_names;
use crate::apply::walk::names_left_out;
use crate::apply::walk::names_path;
use crate::apply::walk::readable;
use crate::apply::walk::walk_files;
use crate::apply::walk::walk_keeps;
use crate::ignore_rules::IgnoreRulesError;
use crate::ignore_rules::build;
use crate::ignore_rules::first_refused;
use crate::ignore_rules::folding;
use crate::ignore_rules::folding_in_order;
use crate::ignore_rules::front_left_out;
use crate::ignore_rules::front_path;
use crate::ignore_rules::ignores;
use crate::ignore_rules::pattern_refusal;
use crate::ignore_rules::prunes;
use crate::ignore_rules::rules_lines;
use crate::ignore_rules::rules_root;
use crate::ignore_rules::stored_pattern;
use crate::laws::planning::links_are_found;
use crate::text::is_white_space;
use crate::text::trimmed_end;
use crate::text::views;
use crate::utf8_path::path_components;
use ignore::gitignore::Gitignore;
use vstd::prelude::*;

verus! {

proof fn what_is_kept(
    root: Seq<char>,
    lines: Seq<(Seq<char>, bool)>,
    rows: Seq<Seq<Seq<char>>>,
    path: Seq<char>,
)
    ensures
        kept(root, lines, rows, 0).contains(path) <==> exists|i: int|
            0 <= i < rows.len() && names_path(#[trigger] rows[i]) == path && !dropped(
                root,
                lines,
                rows[i],
                0,
            ),
    decreases rows.len(),
{
    if rows.len() > 0 {
        let front = rows.drop_last();
        let before = kept(root, lines, front, 0);
        let all = kept(root, lines, rows, 0);
        what_is_kept(root, lines, front, path);
        assert(rows[rows.len() - 1] == rows.last());
        assert(forall|i: int| 0 <= i < front.len() ==> #[trigger] front[i] == rows[i]);
        if before.contains(path) {
            let k = choose|k: int| 0 <= k < before.len() && before[k] == path;
            assert(all[k] == path);
            let i = choose|i: int|
                0 <= i < front.len() && names_path(#[trigger] front[i]) == path && !dropped(
                    root,
                    lines,
                    front[i],
                    0,
                );
            assert(names_path(rows[i]) == path);
        } else {
            if all.contains(path) {
                let k = choose|k: int| 0 <= k < all.len() && all[k] == path;
                if k < before.len() {
                    assert(before[k] == path);
                }
            }
            if names_path(rows.last()) == path && !dropped(root, lines, rows.last(), 0) {
                assert(all[before.len() as int] == path);
            }
            if exists|i: int|
                0 <= i < rows.len() && names_path(#[trigger] rows[i]) == path && !dropped(
                    root,
                    lines,
                    rows[i],
                    0,
                ) {
                let i = choose|i: int|
                    0 <= i < rows.len() && names_path(#[trigger] rows[i]) == path && !dropped(
                        root,
                        lines,
                        rows[i],
                        0,
                    );
                if i < front.len() {
                    assert(names_path(front[i]) == path);
                }
            }
        }
    }
}

/// Whether neither a file, which is a row of names, nor a directory on the way to it is left
/// out.
pub open spec fn is_found(rules: Gitignore, row: Seq<Seq<char>>) -> bool {
    forall|n: int|
        1 <= n <= row.len() ==> !ignores(
            rules_root(rules),
            rules_lines(rules),
            #[trigger] names_path(row.take(n)),
            n < row.len(),
        )
}

/// A walk of a tree that can be read finds the path of every file for which neither the
/// file nor a directory on the way to it is left out, and no other.
pub proof fn walks_find_what_is_not_left_out(
    entries: Vec<SourceEntry>,
    rules: Gitignore,
    r: Result<Vec<String>, ExecutorError>,
    path: Seq<char>,
)
    requires
        call_ensures(walk_files, (&entries, &rules), r),
        readable(entries@),
    ensures
        r is Ok,
        views(r->Ok_0@).contains(path) <==> exists|i: int|
            0 <= i < leaf_names(entries@, Seq::empty()).len() && names_path(
                #[trigger] leaf_names(entries@, Seq::empty())[i],
            ) == path && is_found(rules, leaf_names(entries@, Seq::empty())[i]),
{
    broadcast use vstd::seq_lib::to_multiset_contains;

    let root = rules_root(rules);
    let lines = rules_lines(rules);
    let rows = leaf_names(entries@, Seq::empty());
    walk_keeps(entries@, Seq::empty(), root, lines);
    let all = kept(root, lines, rows, 0);
    what_is_kept(root, lines, rows, path);
    let files = views(r->Ok_0@);
    assert(files.contains(path) <==> files.to_multiset().count(path) > 0);
    assert(all.contains(path) <==> all.to_multiset().count(path) > 0);
    assert forall|i: int| 0 <= i < rows.len() implies dropped(root, lines, #[trigger] rows[i], 0)
        == !is_found(rules, rows[i]) by {
        let row = rows[i];
        if dropped(root, lines, row, 0) {
            let n = choose|n: int|
                0 < n <= row.len() && #[trigger] names_left_out(root, lines, row, n);
            assert(ignores(root, lines, names_path(row.take(n)), n < row.len()));
        } else {
            assert forall|n: int| 1 <= n <= row.len() implies !ignores(
                root,
                lines,
                #[trigger] names_path(row.take(n)),
                n < row.len(),
            ) by {
                assert(!names_left_out(root, lines, row, n));
            }
        }
    }
}

/// A path is dropped exactly where it or a directory on the way to it is left out.
pub proof fn paths_are_dropped_with_their_directories(rules: Gitignore, rel: &str, r: bool)
    requires
        call_ensures(prunes, (&rules, rel), r),
    ensures
        r <==> exists|n: int|
            1 <= n <= path_components(rel@).len() && ignores(
                rules_root(rules),
                rules_lines(rules),
                #[trigger] front_path(path_components(rel@), n),
                n < path_components(rel@).len(),
            ),
{
    let root = rules_root(rules);
    let lines = rules_lines(rules);
    let parts = path_components(rel@);
    if r {
        let n = choose|n: int|
            1 <= n <= parts.len() && #[trigger] front_left_out(root, lines, parts, n);
        assert(ignores(root, lines, front_path(parts, n), n < parts.len()));
    }
    if exists|n: int|
        1 <= n <= parts.len() && ignores(
            root,
            lines,
            #[trigger] front_path(parts, n),
            n < parts.len(),
        ) {
        let n = choose|n: int|
            1 <= n <= parts.len() && ignores(
                root,
                lines,
                #[trigger] front_path(parts, n),
                n < parts.len(),
            );
        assert(front_left_out(root, lines, parts, n));
    }
}

proof fn every_line_is_looked_at(lines: Seq<Seq<char>>)
    ensures
        first_refused(lines) is None <==> forall|i: int|
            0 <= i < lines.len() ==> pattern_refusal(#[trigger] lines[i], true) is None,
    decreases lines.len(),
{
    if lines.len() > 0 {
        let rest = lines.drop_first();
        every_line_is_looked_at(rest);
        assert(forall|i: int| 0 <= i < rest.len() ==> #[trigger] rest[i] == lines[i + 1]);
        if first_refused(lines) is None {
            assert forall|i: int| 0 <= i < lines.len() implies pattern_refusal(
                #[trigger] lines[i],
                true,
            ) is None by {
                if i > 0 {
                    assert(pattern_refusal(rest[i - 1], true) is None);
                }
            }
        }
        if forall|i: int|
            0 <= i < lines.len() ==> pattern_refusal(#[trigger] lines[i], true) is None {
            assert(pattern_refusal(lines[0], true) is None);
        }
    }
}

proof fn lines_that_all_stand(lines: Seq<Seq<char>>)
    requires
        forall|i: int|
            0 <= i < lines.len() ==> stored_pattern(#[trigger] lines[i]) == Some(lines[i]),
    ensures
        folding(lines) == lines.map_values(|l: Seq<char>| (l, true)),
    decreases lines.len(),
{
    if lines.len() > 0 {
        let front = lines.drop_last();
        assert(forall|i: int| 0 <= i < front.len() ==> #[trigger] front[i] == lines[i]);
        lines_that_all_stand(front);
        assert(lines[lines.len() - 1] == lines.last());
        assert(folding(lines) =~= lines.map_values(|l: Seq<char>| (l, true)));
    } else {
        assert(folding(lines) =~= lines.map_values(|l: Seq<char>| (l, true)));
    }
}

/// Patterns are refused where one of them is malformed or the set cannot be compiled. Those
/// of the repository come first and those of the entry behind them, so that the entry has
/// the last word, and all of them ignore case. A line that starts with `#` says nothing, and
/// one that neither starts so nor ends in a blank is a pattern as it stands.
pub proof fn patterns_come_in_order(
    repo_wide: Vec<String>,
    entry: Vec<String>,
    root: &str,
    r: Result<Gitignore, IgnoreRulesError>,
)
    requires
        call_ensures(build, (&repo_wide, &entry, root), r),
        forall|i: int|
            0 <= i < repo_wide@.len() ==> {
                let line = (#[trigger] repo_wide@[i])@;
                line.len() > 0 && line[0] != '#' && !is_white_space(line.last())
            },
        forall|i: int|
            0 <= i < entry@.len() ==> {
                let line = (#[trigger] entry@[i])@;
                line.len() > 0 && line[0] != '#' && !is_white_space(line.last())
            },
    ensures
        r matches Err(IgnoreRulesError::Pattern { .. }) <==> !((forall|i: int|
            0 <= i < repo_wide@.len() ==> pattern_refusal((#[trigger] repo_wide@[i])@, true) is None)
            && (forall|i: int|
            0 <= i < entry@.len() ==> pattern_refusal((#[trigger] entry@[i])@, true) is None)),
        r matches Ok(rules) ==> {
            let lines = rules_lines(rules);
            &&& lines.len() == repo_wide@.len() + entry@.len()
            &&& forall|i: int|
                0 <= i < repo_wide@.len() ==> #[trigger] lines[i] == (repo_wide@[i]@, true)
            &&& forall|i: int|
                0 <= i < entry@.len() ==> #[trigger] lines[repo_wide@.len() + i] == (
                    entry@[i]@,
                    true,
                )
        },
{
    let a = views(repo_wide@);
    let b = views(entry@);
    let all = a + b;
    every_line_is_looked_at(all);
    assert(a.len() == repo_wide@.len() && b.len() == entry@.len());
    assert(forall|i: int| 0 <= i < a.len() ==> #[trigger] a[i] == repo_wide@[i]@);
    assert(forall|i: int| 0 <= i < b.len() ==> #[trigger] b[i] == entry@[i]@);
    assert forall|i: int| 0 <= i < all.len() implies stored_pattern(#[trigger] all[i]) == Some(
        all[i],
    ) by {
        let line = if i < a.len() {
            repo_wide@[i]@
        } else {
            entry@[i - a.len()]@
        };
        assert(all[i] == line);
        reveal_with_fuel(trimmed_end, 1);
        assert(trimmed_end(line) == line);
    }
    lines_that_all_stand(all);
    if first_refused(all) is None {
        assert forall|i: int| 0 <= i < repo_wide@.len() implies pattern_refusal(
            (#[trigger] repo_wide@[i])@,
            true,
        ) is None by {
            assert(all[i] == repo_wide@[i]@);
        }
        assert forall|i: int| 0 <= i < entry@.len() implies pattern_refusal(
            (#[trigger] entry@[i])@,
            true,
        ) is None by {
            assert(all[a.len() + i] == entry@[i]@);
        }
    }
    if (forall|i: int|
        0 <= i < repo_wide@.len() ==> pattern_refusal((#[trigger] repo_wide@[i])@, true) is None)
        && (forall|i: int|
        0 <= i < entry@.len() ==> pattern_refusal((#[trigger] entry@[i])@, true) is None) {
        assert forall|i: int| 0 <= i < all.len() implies pattern_refusal(
            #[trigger] all[i],
            true,
        ) is None by {
            if i < a.len() {
                assert(all[i] == repo_wide@[i]@);
            } else {
                assert(all[i] == entry@[i - a.len()]@);
            }
        }
    }
    if let Ok(rules) = r {
        let lines = rules_lines(rules);
        assert forall|i: int| 0 <= i < repo_wide@.len() implies #[trigger] lines[i] == (
            repo_wide@[i]@,
            true,
        ) by {
            assert(all[i] == a[i]);
        }
        assert forall|i: int| 0 <= i < entry@.len() implies #[trigger] lines[repo_wide@.len() + i]
            == (entry@[i]@, true) by {
            assert(all[a.len() + i] == b[i]);
        }
    }
}

/// A line that starts with `#`, or is empty, is as good as not written.
pub proof fn comments_say_nothing(
    repo_wide: Vec<String>,
    with: Vec<String>,
    without: Vec<String>,
    root: &str,
    r: Result<Gitignore, IgnoreRulesError>,
    s: Result<Gitignore, IgnoreRulesError>,
    front: Seq<Seq<char>>,
    comment: Seq<char>,
    rest: Seq<Seq<char>>,
)
    requires
        call_ensures(build, (&repo_wide, &with, root), r),
        call_ensures(build, (&repo_wide, &without, root), s),
        views(with@) == front.push(comment) + rest,
        views(without@) == front + rest,
        comment.len() == 0 || comment[0] == '#',
    ensures
        r is Ok && s is Ok ==> rules_lines(r->Ok_0) == rules_lines(s->Ok_0),
{
    let base = views(repo_wide@);
    folding_in_order(base, views(with@));
    folding_in_order(base, views(without@));
    folding_in_order(front.push(comment), rest);
    folding_in_order(front, rest);
    assert(front.push(comment).drop_last() =~= front);
    if comment.len() == 0 {
        reveal_strlit("\\ ");
        assert(trimmed_end(comment).len() == 0);
    }
}

/// A checkout is accepted exactly where no file of it is a symbolic link.
pub proof fn checkouts_hold_no_links(
    remote: &str,
    leaves: Vec<LeafFact>,
    r: Result<(), RemoteError>,
)
    requires
        call_ensures(reject_symlink_leaves, (remote, &leaves), r),
    ensures
        r is Ok <==> forall|i: int| 0 <= i < leaves@.len() ==> !(#[trigger] leaves@[i]).is_link,
{
    links_are_found(leaves@);
}

} // verus!
