//! The patterns that a walk of a source tree leaves out.
//!
//! Tools drop files beside the ones that they read, and each would become a leaf
//! to deploy. The patterns have the syntax of `.gitignore`. Those of the root
//! manifest come first and those of the entry after them, and of two patterns
//! that match a path the later decides. Matching ignores case on every platform,
//! no ignore file in a tree is read, and a pattern is anchored at the source of
//! its entry.

use crate::text::around;
use crate::text::joined;
use crate::text::put_around;
use crate::text::trimmed_end;
use crate::text::views;
use crate::text::without_suffix;
use crate::utf8_path::ComponentModel;
use crate::utf8_path::PathComponent;
use crate::utf8_path::component_text;
use crate::utf8_path::component_views;
use crate::utf8_path::components_of;
use crate::utf8_path::join_path;
use crate::utf8_path::joined_all;
use crate::utf8_path::path_components;
use ignore::gitignore::Gitignore;
use ignore::gitignore::GitignoreBuilder;
use vstd::prelude::*;

verus! {

/// A compiled set of patterns.
#[verifier::external_type_specification]
#[verifier::external_body]
pub struct ExGitignore(ignore::gitignore::Gitignore);

/// A set of patterns that is being put together.
#[verifier::external_type_specification]
#[verifier::external_body]
pub struct ExGitignoreBuilder(ignore::gitignore::GitignoreBuilder);

/// Why a pattern or a set of them is refused.
#[verifier::external_type_specification]
#[verifier::external_body]
pub struct ExIgnoreError(ignore::Error);

/// The directory that the patterns of a set are anchored at.
pub uninterp spec fn rules_root(rules: ignore::gitignore::Gitignore) -> Seq<char>;

/// The patterns of a set in order, each with whether it ignores case.
pub uninterp spec fn rules_lines(rules: ignore::gitignore::Gitignore) -> Seq<(Seq<char>, bool)>;

/// The directory that [`GitignoreBuilder::new`] makes of a path: the path itself
/// but for a `./` in front.
pub uninterp spec fn anchor_of(root: Seq<char>) -> Seq<char>;

/// The directory that the patterns of a builder are anchored at.
pub uninterp spec fn builder_root(builder: ignore::gitignore::GitignoreBuilder) -> Seq<char>;

/// The patterns of a builder in order, each with whether it ignores case.
pub uninterp spec fn builder_lines(builder: ignore::gitignore::GitignoreBuilder) -> Seq<
    (Seq<char>, bool),
>;

/// Whether the patterns that are added next ignore case.
pub uninterp spec fn builder_folds(builder: ignore::gitignore::GitignoreBuilder) -> bool;

/// Why a pattern is not well formed: `None` where it is.
pub uninterp spec fn pattern_refusal(pattern: Seq<char>, folds: bool) -> Option<Seq<char>>;

/// Why a set of patterns cannot be compiled: `None` where it can.
pub uninterp spec fn set_refusal(lines: Seq<(Seq<char>, bool)>) -> Option<Seq<char>>;

/// An error in the words of [`ignore::Error`].
pub uninterp spec fn error_words(error: ignore::Error) -> Seq<char>;

/// Whether a set of patterns leaves out a path, by the patterns that match the
/// path itself.
pub uninterp spec fn ignores(
    root: Seq<char>,
    lines: Seq<(Seq<char>, bool)>,
    path: Seq<char>,
    is_dir: bool,
) -> bool;

/// The pattern that a declared line stands for: the line without the white space
/// behind it, which stays only where its last blank is escaped. A comment and a
/// blank line stand for none.
pub open spec fn stored_pattern(line: Seq<char>) -> Option<Seq<char>> {
    let kept = if without_suffix(line, "\\ "@) is Some {
        line
    } else {
        trimmed_end(line)
    };
    if line.len() > 0 && line[0] == '#' {
        None
    } else if kept.len() == 0 {
        None
    } else {
        Some(kept)
    }
}

/// A builder without patterns, by [`GitignoreBuilder::new`]. Its patterns will be
/// matched case for case. The directory is the given path, from which a leading
/// `./` is taken by the path rules of the platform. The contract names what is left,
/// and says that a path with no dot in front stays as it is.
#[verifier::external_body]
fn new_builder(root: &str) -> (builder: GitignoreBuilder)
    ensures
        builder_root(builder) == anchor_of(root@),
        !(root@.len() > 0 && root@[0] == '.') ==> builder_root(builder) == root@,
        builder_lines(builder).len() == 0,
        !builder_folds(builder),
{
    GitignoreBuilder::new(root)
}

/// Sets whether the patterns that are added next ignore case, by
/// [`GitignoreBuilder::case_insensitive`], which never fails.
#[verifier::external_body]
fn fold_case(builder: &mut GitignoreBuilder, yes: bool) -> (r: Result<(), ignore::Error>)
    ensures
        r is Ok,
        builder_folds(*final(builder)) == yes,
        builder_lines(*final(builder)) == builder_lines(*old(builder)),
        builder_root(*final(builder)) == builder_root(*old(builder)),
{
    builder.case_insensitive(yes).map(|_| ())
}

/// Adds a line, by [`GitignoreBuilder::add_line`]. A comment or a blank line changes
/// nothing. The pattern of any other line is added, or refused where it is not well
/// formed, and then nothing changes.
#[verifier::external_body]
fn add_pattern(builder: &mut GitignoreBuilder, line: &str) -> (r: Result<(), ignore::Error>)
    ensures
        match r {
            Ok(_) => pattern_refusal(line@, builder_folds(*old(builder))) is None,
            Err(e) => pattern_refusal(line@, builder_folds(*old(builder))) == Some(error_words(e)),
        },
        match stored_pattern(line@) {
            Some(pattern) => r is Ok ==> builder_lines(*final(builder)) == builder_lines(
                *old(builder),
            ).push((pattern, builder_folds(*old(builder)))),
            None => r is Ok && *final(builder) == *old(builder),
        },
        r is Ok ==> builder_folds(*final(builder)) == builder_folds(*old(builder)),
        r is Ok ==> builder_root(*final(builder)) == builder_root(*old(builder)),
        r is Err ==> *final(builder) == *old(builder),
{
    builder.add_line(None, line).map(|_| ())
}

/// Compiles the patterns of a builder, by [`GitignoreBuilder::build`]. A set
/// without patterns always compiles, and is anchored nowhere.
#[verifier::external_body]
fn compile(builder: &GitignoreBuilder) -> (r: Result<Gitignore, ignore::Error>)
    ensures
        match r {
            Ok(_) => set_refusal(builder_lines(*builder)) is None,
            Err(e) => set_refusal(builder_lines(*builder)) == Some(error_words(e)),
        },
        builder_lines(*builder).len() == 0 ==> r is Ok,
        r matches Ok(rules) ==> rules_lines(rules) == builder_lines(*builder),
        r matches Ok(rules) ==> if builder_lines(*builder).len() > 0 {
            rules_root(rules) == builder_root(*builder)
        } else {
            rules_root(rules).len() == 0
        },
{
    builder.build()
}

/// What went wrong, by the `Display` of [`ignore::Error`]. The contract names the
/// text.
#[verifier::external_body]
fn error_text(e: &ignore::Error) -> (r: String)
    ensures
        r@ == error_words(*e),
{
    e.to_string()
}

/// Whether `rules` leave out `path`, by [`Gitignore::matched`]. A set without
/// patterns leaves out nothing.
#[verifier::external_body]
pub(crate) fn leaves_out(rules: &Gitignore, path: &str, is_dir: bool) -> (r: bool)
    ensures
        r == ignores(rules_root(*rules), rules_lines(*rules), path@, is_dir),
        rules_lines(*rules).len() == 0 ==> !r,
{
    rules.matched(path, is_dir).is_ignore()
}

/// A set without patterns, by [`Gitignore::empty`].
#[verifier::external_body]
fn no_patterns() -> (rules: Gitignore)
    ensures
        rules_lines(rules).len() == 0,
        rules_root(rules).len() == 0,
{
    Gitignore::empty()
}

/// Errors in declared patterns.
#[derive(Debug, Clone, PartialEq, Eq)]
#[non_exhaustive]
pub enum IgnoreRulesError {
    /// A pattern is not well formed.
    Pattern {
        /// The pattern as it was written.
        pattern: String,
        /// What went wrong.
        message: String,
    },
    /// The set cannot be compiled.
    Build {
        /// The source that the patterns are anchored at.
        source_root: String,
        /// What went wrong.
        message: String,
    },
}

impl IgnoreRulesError {
    /// The error in words.
    pub open spec fn words(self) -> Seq<char> {
        match self {
            IgnoreRulesError::Pattern { pattern, message } => around(
                "ignore pattern `"@,
                pattern@,
                "` is not a valid glob: "@,
            ) + message@,
            IgnoreRulesError::Build { source_root, message } => around(
                "failed to compile the ignore rules for source `"@,
                source_root@,
                "`: "@,
            ) + message@,
        }
    }

    /// The error in words.
    pub fn message(&self) -> (r: String)
        ensures
            r@ == self.words(),
    {
        match self {
            IgnoreRulesError::Pattern { pattern, message } => {
                let head: String = put_around(
                    "ignore pattern `",
                    pattern.as_str(),
                    "` is not a valid glob: ",
                );
                joined(head.as_str(), message.as_str())
            },
            IgnoreRulesError::Build { source_root, message } => {
                let head: String = put_around(
                    "failed to compile the ignore rules for source `",
                    source_root.as_str(),
                    "`: ",
                );
                joined(head.as_str(), message.as_str())
            },
        }
    }
}

/// The first pattern of a row that is not well formed, and why it is not.
pub open spec fn first_refused(patterns: Seq<Seq<char>>) -> Option<(Seq<char>, Seq<char>)>
    decreases patterns.len(),
{
    if patterns.len() == 0 {
        None
    } else {
        match pattern_refusal(patterns[0], true) {
            Some(words) => Some((patterns[0], words)),
            None => first_refused(patterns.drop_first()),
        }
    }
}

/// The patterns that a row of lines stands for, each ignoring case.
pub open spec fn folding(lines: Seq<Seq<char>>) -> Seq<(Seq<char>, bool)>
    decreases lines.len(),
{
    if lines.len() == 0 {
        Seq::empty()
    } else {
        match stored_pattern(lines.last()) {
            Some(pattern) => folding(lines.drop_last()).push((pattern, true)),
            None => folding(lines.drop_last()),
        }
    }
}

/// The patterns of two rows of lines are those of the first and then those of the
/// second.
pub proof fn folding_in_order(front: Seq<Seq<char>>, rest: Seq<Seq<char>>)
    ensures
        folding(front + rest) == folding(front) + folding(rest),
    decreases rest.len(),
{
    if rest.len() == 0 {
        assert(front + rest =~= front);
        assert(folding(front) + folding(rest) =~= folding(front));
    } else {
        assert((front + rest).drop_last() =~= front + rest.drop_last());
        folding_in_order(front, rest.drop_last());
        assert(folding(front + rest) =~= folding(front) + folding(rest));
    }
}

/// The directory that the patterns of two lists are anchored at. Where there is no
/// pattern there is none.
pub open spec fn anchor_for(lines: Seq<(Seq<char>, bool)>, source_root: Seq<char>) -> Seq<char> {
    if lines.len() == 0 {
        Seq::empty()
    } else {
        anchor_of(source_root)
    }
}

/// The patterns of the root manifest and of the entry, in order.
pub open spec fn all_patterns(repo_wide: Seq<String>, entry: Seq<String>) -> Seq<Seq<char>> {
    views(repo_wide) + views(entry)
}

/// Adds the patterns of a row, up to the first that is refused.
fn add_patterns(builder: &mut GitignoreBuilder, patterns: &Vec<String>) -> (r: Result<
    (),
    IgnoreRulesError,
>)
    requires
        builder_folds(*old(builder)),
    ensures
        match first_refused(views(patterns@)) {
            Some((p, words)) => r matches Err(IgnoreRulesError::Pattern { pattern, message })
                && pattern@ == p && message@ == words,
            None => r is Ok,
        },
        r is Ok ==> builder_folds(*final(builder)),
        r is Ok ==> builder_root(*final(builder)) == builder_root(*old(builder)),
        r is Ok ==> builder_lines(*final(builder)) == builder_lines(*old(builder)) + folding(
            views(patterns@),
        ),
{
    let ghost all = views(patterns@);
    let ghost lines = builder_lines(*builder);
    let ghost root = builder_root(*builder);
    let mut i: usize = 0;
    assert(all.skip(0) =~= all);
    assert(lines + folding(all.take(0)) =~= lines);
    while i < patterns.len()
        invariant
            i <= patterns@.len(),
            all == views(patterns@),
            builder_folds(*builder),
            builder_root(*builder) == root,
            builder_lines(*builder) == lines + folding(all.take(i as int)),
            first_refused(all) == first_refused(all.skip(i as int)),
        decreases patterns@.len() - i,
    {
        proof {
            assert(all.skip(i as int)[0] == patterns@[i as int]@);
            assert(all.skip(i as int).drop_first() =~= all.skip(i + 1));
            let front = all.take(i + 1);
            assert(front.drop_last() =~= all.take(i as int));
            assert(front.last() == patterns@[i as int]@);
            match stored_pattern(front.last()) {
                Some(pattern) => {
                    assert((lines + folding(all.take(i as int))).push((pattern, true)) =~= lines
                        + folding(front));
                },
                None => {},
            }
        }
        match add_pattern(builder, patterns[i].as_str()) {
            Ok(()) => {},
            Err(e) => {
                return Err(
                    IgnoreRulesError::Pattern {
                        pattern: patterns[i].clone(),
                        message: error_text(&e),
                    },
                );
            },
        }
        i = i + 1;
    }
    assert(all.take(i as int) =~= all);
    Ok(())
}

/// A row of patterns is refused for the first bad one: of its front part if that
/// has one, and otherwise of the rest.
pub proof fn refusal_in_order(front: Seq<Seq<char>>, rest: Seq<Seq<char>>)
    ensures
        first_refused(front + rest) == (match first_refused(front) {
            Some(p) => Some(p),
            None => first_refused(rest),
        }),
    decreases front.len(),
{
    if front.len() == 0 {
        assert(front + rest =~= rest);
    } else {
        assert((front + rest).drop_first() =~= front.drop_first() + rest);
        refusal_in_order(front.drop_first(), rest);
    }
}

/// The set of patterns that the walk of one entry is filtered by: those of the
/// root manifest and then those of the entry, anchored at `source_root`.
pub fn build(repo_wide: &Vec<String>, entry: &Vec<String>, source_root: &str) -> (r: Result<
    Gitignore,
    IgnoreRulesError,
>)
    ensures
        match first_refused(all_patterns(repo_wide@, entry@)) {
            Some((p, words)) => r matches Err(IgnoreRulesError::Pattern { pattern, message })
                && pattern@ == p && message@ == words,
            None => match set_refusal(folding(all_patterns(repo_wide@, entry@))) {
                None => r matches Ok(rules) && rules_lines(rules) == folding(
                    all_patterns(repo_wide@, entry@),
                ) && rules_root(rules) == anchor_for(rules_lines(rules), source_root@),
                Some(words) => r matches Err(
                    IgnoreRulesError::Build { source_root: root, message },
                ) && root@ == source_root@ && message@ == words,
            },
        },
        folding(all_patterns(repo_wide@, entry@)).len() == 0 && first_refused(
            all_patterns(repo_wide@, entry@),
        ) is None ==> r is Ok,
        repo_wide@.len() == 0 && entry@.len() == 0 ==> (r matches Ok(rules) && rules_lines(
            rules,
        ).len() == 0 && rules_root(rules).len() == 0),
        r matches Ok(rules) ==> (rules_lines(rules).len() > 0 && !(source_root@.len() > 0
            && source_root@[0] == '.') ==> rules_root(rules) == source_root@),
{
    let mut builder: GitignoreBuilder = new_builder(source_root);
    match fold_case(&mut builder, true) {
        Ok(()) => {},
        Err(e) => {
            return Err(
                IgnoreRulesError::Build {
                    source_root: source_root.to_owned(),
                    message: error_text(&e),
                },
            );
        },
    }
    let ghost all = all_patterns(repo_wide@, entry@);
    proof {
        refusal_in_order(views(repo_wide@), views(entry@));
        assert(builder_lines(builder) =~= Seq::<(Seq<char>, bool)>::empty());
        folding_in_order(views(repo_wide@), views(entry@));
        assert(Seq::<(Seq<char>, bool)>::empty() + folding(views(repo_wide@)) + folding(
            views(entry@),
        ) =~= folding(all));
    }
    match add_patterns(&mut builder, repo_wide) {
        Ok(()) => {},
        Err(e) => return Err(e),
    }
    match add_patterns(&mut builder, entry) {
        Ok(()) => {},
        Err(e) => return Err(e),
    }
    match compile(&builder) {
        Ok(rules) => {
            assert(rules_root(rules) =~= anchor_for(rules_lines(rules), source_root@));
            Ok(rules)
        },
        Err(e) => Err(
            IgnoreRulesError::Build {
                source_root: source_root.to_owned(),
                message: error_text(&e),
            },
        ),
    }
}

/// The set of patterns of a walk that is not filtered.
#[must_use]
pub fn none() -> (rules: Gitignore)
    ensures
        rules_lines(rules).len() == 0,
        rules_root(rules).len() == 0,
{
    no_patterns()
}

/// The texts of a row of components.
pub open spec fn part_texts(parts: Seq<ComponentModel>) -> Seq<Seq<char>> {
    parts.map_values(|c: ComponentModel| component_text(c))
}

/// The path of the first `n` components of a row.
pub open spec fn front_path(parts: Seq<ComponentModel>, n: int) -> Seq<char> {
    joined_all(""@, part_texts(parts).take(n))
}

/// Whether the first `n` components of a row are left out. All but the last of
/// the row are directories.
pub open spec fn front_left_out(
    root: Seq<char>,
    lines: Seq<(Seq<char>, bool)>,
    parts: Seq<ComponentModel>,
    n: int,
) -> bool {
    ignores(root, lines, front_path(parts, n), n < parts.len())
}

/// Whether a walk drops a path: where the patterns leave out the path or any
/// directory on the way to it.
pub open spec fn pruned(
    root: Seq<char>,
    lines: Seq<(Seq<char>, bool)>,
    parts: Seq<ComponentModel>,
) -> bool {
    exists|n: int| 1 <= n <= parts.len() && #[trigger] front_left_out(root, lines, parts, n)
}

/// Whether a walk that is filtered by `rules` drops `rel`, a path relative to the
/// root of the walk.
///
/// The directories on the way decide first, from the top, as in the walk: a
/// pattern that would keep a file below a directory that is left out is never
/// reached.
#[must_use]
pub fn prunes(rules: &Gitignore, rel: &str) -> (r: bool)
    ensures
        r == pruned(rules_root(*rules), rules_lines(*rules), path_components(rel@)),
        rules_lines(*rules).len() == 0 ==> !r,
{
    let parts: Vec<PathComponent> = components_of(rel);
    let ghost all = component_views(parts@);
    let ghost texts = part_texts(all);
    let ghost root = rules_root(*rules);
    let ghost lines = rules_lines(*rules);
    let mut prefix: String = String::new();
    assert(prefix@ =~= ""@) by {
        reveal_strlit("");
    }
    let mut i: usize = 0;
    while i < parts.len()
        invariant
            i <= parts@.len(),
            all == component_views(parts@),
            all == path_components(rel@),
            texts == part_texts(all),
            root == rules_root(*rules),
            lines == rules_lines(*rules),
            prefix@ == joined_all(""@, texts.take(i as int)),
            forall|n: int| 1 <= n <= i ==> !#[trigger] front_left_out(root, lines, all, n),
        decreases parts@.len() - i,
    {
        prefix = join_path(prefix.as_str(), parts[i].text().as_str());
        proof {
            assert(texts.take(i + 1).drop_last() =~= texts.take(i as int));
            assert(texts.take(i + 1).last() == component_text(parts@[i as int]@));
            assert(prefix@ == front_path(all, i + 1));
        }
        let is_dir: bool = i + 1 < parts.len();
        if leaves_out(rules, prefix.as_str(), is_dir) {
            assert(front_left_out(root, lines, all, i + 1));
            return true;
        }
        i = i + 1;
    }
    false
}

/// A directory that is left out takes everything below it along, whatever the
/// patterns say of the path itself.
pub proof fn ancestors_outrank_the_leaf(
    root: Seq<char>,
    lines: Seq<(Seq<char>, bool)>,
    parts: Seq<ComponentModel>,
    n: int,
)
    requires
        1 <= n < parts.len(),
        ignores(root, lines, front_path(parts, n), true),
    ensures
        pruned(root, lines, parts),
{
    assert(front_left_out(root, lines, parts, n));
}

} // verus!
