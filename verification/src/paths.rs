//! Absolute paths.
//!
//! Every path that reaches an error, a journal record or a user is absolute. A
//! path that exists is resolved by the filesystem; one that does not is resolved
//! by its parent where that exists, and otherwise on paper: joined to the
//! current directory, with `.` and `..` folded out. Expanding a leading `~` is a
//! separate step that touches no filesystem.

use crate::text::around;
use crate::text::chars_of;
use crate::text::joined;
use crate::text::put_around;
use crate::text::same_text;
use crate::text::slice_text;
use crate::text::strip_prefix;
use crate::text::views;
use crate::text::without_prefix;
use crate::utf8_path::ComponentModel;
use crate::utf8_path::PathComponent;
use crate::utf8_path::anchors;
use crate::utf8_path::component_text;
use crate::utf8_path::component_views;
use crate::utf8_path::components_of;
use crate::utf8_path::file_name;
use crate::utf8_path::has_root;
use crate::utf8_path::is_absolute;
use crate::utf8_path::is_verbatim;
use crate::utf8_path::join_all;
use crate::utf8_path::join_path;
use crate::utf8_path::joined_all;
use crate::utf8_path::parent_of;
use crate::utf8_path::path_components;
use crate::utf8_path::path_is_absolute;
use crate::utf8_path::path_joined;
use crate::utf8_path::path_name;
use crate::utf8_path::path_parent;
use crate::utf8_path::starts_below;
use vstd::prelude::*;

verus! {

/// Errors of canonical paths.
#[derive(Debug, Clone, PartialEq, Eq)]
#[non_exhaustive]
pub enum PathError {
    /// The working directory could not be told.
    CwdUnavailable {
        /// The path that was to be made canonical.
        path: String,
        /// What went wrong.
        message: String,
    },
    /// The working directory is no text.
    CwdNotUtf8 {
        /// The path that was to be made canonical.
        path: String,
        /// The working directory, as far as it can be shown.
        cwd: String,
    },
    /// The filesystem refused.
    Filesystem {
        /// The path.
        path: String,
        /// What went wrong.
        message: String,
    },
    /// The canonical path is no text.
    ResultNotUtf8 {
        /// The path.
        path: String,
    },
}

impl PathError {
    /// The error in words.
    pub open spec fn words(self) -> Seq<char> {
        match self {
            PathError::CwdUnavailable { path, message } => around(
                "failed to read current working directory while canonicalizing "@,
                path@,
                ": "@,
            ) + message@,
            PathError::CwdNotUtf8 { path, cwd } => around(
                "current working directory "@,
                cwd@,
                " is not valid UTF-8 while canonicalizing "@,
            ) + path@,
            PathError::Filesystem { path, message } => around(
                "failed to canonicalize "@,
                path@,
                ": "@,
            ) + message@,
            PathError::ResultNotUtf8 { path } => around(
                "canonicalized form of "@,
                path@,
                " is not valid UTF-8"@,
            ),
        }
    }

    /// The error in words.
    pub fn message(&self) -> (r: String)
        ensures
            r@ == self.words(),
    {
        match self {
            PathError::CwdUnavailable { path, message } => {
                let head: String = put_around(
                    "failed to read current working directory while canonicalizing ",
                    path.as_str(),
                    ": ",
                );
                joined(head.as_str(), message.as_str())
            },
            PathError::CwdNotUtf8 { path, cwd } => {
                let head: String = put_around(
                    "current working directory ",
                    cwd.as_str(),
                    " is not valid UTF-8 while canonicalizing ",
                );
                joined(head.as_str(), path.as_str())
            },
            PathError::Filesystem { path, message } => {
                let head: String = put_around("failed to canonicalize ", path.as_str(), ": ");
                joined(head.as_str(), message.as_str())
            },
            PathError::ResultNotUtf8 { path } => put_around(
                "canonicalized form of ",
                path.as_str(),
                " is not valid UTF-8",
            ),
        }
    }
}

/// A path without a needless verbatim prefix.
pub uninterp spec fn path_simplified(path: Seq<char>) -> Seq<char>;

/// `path` without the `\\?\` in front of it where the plain form means the same,
/// by [`dunce::simplified`]. Off Windows that function gives the path back; what
/// it does on Windows is left to it. An absolute path that goes by a root stays
/// absolute.
#[verifier::external_body]
pub(crate) fn simplified_str(path: &str) -> (r: String)
    ensures
        r@ == path_simplified(path@),
        path_is_absolute(path@) && has_root(path_components(path@)) ==> path_is_absolute(r@),
{
    dunce::simplified(std::path::Path::new(path)).to_string_lossy().into_owned()
}

/// A path without the volume and the separators in front.
pub open spec fn unrooted(path: Seq<char>) -> Seq<char>
    decreases path.len(),
{
    if path.len() == 0 || starts_below(path_components(path)) {
        path
    } else {
        unrooted(path.skip(anchor_length(path)))
    }
}

/// The length of the volume or separator in front of a path.
pub open spec fn anchor_length(path: Seq<char>) -> int {
    let n = component_text(path_components(path)[0]).len();
    if n == 0 {
        1
    } else if n > path.len() {
        path.len() as int
    } else {
        n as int
    }
}

/// The path without the volume and the separators in front.
fn unroot(path: &str) -> (r: String)
    ensures
        r@ == unrooted(path@),
        r@.len() == 0 || starts_below(path_components(r@)),
{
    let mut rest: String = path.to_owned();
    loop
        invariant
            unrooted(path@) == unrooted(rest@),
        ensures
            rest@ == unrooted(path@),
            rest@.len() == 0 || starts_below(path_components(rest@)),
        decreases rest@.len(),
    {
        let chars: Vec<char> = chars_of(rest.as_str());
        let parts: Vec<PathComponent> = components_of(rest.as_str());
        let ghost all = component_views(parts@);
        assert(parts@.len() > 0 ==> all[0] == parts@[0]@);
        if chars.len() == 0 || parts.len() == 0 || !parts[0].is_anchor() {
            break;
        }
        let text: Vec<char> = chars_of(parts[0].text().as_str());
        let n: usize = if text.len() == 0 {
            1
        } else if text.len() > chars.len() {
            chars.len()
        } else {
            text.len()
        };
        assert(n == anchor_length(rest@));
        assert(chars@.subrange(n as int, chars@.len() as int) =~= rest@.skip(n as int));
        rest = slice_text(&chars, n, chars.len());
    }
    rest
}

/// What a leading `~` expands to.
pub open spec fn tilde_expanded(path: Seq<char>, home: Seq<char>) -> Seq<char> {
    if path == "~"@ {
        home
    } else {
        match without_prefix(path, "~/"@) {
            Some(rest) => path_joined(home, unrooted(rest)),
            None => path,
        }
    }
}

/// Expands a leading `~` to `home`: `~` alone is `home`, and `~/rest` is `rest`
/// under it, however many separators stand in front of `rest`. Any other path is
/// returned as it is.
#[must_use]
pub fn expand_tilde(path: &str, home: &str) -> (r: String)
    ensures
        r@ == tilde_expanded(path@, home@),
        without_prefix(path@, "~/"@) matches Some(rest) ==> (!is_verbatim(home@) && starts_below(
            path_components(unrooted(rest)),
        ) ==> home@.is_prefix_of(r@)),
{
    if same_text(path, "~") {
        proof {
            reveal_strlit("~");
            reveal_strlit("~/");
        }
        return home.to_owned();
    }
    match strip_prefix(path, "~/") {
        Some(rest) => join_path(home, unroot(rest.as_str()).as_str()),
        None => path.to_owned(),
    }
}

/// A path that does not start with `~` is not expanded, wherever else it holds
/// one.
pub proof fn only_a_leading_tilde_expands(path: Seq<char>, home: Seq<char>)
    requires
        path.len() == 0 || path[0] != '~',
    ensures
        tilde_expanded(path, home) == path,
{
    reveal_strlit("~");
    reveal_strlit("~/");
    if path.len() >= 2 && path.take(2) == "~/"@ {
        assert(path.take(2)[0] == path[0]);
    }
}

/// What is left of a row of components when `.` is dropped and `..` takes away the
/// name before it. There is nothing above a volume or a root, so that a `..` right
/// behind one is dropped. A `..` with nothing before it stays.
pub open spec fn dots_folded(parts: Seq<ComponentModel>) -> Seq<ComponentModel>
    decreases parts.len(),
{
    if parts.len() == 0 {
        Seq::empty()
    } else {
        let before = dots_folded(parts.drop_last());
        match parts.last() {
            ComponentModel::CurDir => before,
            ComponentModel::ParentDir => if before.len() == 0 || before.last() is ParentDir {
                before.push(ComponentModel::ParentDir)
            } else if anchors(before.last()) {
                before
            } else {
                before.drop_last()
            },
            other => before.push(other),
        }
    }
}

/// After folding, `..` stands only in front, where the path climbs above its start.
pub proof fn folded_parents_stand_in_front(parts: Seq<ComponentModel>, i: int, j: int)
    requires
        0 <= i < j < dots_folded(parts).len(),
        dots_folded(parts)[j] is ParentDir,
    ensures
        dots_folded(parts)[i] is ParentDir,
    decreases parts.len(),
{
    let before = dots_folded(parts.drop_last());
    if j < before.len() {
        folded_parents_stand_in_front(parts.drop_last(), i, j);
    } else if i < before.len() - 1 {
        folded_parents_stand_in_front(parts.drop_last(), i, before.len() - 1);
    }
}

/// A path that starts at a volume or at the root still does after folding, and holds
/// no `..` any more.
pub proof fn anchored_paths_stay_anchored(parts: Seq<ComponentModel>)
    requires
        parts.len() > 0,
        anchors(parts[0]),
    ensures
        dots_folded(parts).len() > 0,
        dots_folded(parts)[0] == parts[0],
        parts.len() > 1 && anchors(parts[1]) ==> dots_folded(parts).len() > 1 && dots_folded(
            parts,
        )[1] == parts[1],
        forall|i: int| 0 <= i < dots_folded(parts).len() ==> !(#[trigger] dots_folded(
            parts,
        )[i] is ParentDir),
    decreases parts.len(),
{
    let front = parts.drop_last();
    let before = dots_folded(front);
    if parts.len() == 1 {
        assert(before.len() == 0);
        assert(dots_folded(parts) =~= seq![parts[0]]);
    } else {
        assert(front[0] == parts[0]);
        anchored_paths_stay_anchored(front);
        if parts.len() > 2 {
            assert(front[1] == parts[1]);
        } else {
            assert(front.drop_last() =~= Seq::<ComponentModel>::empty());
            assert(dots_folded(front.drop_last()).len() == 0);
            assert(front.last() == parts[0]);
            assert(before =~= seq![parts[0]]);
        }
        assert(!(before.last() is ParentDir));
        assert forall|i: int| 0 <= i < dots_folded(parts).len() implies !(#[trigger] dots_folded(
            parts,
        )[i] is ParentDir) by {
            if i < before.len() {
                assert(dots_folded(parts)[i] == before[i]);
            }
        }
    }
}

/// A row of components without `.` or `..` folds to itself.
pub proof fn plain_parts_stay(parts: Seq<ComponentModel>)
    requires
        forall|k: int|
            0 <= k < parts.len() ==> !((#[trigger] parts[k]) is CurDir) && !(parts[k] is ParentDir),
    ensures
        dots_folded(parts) == parts,
    decreases parts.len(),
{
    if parts.len() > 0 {
        assert(parts[parts.len() - 1] == parts.last());
        assert forall|k: int| 0 <= k < parts.drop_last().len() implies (parts.drop_last()[k]
            == #[trigger] parts[k]) by {}
        plain_parts_stay(parts.drop_last());
        assert(dots_folded(parts) =~= parts);
    } else {
        assert(dots_folded(parts) =~= parts);
    }
}

/// Folds `.` and `..` out of a row of components.
pub fn fold_parts(parts: &Vec<PathComponent>) -> (out: Vec<PathComponent>)
    ensures
        component_views(out@) == dots_folded(component_views(parts@)),
{
    let ghost all = component_views(parts@);
    let mut out: Vec<PathComponent> = Vec::new();
    assert(component_views(out@) =~= Seq::<ComponentModel>::empty());
    let mut i: usize = 0;
    while i < parts.len()
        invariant
            i <= parts@.len(),
            all == component_views(parts@),
            component_views(out@) == dots_folded(all.take(i as int)),
        decreases parts@.len() - i,
    {
        let ghost before = component_views(out@);
        proof {
            assert(all.take(i + 1).drop_last() =~= all.take(i as int));
            assert(all.take(i + 1).last() == parts@[i as int]@);
            assert(out@.len() > 0 ==> before.last() == out@.last()@);
        }
        match &parts[i] {
            PathComponent::CurDir => {},
            PathComponent::ParentDir => {
                let climbs: bool = out.len() == 0 || matches!(
                    out[out.len() - 1],
                    PathComponent::ParentDir
                );
                if climbs {
                    out.push(PathComponent::ParentDir);
                    assert(component_views(out@) =~= before.push(ComponentModel::ParentDir));
                } else if !out[out.len() - 1].is_anchor() {
                    out.pop();
                    assert(component_views(out@) =~= before.drop_last());
                }
            },
            other => {
                out.push(other.copied());
                assert(component_views(out@) =~= before.push(all[i as int]));
            },
        }
        i = i + 1;
    }
    assert(all.take(i as int) =~= all);
    out
}

/// The texts of a row of components.
pub open spec fn texts_of(parts: Seq<ComponentModel>) -> Seq<Seq<char>> {
    parts.map_values(|c: ComponentModel| component_text(c))
}

/// The path that a row of components is.
pub fn assemble(parts: &Vec<PathComponent>) -> (path: String)
    ensures
        path@ == joined_all(""@, texts_of(component_views(parts@))),
{
    let mut texts: Vec<String> = Vec::new();
    let mut i: usize = 0;
    while i < parts.len()
        invariant
            i <= parts@.len(),
            texts@.len() == i,
            forall|k: int| 0 <= k < i ==> (#[trigger] texts@[k])@ == component_text(parts@[k]@),
        decreases parts@.len() - i,
    {
        texts.push(parts[i].text());
        i = i + 1;
    }
    assert(views(texts@) =~= texts_of(component_views(parts@)));
    join_all("", &texts)
}

/// A path with `.` and `..` folded out of it.
pub open spec fn path_folded(path: Seq<char>) -> Seq<char> {
    joined_all(""@, texts_of(dots_folded(path_components(path))))
}

/// Folds `.` and `..` out of a path without asking the filesystem.
pub fn fold_dot_segments(path: &str) -> (r: String)
    ensures
        r@ == path_folded(path@),
{
    assemble(&fold_parts(&components_of(path)))
}

/// A path parted into a parent that is not empty and the name under it.
pub open spec fn location(path: Seq<char>) -> Option<(Seq<char>, Seq<char>)> {
    match (path_parent(path), path_name(path)) {
        (Some(parent), Some(name)) => if parent.len() > 0 {
            Some((parent, name))
        } else {
            None
        },
        _ => None,
    }
}

/// Parts `path` into its parent and the name under it, or `None` where there is
/// no such split: of a root, of a path that ends in `..`, and of a bare name.
///
/// A target is resolved by resolving the parent and keeping the name, so that a
/// symbolic link which already stands at the target is not followed into the
/// repository.
pub fn split_location(path: &str) -> (r: Option<(String, String)>)
    ensures
        match location(path@) {
            None => r is None,
            Some((parent, name)) => r matches Some((p, n)) && p@ == parent && n@ == name,
        },
        r matches Some((p, _)) ==> p@.len() < path@.len(),
{
    match (parent_of(path), file_name(path)) {
        (Some(parent), Some(name)) => {
            if is_empty(parent.as_str()) {
                None
            } else {
                Some((parent, name))
            }
        },
        _ => None,
    }
}

/// The absolute place of a path, given the absolute form of its parent, or of the
/// path itself where it is not parted.
pub open spec fn located(path: Seq<char>, resolved: Seq<char>) -> Seq<char> {
    match location(path) {
        Some((_, name)) => path_joined(resolved, name),
        None => resolved,
    }
}

/// The absolute place of `path`. `resolved` is the absolute form of its parent, or of
/// the path itself where [`split_location`] does not part it.
pub fn locate(path: &str, resolved: &str) -> (r: String)
    ensures
        r@ == located(path@, resolved@),
        path_is_absolute(resolved@) && (location(path@) matches Some((_, name)) ==> starts_below(
            path_components(name),
        )) ==> path_is_absolute(r@),
{
    match split_location(path) {
        Some((_, name)) => join_path(resolved, name.as_str()),
        None => resolved.to_owned(),
    }
}

/// Whether a text is empty.
pub fn is_empty(text: &str) -> (r: bool)
    ensures
        r == (text@.len() == 0),
{
    let r: bool = same_text(text, "");
    proof {
        reveal_strlit("");
        assert(text@.len() == 0 ==> text@ =~= ""@);
    }
    r
}

/// How a path is brought to absolute form.
#[derive(Debug, Clone, PartialEq, Eq)]
pub enum CanonicalStep {
    /// The path exists: the filesystem resolves it.
    Whole,
    /// Only the parent exists: the filesystem resolves that, and the name stays.
    UnderParent {
        /// The parent.
        parent: String,
        /// The name under it.
        name: String,
    },
    /// Neither exists: the path is folded on paper, on top of the current
    /// directory unless it is absolute.
    OnPaper {
        /// Whether the current directory is needed.
        relative: bool,
    },
}

/// Decides how `path` is brought to absolute form, given whether it exists and
/// whether its parent does.
pub fn canonical_step(path: &str, exists: bool, parent_exists: bool) -> (r: CanonicalStep)
    ensures
        exists ==> r is Whole,
        !exists && location(path@) is Some && parent_exists ==> (r matches
            CanonicalStep::UnderParent { parent, name } && Some((parent@, name@)) == location(
            path@,
        )),
        !exists && !(location(path@) is Some && parent_exists) ==> (r matches
            CanonicalStep::OnPaper { relative } && relative == !path_is_absolute(path@)),
{
    if exists {
        return CanonicalStep::Whole;
    }
    match split_location(path) {
        Some((parent, name)) => {
            if parent_exists {
                return CanonicalStep::UnderParent { parent, name };
            }
        },
        None => {},
    }
    CanonicalStep::OnPaper { relative: !is_absolute(path) }
}

/// The absolute form of a name under a parent that the filesystem resolved.
pub fn under_parent(resolved_parent: &str, name: &str) -> (r: String)
    ensures
        r@ == path_joined(path_simplified(resolved_parent@), name@),
        path_is_absolute(resolved_parent@) && has_root(path_components(resolved_parent@))
            && starts_below(path_components(name@)) ==> path_is_absolute(r@),
{
    join_path(simplified_str(resolved_parent).as_str(), name)
}

/// The form on paper of a path: with `.` and `..` folded out of it. An absolute path
/// whose folded form would not be absolute is left as it is: on Windows the name of a
/// stream may read like a volume.
pub open spec fn form_on_paper(path: Seq<char>) -> Seq<char> {
    if path_is_absolute(path) && !path_is_absolute(path_folded(path)) {
        path
    } else {
        path_folded(path)
    }
}

/// The absolute form on paper of a path on top of `base`, which is empty for an
/// absolute path. On top of an absolute `base` a path without a volume and a root of
/// its own is brought to absolute form, and an absolute path is on top of any.
pub fn canonicalize_lexical(base: &str, path: &str) -> (r: String)
    ensures
        r@ == form_on_paper(path_joined(base@, path@)),
        path_is_absolute(path_joined(base@, path@)) ==> path_is_absolute(r@),
        path_is_absolute(path@) ==> path_is_absolute(r@),
        path_is_absolute(base@) && starts_below(path_components(path@)) ==> path_is_absolute(r@),
{
    let whole: String = join_path(base, path);
    let folded: String = fold_dot_segments(whole.as_str());
    if is_absolute(whole.as_str()) && !is_absolute(folded.as_str()) {
        whole
    } else {
        folded
    }
}

} // verus!
