//! Paths as text.
//!
//! A path is a `String` here. How it falls into components, and how two paths
//! are joined, is decided by [`camino`], and by the path rules of the platform
//! that the crate is compiled for: `/` on Unix, `/`, `\` and the volume prefixes
//! on Windows. Everything that follows from the components is computed from
//! them.

use camino::Utf8Component;
use camino::Utf8Prefix;
use crate::text::chars_of;
use crate::text::opt_view;
use crate::text::slice_text;
use crate::text::views;
use vstd::prelude::*;

verus! {

/// One component of a path.
#[derive(Debug, Clone, PartialEq, Eq)]
pub enum PathComponent {
    /// The volume in front of a Windows path.
    Prefix {
        /// The prefix as written.
        text: String,
    },
    /// The separator by which a path starts from the root.
    RootDir {
        /// The separator.
        text: String,
    },
    /// `.`
    CurDir,
    /// `..`
    ParentDir,
    /// A name.
    Normal {
        /// The name.
        text: String,
    },
}

/// A component with its text as a sequence of characters.
#[verifier::ext_equal]
pub ghost enum ComponentModel {
    /// A volume.
    Prefix { text: Seq<char> },
    /// The root.
    RootDir { text: Seq<char> },
    /// `.`
    CurDir,
    /// `..`
    ParentDir,
    /// A name.
    Normal { text: Seq<char> },
}

impl View for PathComponent {
    type V = ComponentModel;

    open spec fn view(&self) -> ComponentModel {
        match *self {
            PathComponent::Prefix { text } => ComponentModel::Prefix { text: text@ },
            PathComponent::RootDir { text } => ComponentModel::RootDir { text: text@ },
            PathComponent::CurDir => ComponentModel::CurDir,
            PathComponent::ParentDir => ComponentModel::ParentDir,
            PathComponent::Normal { text } => ComponentModel::Normal { text: text@ },
        }
    }
}

/// The models of a row of components.
pub open spec fn component_views(parts: Seq<PathComponent>) -> Seq<ComponentModel> {
    parts.map_values(|c: PathComponent| c@)
}

/// What kind of volume a prefix names.
#[derive(Debug, Clone, PartialEq, Eq)]
pub enum PathPrefix {
    /// `\\?\name`
    Verbatim {
        /// The name.
        name: String,
    },
    /// `\\?\UNC\host\share`
    VerbatimUnc {
        /// The host.
        host: String,
        /// The share.
        share: String,
    },
    /// `\\?\C:`
    VerbatimDisk {
        /// The drive.
        letter: char,
    },
    /// `\\.\name`
    Device {
        /// The device.
        name: String,
    },
    /// `\\host\share`
    Unc {
        /// The host.
        host: String,
        /// The share.
        share: String,
    },
    /// `C:`
    Disk {
        /// The drive.
        letter: char,
    },
}

/// A prefix with its texts as sequences of characters.
#[verifier::ext_equal]
pub ghost enum PrefixModel {
    /// `\\?\name`
    Verbatim { name: Seq<char> },
    /// `\\?\UNC\host\share`
    VerbatimUnc { host: Seq<char>, share: Seq<char> },
    /// `\\?\C:`
    VerbatimDisk { letter: char },
    /// `\\.\name`
    Device { name: Seq<char> },
    /// `\\host\share`
    Unc { host: Seq<char>, share: Seq<char> },
    /// `C:`
    Disk { letter: char },
}

impl View for PathPrefix {
    type V = PrefixModel;

    open spec fn view(&self) -> PrefixModel {
        match *self {
            PathPrefix::Verbatim { name } => PrefixModel::Verbatim { name: name@ },
            PathPrefix::VerbatimUnc { host, share } => PrefixModel::VerbatimUnc {
                host: host@,
                share: share@,
            },
            PathPrefix::VerbatimDisk { letter } => PrefixModel::VerbatimDisk { letter },
            PathPrefix::Device { name } => PrefixModel::Device { name: name@ },
            PathPrefix::Unc { host, share } => PrefixModel::Unc { host: host@, share: share@ },
            PathPrefix::Disk { letter } => PrefixModel::Disk { letter },
        }
    }
}

/// The model of an optional prefix.
pub open spec fn prefix_view(prefix: Option<PathPrefix>) -> Option<PrefixModel> {
    match prefix {
        Some(p) => Some(p@),
        None => None,
    }
}

/// The components of a path.
pub uninterp spec fn path_components(path: Seq<char>) -> Seq<ComponentModel>;

/// The volume that a path starts with.
pub uninterp spec fn path_prefix(path: Seq<char>) -> Option<PrefixModel>;

/// A path continued by another.
pub uninterp spec fn path_joined(base: Seq<char>, part: Seq<char>) -> Seq<char>;

/// A path without its final component.
pub uninterp spec fn path_parent(path: Seq<char>) -> Option<Seq<char>>;

/// Whether a path names a place whatever the current directory is.
pub uninterp spec fn path_is_absolute(path: Seq<char>) -> bool;

/// The components of `path`, by [`camino::Utf8Path::components`]. What they are
/// is left to that function, which follows the path rules of the platform that
/// the crate is compiled for. A `..` is a [`PathComponent::ParentDir`], so that
/// no name among the components reads `..`.
#[verifier::external_body]
pub(crate) fn components_of(path: &str) -> (parts: Vec<PathComponent>)
    ensures
        component_views(parts@) == path_components(path@),
        forall|i: int|
            0 <= i < parts@.len() ==> ((#[trigger] parts@[i]) matches PathComponent::Normal { text }
                ==> text@ != ".."@),
{
    camino::Utf8Path::new(path).components().map(|c| match c {
        Utf8Component::Prefix(p) => PathComponent::Prefix { text: p.as_str().to_owned() },
        Utf8Component::RootDir => PathComponent::RootDir { text: c.as_str().to_owned() },
        Utf8Component::CurDir => PathComponent::CurDir,
        Utf8Component::ParentDir => PathComponent::ParentDir,
        Utf8Component::Normal(n) => PathComponent::Normal { text: n.to_owned() },
    }).collect()
}

/// The kind of the volume that `path` starts with, by
/// [`camino::Utf8PrefixComponent::kind`] of its first component. There is none
/// on Unix.
#[verifier::external_body]
pub(crate) fn prefix_of(path: &str) -> (prefix: Option<PathPrefix>)
    ensures
        prefix_view(prefix) == path_prefix(path@),
{
    let first = camino::Utf8Path::new(path).components().next();
    let Some(Utf8Component::Prefix(p)) = first else { return None };
    Some(match p.kind() {
        Utf8Prefix::Verbatim(n) => PathPrefix::Verbatim { name: n.into() },
        Utf8Prefix::VerbatimUNC(h, s) => PathPrefix::VerbatimUnc { host: h.into(), share: s.into() },
        Utf8Prefix::VerbatimDisk(d) => PathPrefix::VerbatimDisk { letter: d.into() },
        Utf8Prefix::DeviceNS(n) => PathPrefix::Device { name: n.into() },
        Utf8Prefix::UNC(h, s) => PathPrefix::Unc { host: h.into(), share: s.into() },
        Utf8Prefix::Disk(d) => PathPrefix::Disk { letter: d.into() },
    })
}

/// `base` continued by `part`, by [`camino::Utf8Path::join`]: an absolute `part`
/// replaces `base`. One that starts at no volume and no root is put behind it: an
/// absolute `base` stays absolute, and one that is not verbatim stays in front as it
/// is.
#[verifier::external_body]
pub(crate) fn join_path(base: &str, part: &str) -> (path: String)
    ensures
        path@ == path_joined(base@, part@),
        path_is_absolute(part@) ==> path@ == part@,
        path_is_absolute(base@) && starts_below(path_components(part@)) ==> path_is_absolute(path@),
        !is_verbatim(base@) && starts_below(path_components(part@)) ==> base@.is_prefix_of(path@),
{
    camino::Utf8Path::new(base).join(part).into_string()
}

/// `path` without its final component, by [`camino::Utf8Path::parent`], or
/// `None` where it ends in a root or is empty. What is left is shorter.
#[verifier::external_body]
pub(crate) fn parent_of(path: &str) -> (parent: Option<String>)
    ensures
        opt_view(parent) == path_parent(path@),
        parent matches Some(p) ==> p@.len() < path@.len(),
{
    camino::Utf8Path::new(path).parent().map(|p| p.as_str().to_owned())
}

/// Whether `path` is absolute, by [`camino::Utf8Path::is_absolute`].
#[verifier::external_body]
pub(crate) fn is_absolute(path: &str) -> (r: bool)
    ensures
        r == path_is_absolute(path@),
{
    camino::Utf8Path::new(path).is_absolute()
}

/// The name that a row of components ends in.
pub open spec fn last_name(parts: Seq<ComponentModel>) -> Option<Seq<char>> {
    if parts.len() == 0 {
        None
    } else {
        match parts.last() {
            ComponentModel::Normal { text } => Some(text),
            _ => None,
        }
    }
}

/// The name that a path ends in.
pub open spec fn path_name(path: Seq<char>) -> Option<Seq<char>> {
    last_name(path_components(path))
}

/// The name that a row of components ends in.
pub fn name_of_parts(parts: &Vec<PathComponent>) -> (name: Option<String>)
    ensures
        opt_view(name) == last_name(component_views(parts@)),
{
    if parts.len() == 0 {
        return None;
    }
    assert(component_views(parts@).last() == parts@.last()@);
    match &parts[parts.len() - 1] {
        PathComponent::Normal { text } => Some(text.clone()),
        _ => None,
    }
}

/// The name that `path` ends in, or `None` where it ends in `..` or a root.
pub fn file_name(path: &str) -> (name: Option<String>)
    ensures
        opt_view(name) == path_name(path@),
{
    name_of_parts(&components_of(path))
}

/// The place of the last `.` that parts a name into a stem and an extension:
/// none where the name has no `.`, where its only one is in front, or where the
/// name is `..`.
pub open spec fn extension_dot(name: Seq<char>) -> int {
    if name == ".."@ {
        -1
    } else {
        last_dot(name)
    }
}

/// The place of the last `.` after the first character, or -1.
pub open spec fn last_dot(name: Seq<char>) -> int
    decreases name.len(),
{
    if name.len() <= 1 {
        -1
    } else if name.last() == '.' {
        name.len() - 1
    } else {
        last_dot(name.drop_last())
    }
}

proof fn last_dot_is_inside(name: Seq<char>)
    ensures
        last_dot(name) == -1 || 0 < last_dot(name) < name.len(),
    decreases name.len(),
{
    if name.len() > 1 && name.last() != '.' {
        last_dot_is_inside(name.drop_last());
    }
}

/// The extension of a name: what follows its last `.`.
pub open spec fn name_extension(name: Seq<char>) -> Option<Seq<char>> {
    if extension_dot(name) < 0 {
        None
    } else {
        Some(name.skip(extension_dot(name) + 1))
    }
}

/// The stem of a name: what its extension leaves.
pub open spec fn name_stem(name: Seq<char>) -> Seq<char> {
    if extension_dot(name) < 0 {
        name
    } else {
        name.take(extension_dot(name))
    }
}

/// A name parted into its stem and its extension.
pub fn split_name(name: &str) -> (r: (String, Option<String>))
    ensures
        r.0@ == name_stem(name@),
        opt_view(r.1) == name_extension(name@),
{
    let chars: Vec<char> = chars_of(name);
    proof {
        reveal_strlit("..");
        assert(chars@.take(chars@.len() as int) =~= chars@);
        last_dot_is_inside(chars@);
    }
    let whole: bool = chars.len() == 2 && chars[0] == '.' && chars[1] == '.';
    assert(whole ==> chars@ =~= ".."@);
    if whole {
        return (slice_text(&chars, 0, chars.len()), None);
    }
    let mut i: usize = chars.len();
    while i > 1
        invariant
            i <= chars@.len(),
            chars@ == name@,
            chars@ != ".."@,
            last_dot(chars@) == last_dot(chars@.take(i as int)),
        decreases i,
    {
        assert(chars@.take(i as int).drop_last() =~= chars@.take(i - 1));
        if chars[i - 1] == '.' {
            return (slice_text(&chars, 0, i - 1), Some(slice_text(&chars, i, chars.len())));
        }
        i = i - 1;
    }
    (slice_text(&chars, 0, chars.len()), None)
}

/// Whether a component is a volume or the root.
pub open spec fn anchors(c: ComponentModel) -> bool {
    c is Prefix || c is RootDir
}

/// Whether a row of components starts at no volume and no root.
pub open spec fn starts_below(parts: Seq<ComponentModel>) -> bool {
    parts.len() == 0 || !anchors(parts[0])
}

/// Whether a row of components goes by a root.
pub open spec fn has_root(parts: Seq<ComponentModel>) -> bool {
    exists|i: int| 0 <= i < parts.len() && (#[trigger] parts[i]) is RootDir
}

/// Whether a path starts with a verbatim prefix, by which Windows takes the rest of
/// it as it is written.
pub open spec fn is_verbatim(path: Seq<char>) -> bool {
    match path_prefix(path) {
        Some(PrefixModel::Verbatim { .. }) => true,
        Some(PrefixModel::VerbatimUnc { .. }) => true,
        Some(PrefixModel::VerbatimDisk { .. }) => true,
        _ => false,
    }
}

/// The text of a component as written.
pub open spec fn component_text(c: ComponentModel) -> Seq<char> {
    match c {
        ComponentModel::Prefix { text } => text,
        ComponentModel::RootDir { text } => text,
        ComponentModel::CurDir => "."@,
        ComponentModel::ParentDir => ".."@,
        ComponentModel::Normal { text } => text,
    }
}

impl PathComponent {
    /// The same component once more.
    pub fn copied(&self) -> (r: Self)
        ensures
            r@ == self@,
    {
        match self {
            PathComponent::Prefix { text } => PathComponent::Prefix { text: text.clone() },
            PathComponent::RootDir { text } => PathComponent::RootDir { text: text.clone() },
            PathComponent::CurDir => PathComponent::CurDir,
            PathComponent::ParentDir => PathComponent::ParentDir,
            PathComponent::Normal { text } => PathComponent::Normal { text: text.clone() },
        }
    }

    /// Whether the component is a volume or the root.
    pub fn is_anchor(&self) -> (r: bool)
        ensures
            r == anchors(self@),
    {
        match self {
            PathComponent::Prefix { .. } | PathComponent::RootDir { .. } => true,
            _ => false,
        }
    }

    /// The text of the component as written.
    pub fn text(&self) -> (r: String)
        ensures
            r@ == component_text(self@),
    {
        match self {
            PathComponent::Prefix { text } => text.clone(),
            PathComponent::RootDir { text } => text.clone(),
            PathComponent::CurDir => ".".to_owned(),
            PathComponent::ParentDir => "..".to_owned(),
            PathComponent::Normal { text } => text.clone(),
        }
    }
}

/// A path continued by a row of texts, one after the other.
pub open spec fn joined_all(base: Seq<char>, parts: Seq<Seq<char>>) -> Seq<char>
    decreases parts.len(),
{
    if parts.len() == 0 {
        base
    } else {
        path_joined(joined_all(base, parts.drop_last()), parts.last())
    }
}

/// `base` continued by each of `parts`.
pub fn join_all(base: &str, parts: &Vec<String>) -> (path: String)
    ensures
        path@ == joined_all(base@, views(parts@)),
{
    let ghost all = views(parts@);
    let mut path: String = base.to_owned();
    let mut i: usize = 0;
    while i < parts.len()
        invariant
            i <= parts@.len(),
            all == views(parts@),
            path@ == joined_all(base@, all.take(i as int)),
        decreases parts@.len() - i,
    {
        path = join_path(path.as_str(), parts[i].as_str());
        assert(all.take(i + 1).drop_last() =~= all.take(i as int));
        i = i + 1;
    }
    assert(all.take(i as int) =~= all);
    path
}

} // verus!
