//! How a target relates to what would be written to it.
//!
//! A target that is not there is created. One that is there and matches is left
//! unchanged, and any other is updated. Matching means the same here as in
//! status: what status calls clean is unchanged here.

use crate::config::FileMode;
use crate::config::file_entry::walks_a_tree;
use crate::journal::Disposition;
use crate::journal::ExpectedTarget;
use crate::journal::blake3_hash;
use crate::journal::content_hash;
use crate::status::LiveTarget;
use crate::status::bytes_view;
use crate::status::content_matches;
use crate::status::hash_matches;
use crate::status::link_matches;
use crate::status::state_of;
use crate::status::symlink_matches;
use crate::text::around;
use crate::text::joined;
use crate::text::opt_view;
use crate::text::put_around;
use vstd::prelude::*;

verus! {

/// A target could not be classified.
#[derive(Debug, Clone, PartialEq, Eq)]
#[non_exhaustive]
pub enum ClassifyError {
    /// The source of a copy could not be read.
    Io {
        /// The source.
        path: String,
        /// What went wrong.
        message: String,
    },
}

impl ClassifyError {
    /// The error in words.
    pub open spec fn words(self) -> Seq<char> {
        match self {
            ClassifyError::Io { path, message } => around(
                "failed to read source "@,
                path@,
                " for classification: "@,
            ) + message@,
        }
    }

    /// The error in words.
    pub fn message(&self) -> (r: String)
        ensures
            r@ == self.words(),
    {
        match self {
            ClassifyError::Io { path, message } => {
                let head: String = put_around(
                    "failed to read source ",
                    path.as_str(),
                    " for classification: ",
                );
                joined(head.as_str(), message.as_str())
            },
        }
    }
}

/// How a target relates to what would be written to it, given whether it is there
/// and whether it matches.
pub open spec fn relation(present: bool, matches: bool) -> Disposition {
    if !present {
        Disposition::Create
    } else if matches {
        Disposition::Unchanged
    } else {
        Disposition::Update
    }
}

/// How a target relates to what would be written to it, given whether it is there
/// and whether it matches.
pub fn relate(present: bool, matches: bool) -> (r: Disposition)
    ensures
        r == relation(present, matches),
{
    if !present {
        Disposition::Create
    } else if matches {
        Disposition::Unchanged
    } else {
        Disposition::Update
    }
}

/// Whether a mode makes symbolic links.
pub open spec fn links(mode: FileMode) -> bool {
    mode is Symlink || mode is SymlinkDir || mode is SymlinkTree
}

/// Whether a mode makes symbolic links.
pub fn is_link_mode(mode: FileMode) -> (r: bool)
    ensures
        r == links(mode),
{
    matches!(mode, FileMode::Symlink | FileMode::SymlinkDir | FileMode::SymlinkTree)
}

/// Whether a mode makes an object for each file of a directory.
pub fn is_tree_mode(mode: FileMode) -> (r: bool)
    ensures
        r == walks_a_tree(mode),
{
    matches!(mode, FileMode::SymlinkTree | FileMode::CopyTree)
}

/// The bytes that rendering gave, or none.
pub open spec fn rendered_bytes(rendered: Option<Seq<u8>>) -> Seq<u8> {
    match rendered {
        Some(bytes) => bytes,
        None => Seq::empty(),
    }
}

/// How a target relates to what would be written to it, or `None` where the
/// source of a copy over it cannot be read. Only a copy over something needs its
/// source.
pub open spec fn leaf_relation(
    mode: FileMode,
    source: Seq<char>,
    live: LiveTarget,
    source_bytes: Option<Seq<u8>>,
    rendered: Option<Seq<u8>>,
) -> Option<Disposition> {
    if !live.present {
        Some(Disposition::Create)
    } else if links(mode) {
        Some(relation(true, link_matches(opt_view(live.link), source)))
    } else if mode is TemplateRender {
        Some(
            relation(
                true,
                hash_matches(bytes_view(live.content), blake3_hash(rendered_bytes(rendered))),
            ),
        )
    } else {
        match source_bytes {
            Some(bytes) => Some(
                relation(true, hash_matches(bytes_view(live.content), blake3_hash(bytes))),
            ),
            None => None,
        }
    }
}

/// Bytes that may not have been read.
pub open spec fn read_view(bytes: Result<Vec<u8>, String>) -> Option<Seq<u8>> {
    match bytes {
        Ok(b) => Some(b@),
        Err(_) => None,
    }
}

/// Why bytes were not read, and nothing of those that were.
pub open spec fn failure_text(bytes: Result<Vec<u8>, String>) -> Seq<char> {
    match bytes {
        Ok(_) => Seq::empty(),
        Err(message) => message@,
    }
}

/// How the target of `mode` from `source` relates to what would be written to it.
/// `live` is what stands there, `source_bytes` are the bytes of the source of a
/// copy, or why they cannot be read, and `rendered` is the output of a template.
pub fn classify_leaf(
    mode: FileMode,
    source: &str,
    live: &LiveTarget,
    source_bytes: &Result<Vec<u8>, String>,
    rendered: &Option<Vec<u8>>,
) -> (r: Result<Disposition, ClassifyError>)
    ensures
        match leaf_relation(
            mode,
            source@,
            *live,
            read_view(*source_bytes),
            bytes_view(*rendered),
        ) {
            Some(disposition) => r == Ok::<Disposition, ClassifyError>(disposition),
            None => r matches Err(ClassifyError::Io { path, message }) && path@ == source@
                && message@ == failure_text(*source_bytes),
        },
{
    if !live.present {
        return Ok(Disposition::Create);
    }
    match mode {
        FileMode::Symlink | FileMode::SymlinkDir | FileMode::SymlinkTree => Ok(
            relate(true, symlink_matches(live, source)),
        ),
        FileMode::Copy | FileMode::CopyTree => match source_bytes {
            Ok(bytes) => Ok(
                relate(true, content_matches(live, &content_hash(bytes.as_slice()))),
            ),
            Err(message) => Err(
                ClassifyError::Io { path: source.to_owned(), message: message.clone() },
            ),
        },
        FileMode::TemplateRender => {
            let hash: [u8; 32] = match rendered {
                Some(bytes) => content_hash(bytes.as_slice()),
                None => {
                    let none: Vec<u8> = Vec::new();
                    assert(none@ =~= Seq::<u8>::empty());
                    content_hash(none.as_slice())
                },
            };
            Ok(relate(true, content_matches(live, &hash)))
        },
    }
}

/// Status calls a managed link clean exactly where an apply would leave it
/// unchanged.
pub proof fn clean_links_are_unchanged(
    mode: FileMode,
    source: String,
    live: LiveTarget,
    expected: ExpectedTarget,
)
    requires
        links(mode),
        expected matches ExpectedTarget::Symlink { link_target, .. } && link_target@ == source@,
    ensures
        state_of(expected, true, live) is Clean <==> leaf_relation(mode, source@, live, None, None)
            == Some(Disposition::Unchanged),
{
}

/// Status calls a managed file clean exactly where an apply of the bytes that were
/// recorded would leave it unchanged.
pub proof fn clean_content_is_unchanged(
    mode: FileMode,
    source: Seq<char>,
    bytes: Seq<u8>,
    live: LiveTarget,
    expected: ExpectedTarget,
)
    requires
        mode is Copy || mode is CopyTree,
        expected matches ExpectedTarget::Content { hash, .. } && hash@ == blake3_hash(bytes),
    ensures
        state_of(expected, true, live) is Clean <==> leaf_relation(
            mode,
            source,
            live,
            Some(bytes),
            None,
        ) == Some(Disposition::Unchanged),
{
}

} // verus!
