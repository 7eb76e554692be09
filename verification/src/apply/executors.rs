//! What each mode writes.
//!
//! One record stands for each object that is written: a file that is linked,
//! copied or rendered to several targets has one for each of them, and a tree one
//! for each of its files under each of its targets. The records of an operation
//! come in the order in which the objects are written, so that the cursor of the
//! journal, a reversal and the status of the targets all speak of the same row.

use crate::apply::planning::LeafDisposition;
use crate::config::FileMode;
use crate::config::file_entry::has_tmpl_suffix;
use crate::config::file_entry::template_path;
use crate::config::file_entry::walks_a_tree;
use crate::io_failure::IoFailure;
use crate::io_failure::IoKind;
use crate::journal::Disposition;
use crate::journal::mirror_backup_path;
use crate::journal::probe::mirror;
use crate::journal::recovery::Reversal;
use crate::journal::recovery::at;
use crate::journal::recovery::with_at;
use crate::status::among;
use crate::status::is_among;
use crate::text::around;
use crate::text::joined;
use crate::text::put_around;
use crate::text::views;
use crate::utf8_path::join_path;
use crate::utf8_path::path_joined;
use super::classify::is_link_mode;
use super::classify::is_tree_mode;
use super::classify::links;
use super::planning::LeafModel;
use super::planning::TargetDisposition;
use super::planning::leaf_models;
use vstd::prelude::*;

verus! {

/// What was written to a target.
#[derive(Debug, Clone, PartialEq, Eq)]
#[non_exhaustive]
pub enum Materialization {
    /// A symbolic link.
    Symlink {
        /// What it points at.
        link_target: String,
    },
    /// A copy of a file.
    Copy,
    /// The output of a template.
    Render,
}

/// What was written, with its texts as sequences of characters.
#[verifier::ext_equal]
pub ghost enum WrittenModel {
    /// A symbolic link.
    Symlink {
        /// What it points at.
        link_target: Seq<char>,
    },
    /// A copy of a file.
    Copy,
    /// The output of a template.
    Render,
}

impl View for Materialization {
    type V = WrittenModel;

    open spec fn view(&self) -> WrittenModel {
        match *self {
            Materialization::Symlink { link_target } => WrittenModel::Symlink {
                link_target: link_target@,
            },
            Materialization::Copy => WrittenModel::Copy,
            Materialization::Render => WrittenModel::Render,
        }
    }
}

/// Whether content was written, and no link.
pub fn is_content_materialization(materialization: &Materialization) -> (r: bool)
    ensures
        r == !(materialization@ is Symlink),
{
    matches!(materialization, Materialization::Copy | Materialization::Render)
}

/// One object that is written.
#[derive(Debug, Clone, PartialEq, Eq)]
pub struct CompletionRecord {
    /// What it is written from.
    pub source: String,
    /// Where it is written.
    pub target: String,
    /// What is written.
    pub materialization: Materialization,
}

/// A record with its texts as sequences of characters.
#[verifier::ext_equal]
pub ghost struct CompletionModel {
    /// What it is written from.
    pub source: Seq<char>,
    /// Where it is written.
    pub target: Seq<char>,
    /// What is written.
    pub written: WrittenModel,
}

impl View for CompletionRecord {
    type V = CompletionModel;

    open spec fn view(&self) -> CompletionModel {
        CompletionModel {
            source: self.source@,
            target: self.target@,
            written: self.materialization@,
        }
    }
}

/// The models of a row of records.
pub open spec fn completion_models(records: Seq<CompletionRecord>) -> Seq<CompletionModel> {
    records.map_values(|r: CompletionRecord| r@)
}

/// Errors of the executors.
#[derive(Debug, Clone, PartialEq, Eq)]
#[non_exhaustive]
pub enum ExecutorError {
    /// A filesystem operation failed.
    Io {
        /// The path.
        path: String,
        /// What went wrong.
        message: String,
    },
    /// A source is not there.
    SourceMissing {
        /// The source.
        path: String,
    },
    /// A mode that needs a directory was given something else.
    NotADirectory {
        /// The source.
        path: String,
    },
    /// A source that does not end in `.tmpl` was to be rendered.
    NotATemplate {
        /// The source.
        path: String,
    },
    /// Windows did not let the process make a symbolic link.
    WindowsSymlinkPermission {
        /// Where the link was to be.
        target: String,
        /// What went wrong.
        message: String,
    },
    /// A template could not be rendered.
    Template {
        /// What went wrong.
        message: String,
    },
}

/// An error with its texts as sequences of characters.
#[verifier::ext_equal]
pub ghost enum ExecutorFault {
    /// A filesystem operation failed.
    Io {
        /// The path.
        path: Seq<char>,
        /// What went wrong.
        message: Seq<char>,
    },
    /// A source is not there.
    SourceMissing {
        /// The source.
        path: Seq<char>,
    },
    /// A mode that needs a directory was given something else.
    NotADirectory {
        /// The source.
        path: Seq<char>,
    },
    /// A source that does not end in `.tmpl` was to be rendered.
    NotATemplate {
        /// The source.
        path: Seq<char>,
    },
    /// Windows did not let the process make a symbolic link.
    WindowsSymlinkPermission {
        /// Where the link was to be.
        target: Seq<char>,
        /// What went wrong.
        message: Seq<char>,
    },
    /// A template could not be rendered.
    Template {
        /// What went wrong.
        message: Seq<char>,
    },
}

impl View for ExecutorError {
    type V = ExecutorFault;

    open spec fn view(&self) -> ExecutorFault {
        match *self {
            ExecutorError::Io { path, message } => ExecutorFault::Io {
                path: path@,
                message: message@,
            },
            ExecutorError::SourceMissing { path } => ExecutorFault::SourceMissing { path: path@ },
            ExecutorError::NotADirectory { path } => ExecutorFault::NotADirectory { path: path@ },
            ExecutorError::NotATemplate { path } => ExecutorFault::NotATemplate { path: path@ },
            ExecutorError::WindowsSymlinkPermission {
                target,
                message,
            } => ExecutorFault::WindowsSymlinkPermission { target: target@, message: message@ },
            ExecutorError::Template { message } => ExecutorFault::Template { message: message@ },
        }
    }
}

impl ExecutorFault {
    /// The error in words.
    pub open spec fn words(self) -> Seq<char> {
        match self {
            ExecutorFault::Io { path, message } => around(
                "filesystem operation failed for "@,
                path,
                ": "@,
            ) + message,
            ExecutorFault::SourceMissing { path } => around(
                "symlink source "@,
                path,
                " does not exist"@,
            ),
            ExecutorFault::NotADirectory { path } => around(
                "mode requires a directory source but "@,
                path,
                " is not a directory"@,
            ),
            ExecutorFault::NotATemplate { path } => around(
                "template source "@,
                path,
                " does not carry a `.tmpl` suffix"@,
            ),
            ExecutorFault::WindowsSymlinkPermission { target, message } => around(
                "creating a symbolic link at "@,
                target,
                " requires Windows Developer Mode or an elevated process: "@,
            ) + message,
            ExecutorFault::Template { message } => message,
        }
    }
}

impl ExecutorError {
    /// The error in words.
    pub fn message(&self) -> (r: String)
        ensures
            r@ == self@.words(),
    {
        match self {
            ExecutorError::Io { path, message } => {
                let head: String = put_around(
                    "filesystem operation failed for ",
                    path.as_str(),
                    ": ",
                );
                joined(head.as_str(), message.as_str())
            },
            ExecutorError::SourceMissing { path } => put_around(
                "symlink source ",
                path.as_str(),
                " does not exist",
            ),
            ExecutorError::NotADirectory { path } => put_around(
                "mode requires a directory source but ",
                path.as_str(),
                " is not a directory",
            ),
            ExecutorError::NotATemplate { path } => put_around(
                "template source ",
                path.as_str(),
                " does not carry a `.tmpl` suffix",
            ),
            ExecutorError::WindowsSymlinkPermission { target, message } => {
                let head: String = put_around(
                    "creating a symbolic link at ",
                    target.as_str(),
                    " requires Windows Developer Mode or an elevated process: ",
                );
                joined(head.as_str(), message.as_str())
            },
            ExecutorError::Template { message } => message.clone(),
        }
    }
}

/// The error for a symbolic link that could not be made. On Windows a denied
/// permission means that Developer Mode is off and the process is not elevated.
pub fn classify_symlink_error(target: &str, failure: &IoFailure, windows: bool) -> (r:
    ExecutorError)
    ensures
        r@ == if windows && failure.kind is PermissionDenied {
            ExecutorFault::WindowsSymlinkPermission {
                target: target@,
                message: failure.message@,
            }
        } else {
            ExecutorFault::Io { path: target@, message: failure.message@ }
        },
{
    if windows && failure.kind == IoKind::PermissionDenied {
        ExecutorError::WindowsSymlinkPermission {
            target: target.to_owned(),
            message: failure.message.clone(),
        }
    } else {
        ExecutorError::Io { path: target.to_owned(), message: failure.message.clone() }
    }
}

/// What stands at a source.
#[derive(Debug, Clone, PartialEq, Eq)]
pub enum SourceState {
    /// Nothing.
    Missing,
    /// It could not be looked at.
    Unreadable {
        /// What went wrong.
        message: String,
    },
    /// A directory.
    Directory,
    /// Anything else.
    File,
}

/// Which files of a tree are written.
#[derive(Debug, Clone, PartialEq, Eq)]
pub enum LeafWrite {
    /// Every file.
    All,
    /// These files, named by their paths from the root of the tree.
    Only(Vec<String>),
}

/// Whether a file of a tree is written.
pub open spec fn included(write: LeafWrite, relative: Seq<char>) -> bool {
    match write {
        LeafWrite::All => true,
        LeafWrite::Only(files) => among(views(files@), relative),
    }
}

impl LeafWrite {
    /// Whether the file `relative` of a tree is written.
    pub fn includes(&self, relative: &str) -> (r: bool)
        ensures
            r == included(*self, relative@),
    {
        match self {
            LeafWrite::All => true,
            LeafWrite::Only(files) => is_among(files, relative),
        }
    }
}

/// The record of an object that a mode writes.
pub open spec fn record_of(mode: FileMode, source: Seq<char>, target: Seq<char>) -> CompletionModel {
    CompletionModel {
        source,
        target,
        written: if links(mode) {
            WrittenModel::Symlink { link_target: source }
        } else if mode is TemplateRender {
            WrittenModel::Render
        } else {
            WrittenModel::Copy
        },
    }
}

/// The records of the files of a tree that are written under a target, in order.
pub open spec fn leaf_records(
    mode: FileMode,
    source: Seq<char>,
    target: Seq<char>,
    leaves: Seq<Seq<char>>,
    write: LeafWrite,
) -> Seq<CompletionModel>
    decreases leaves.len(),
{
    if leaves.len() == 0 {
        Seq::empty()
    } else {
        let before = leaf_records(mode, source, target, leaves.drop_last(), write);
        let leaf = leaves.last();
        if included(write, leaf) {
            before.push(record_of(mode, path_joined(source, leaf), path_joined(target, leaf)))
        } else {
            before
        }
    }
}

/// The records of the files of a tree that are written under each of a row of
/// targets, target by target.
pub open spec fn tree_records(
    mode: FileMode,
    source: Seq<char>,
    targets: Seq<Seq<char>>,
    leaves: Seq<Seq<char>>,
    write: LeafWrite,
) -> Seq<CompletionModel>
    decreases targets.len(),
{
    if targets.len() == 0 {
        Seq::empty()
    } else {
        tree_records(mode, source, targets.drop_last(), leaves, write) + leaf_records(
            mode,
            source,
            targets.last(),
            leaves,
            write,
        )
    }
}

/// The records of a source that is written as one object to each of a row of
/// targets.
pub open spec fn flat_records(mode: FileMode, source: Seq<char>, targets: Seq<Seq<char>>) -> Seq<
    CompletionModel,
> {
    targets.map_values(|t: Seq<char>| record_of(mode, source, t))
}

/// Whether a mode writes one object for each file of its source: a tree does, and
/// so does a link to a directory where the mode links single files.
pub open spec fn writes_leaves(mode: FileMode, state: SourceState) -> bool {
    walks_a_tree(mode) || (mode is Symlink && state is Directory)
}

/// What is wrong with a source, for a mode. `tmpl` says whether it ends in `.tmpl`.
pub open spec fn source_fault(
    mode: FileMode,
    source: Seq<char>,
    state: SourceState,
    tmpl: bool,
) -> Option<ExecutorFault> {
    if state is Missing {
        Some(ExecutorFault::SourceMissing { path: source })
    } else if mode is Copy || mode is TemplateRender {
        if state is Unreadable {
            Some(ExecutorFault::SourceMissing { path: source })
        } else if mode is TemplateRender && !tmpl {
            Some(ExecutorFault::NotATemplate { path: source })
        } else {
            None
        }
    } else if state is Unreadable {
        Some(ExecutorFault::Io { path: source, message: state->message@ })
    } else if state is File && !(mode is Symlink) {
        Some(ExecutorFault::NotADirectory { path: source })
    } else {
        None
    }
}

/// The error that `source_fault` tells.
fn find_source_fault(mode: FileMode, source: &str, state: &SourceState, tmpl: bool) -> (r: Option<
    ExecutorError,
>)
    ensures
        match source_fault(mode, source@, *state, tmpl) {
            Some(fault) => r matches Some(e) && e@ == fault,
            None => r is None,
        },
{
    match state {
        SourceState::Missing => Some(ExecutorError::SourceMissing { path: source.to_owned() }),
        SourceState::Unreadable { message } => {
            if matches!(mode, FileMode::Copy | FileMode::TemplateRender) {
                Some(ExecutorError::SourceMissing { path: source.to_owned() })
            } else {
                Some(ExecutorError::Io { path: source.to_owned(), message: message.clone() })
            }
        },
        SourceState::Directory => {
            if matches!(mode, FileMode::TemplateRender) && !tmpl {
                Some(ExecutorError::NotATemplate { path: source.to_owned() })
            } else {
                None
            }
        },
        SourceState::File => match mode {
            FileMode::Symlink | FileMode::Copy => None,
            FileMode::TemplateRender => {
                if tmpl {
                    None
                } else {
                    Some(ExecutorError::NotATemplate { path: source.to_owned() })
                }
            },
            _ => Some(ExecutorError::NotADirectory { path: source.to_owned() }),
        },
    }
}

fn make_record(mode: FileMode, source: String, target: String) -> (r: CompletionRecord)
    ensures
        r@ == record_of(mode, source@, target@),
{
    let materialization: Materialization = if is_link_mode(mode) {
        Materialization::Symlink { link_target: source.clone() }
    } else if matches!(mode, FileMode::TemplateRender) {
        Materialization::Render
    } else {
        Materialization::Copy
    };
    CompletionRecord { source, target, materialization }
}

fn push_leaf_records(
    records: &mut Vec<CompletionRecord>,
    mode: FileMode,
    source: &str,
    target: &str,
    leaves: &Vec<String>,
    write: &LeafWrite,
)
    ensures
        completion_models(final(records)@) == completion_models(old(records)@) + leaf_records(
            mode,
            source@,
            target@,
            views(leaves@),
            *write,
        ),
{
    let ghost before = completion_models(records@);
    let ghost all = views(leaves@);
    let mut i: usize = 0;
    assert(before + leaf_records(mode, source@, target@, all.take(0), *write) =~= before);
    while i < leaves.len()
        invariant
            i <= leaves@.len(),
            all == views(leaves@),
            completion_models(records@) == before + leaf_records(
                mode,
                source@,
                target@,
                all.take(i as int),
                *write,
            ),
        decreases leaves@.len() - i,
    {
        let ghost now = completion_models(records@);
        proof {
            assert(all.take(i + 1).drop_last() =~= all.take(i as int));
            assert(all.take(i + 1).last() == leaves@[i as int]@);
        }
        if write.includes(leaves[i].as_str()) {
            let record: CompletionRecord = make_record(
                mode,
                join_path(source, leaves[i].as_str()),
                join_path(target, leaves[i].as_str()),
            );
            let ghost r = record@;
            records.push(record);
            proof {
                assert(completion_models(records@) =~= now.push(r));
                assert(completion_models(records@) =~= before + leaf_records(
                    mode,
                    source@,
                    target@,
                    all.take(i + 1),
                    *write,
                ));
            }
        }
        i = i + 1;
    }
    assert(all.take(i as int) =~= all);
}

/// The objects that a mode writes from `source` to each of `targets`, in the order
/// in which they are written, or why it writes none. `leaves` are the files of the
/// source, if it is a directory. Only the two tree modes leave files out. A
/// template is rendered once, and the same bytes go to every target.
pub fn materialize(
    mode: FileMode,
    source: &str,
    state: &SourceState,
    targets: &Vec<String>,
    leaves: &Vec<String>,
    write: &LeafWrite,
) -> (r: Result<Vec<CompletionRecord>, ExecutorError>)
    ensures
        match source_fault(mode, source@, *state, template_path(source@)) {
            Some(fault) => r matches Err(e) && e@ == fault,
            None => r matches Ok(records) && completion_models(records@) == if writes_leaves(
                mode,
                *state,
            ) {
                tree_records(
                    mode,
                    source@,
                    views(targets@),
                    views(leaves@),
                    if walks_a_tree(mode) {
                        *write
                    } else {
                        LeafWrite::All
                    },
                )
            } else {
                flat_records(mode, source@, views(targets@))
            },
        },
{
    let tmpl: bool = has_tmpl_suffix(source);
    match find_source_fault(mode, source, state, tmpl) {
        Some(e) => return Err(e),
        None => {},
    }
    let by_leaf: bool = is_tree_mode(mode) || (matches!(mode, FileMode::Symlink) && matches!(
        state,
        SourceState::Directory
    ));
    let every: LeafWrite = LeafWrite::All;
    let which: &LeafWrite = if is_tree_mode(mode) {
        write
    } else {
        &every
    };
    let ghost all = views(targets@);
    let ghost files = views(leaves@);
    let mut records: Vec<CompletionRecord> = Vec::new();
    assert(completion_models(records@) =~= Seq::<CompletionModel>::empty());
    assert(flat_records(mode, source@, all.take(0)) =~= Seq::<CompletionModel>::empty());
    let mut i: usize = 0;
    while i < targets.len()
        invariant
            i <= targets@.len(),
            all == views(targets@),
            files == views(leaves@),
            completion_models(records@) == if by_leaf {
                tree_records(mode, source@, all.take(i as int), files, *which)
            } else {
                flat_records(mode, source@, all.take(i as int))
            },
        decreases targets@.len() - i,
    {
        let ghost now = completion_models(records@);
        proof {
            assert(all.take(i + 1).drop_last() =~= all.take(i as int));
            assert(all.take(i + 1).last() == targets@[i as int]@);
        }
        if by_leaf {
            push_leaf_records(&mut records, mode, source, targets[i].as_str(), leaves, which);
        } else {
            let record: CompletionRecord = make_record(
                mode,
                source.to_owned(),
                targets[i].clone(),
            );
            let ghost r = record@;
            records.push(record);
            proof {
                assert(completion_models(records@) =~= now.push(r));
                assert(flat_records(mode, source@, all.take(i + 1)) =~= flat_records(
                    mode,
                    source@,
                    all.take(i as int),
                ).push(r));
            }
        }
        i = i + 1;
    }
    assert(all.take(i as int) =~= all);
    Ok(records)
}

/// What is done with a target.
#[derive(Debug, Clone, PartialEq, Eq)]
pub enum TargetWork {
    /// Nothing: it is neither backed up nor written.
    Skip,
    /// It is backed up, if it is there, and written.
    Write {
        /// Which files of a tree are written.
        write: LeafWrite,
    },
}

/// The files of a tree that differ from what would be written.
pub open spec fn drifted(leaves: Seq<LeafModel>) -> Seq<Seq<char>>
    decreases leaves.len(),
{
    if leaves.len() == 0 {
        Seq::empty()
    } else {
        let before = drifted(leaves.drop_last());
        if leaves.last().disposition is Unchanged {
            before
        } else {
            before.push(leaves.last().relative)
        }
    }
}

/// Whether `work` is what is done with a target of a mode and a relation.
pub open spec fn is_work(mode: FileMode, relation: TargetDisposition, work: TargetWork) -> bool {
    if relation.aggregate is Unchanged {
        work is Skip
    } else if walks_a_tree(mode) && relation.aggregate is Update {
        work matches TargetWork::Write { write } && write matches LeafWrite::Only(files)
            && views(files@) == drifted(leaf_models(relation.leaves@))
    } else {
        work == (TargetWork::Write { write: LeafWrite::All })
    }
}

/// What is done with a target, by how it relates to what would be written. An
/// unchanged target is left alone. Of a tree that differs in part, only the files
/// that differ are written, so that the others keep their place on the disk and
/// their times.
pub fn materialize_target(mode: FileMode, disposition: &TargetDisposition) -> (work: TargetWork)
    ensures
        is_work(mode, *disposition, work),
        work is Skip <==> disposition.aggregate == Disposition::Unchanged,
        disposition.aggregate != Disposition::Unchanged && mode != FileMode::SymlinkTree && mode
            != FileMode::CopyTree ==> work == (TargetWork::Write { write: LeafWrite::All }),
{
    if disposition.aggregate == Disposition::Unchanged {
        return TargetWork::Skip;
    }
    if !is_tree_mode(mode) || disposition.aggregate == Disposition::Create {
        return TargetWork::Write { write: LeafWrite::All };
    }
    let ghost all = leaf_models(disposition.leaves@);
    let mut files: Vec<String> = Vec::new();
    assert(views(files@) =~= Seq::<Seq<char>>::empty());
    let mut i: usize = 0;
    while i < disposition.leaves.len()
        invariant
            i <= disposition.leaves@.len(),
            all == leaf_models(disposition.leaves@),
            views(files@) == drifted(all.take(i as int)),
        decreases disposition.leaves@.len() - i,
    {
        let ghost before = views(files@);
        let leaf: &LeafDisposition = &disposition.leaves[i];
        proof {
            assert(all.take(i + 1).drop_last() =~= all.take(i as int));
            assert(all.take(i + 1).last() == leaf@);
        }
        if leaf.disposition != Disposition::Unchanged {
            files.push(leaf.relative.clone());
            assert(views(files@) =~= before.push(leaf.relative@));
        }
        i = i + 1;
    }
    assert(all.take(i as int) =~= all);
    TargetWork::Write { write: LeafWrite::Only(files) }
}

/// A file of a tree that is left out is not written: every record is that of a
/// file that the write takes in.
pub proof fn left_out_files_are_not_written(
    mode: FileMode,
    source: Seq<char>,
    target: Seq<char>,
    leaves: Seq<Seq<char>>,
    write: LeafWrite,
    i: int,
)
    requires
        0 <= i < leaf_records(mode, source, target, leaves, write).len(),
    ensures
        exists|k: int|
            0 <= k < leaves.len() && included(write, #[trigger] leaves[k]) && leaf_records(
                mode,
                source,
                target,
                leaves,
                write,
            )[i] == record_of(mode, path_joined(source, leaves[k]), path_joined(target, leaves[k])),
    decreases leaves.len(),
{
    let front = leaves.drop_last();
    let before = leaf_records(mode, source, target, front, write);
    if i < before.len() {
        left_out_files_are_not_written(mode, source, target, front, write, i);
        let k = choose|k: int|
            0 <= k < front.len() && included(write, #[trigger] front[k]) && before[i] == record_of(
                mode,
                path_joined(source, front[k]),
                path_joined(target, front[k]),
            );
        assert(leaves[k] == front[k]);
    } else {
        assert(leaves[leaves.len() - 1] == leaves.last());
    }
}

/// One object to take back.
#[derive(Debug, Clone, PartialEq, Eq)]
pub struct UndoStep {
    /// Where it was written.
    pub target: String,
    /// Where the backup of what was there lies, if there is one.
    pub backup: String,
}

/// A step with its paths as sequences of characters.
#[verifier::ext_equal]
pub ghost struct UndoModel {
    /// Where it was written.
    pub target: Seq<char>,
    /// Where the backup of what was there lies.
    pub backup: Seq<char>,
}

impl View for UndoStep {
    type V = UndoModel;

    open spec fn view(&self) -> UndoModel {
        UndoModel { target: self.target@, backup: self.backup@ }
    }
}

/// The models of a row of steps.
pub open spec fn undo_models(steps: Seq<UndoStep>) -> Seq<UndoModel> {
    steps.map_values(|s: UndoStep| s@)
}

/// The steps that take back what a run has written, the last object first. A
/// backup is restored; without one the object is removed.
pub fn reverse_completed(completed: &Vec<CompletionRecord>, backups_dir: &str, timestamp: &str) -> (r:
    Vec<UndoStep>)
    ensures
        undo_models(r@) == undo_steps(completion_models(completed@), backups_dir@, timestamp@),
{
    let mut r: Vec<UndoStep> = Vec::new();
    let ghost all = completion_models(completed@).reverse();
    let mut i: usize = completed.len();
    while i > 0
        invariant
            i <= completed@.len(),
            all == completion_models(completed@).reverse(),
            r@.len() == completed@.len() - i,
            forall|k: int|
                0 <= k < r@.len() ==> (#[trigger] r@[k])@ == (UndoModel {
                    target: all[k].target,
                    backup: mirror(backups_dir@, timestamp@, all[k].target),
                }),
        decreases i,
    {
        i = i - 1;
        let target: &String = &completed[i].target;
        assert(all[completed@.len() - 1 - i] == completed@[i as int]@);
        r.push(
            UndoStep {
                target: target.clone(),
                backup: mirror_backup_path(backups_dir, timestamp, target.as_str()),
            },
        );
    }
    assert(undo_models(r@) =~= undo_steps(
        completion_models(completed@),
        backups_dir@,
        timestamp@,
    ));
    r
}

/// What taking back an object does to its place, by whether there is a backup of what
/// was there.
pub open spec fn undoing(has_backup: bool) -> Reversal {
    if has_backup {
        Reversal::Restore
    } else {
        Reversal::Delete
    }
}

/// What taking back an object does to its place, by whether there is a backup of what
/// was there. A link at the place of the backup is a backup, wherever it points.
pub fn undo_object(has_backup: bool) -> (r: Reversal)
    ensures
        r == undoing(has_backup),
{
    if has_backup {
        Reversal::Restore
    } else {
        Reversal::Delete
    }
}

/// What stands at a place after a step, given what its backup holds and what stood
/// there.
pub open spec fn undone<E>(backup: Option<E>, live: Option<E>) -> Option<E> {
    match undoing(backup is Some) {
        Reversal::Leave => live,
        Reversal::Restore => backup,
        Reversal::Delete => None,
    }
}

/// A filesystem after what a run has written is taken back, the last object first: each
/// target gets what its backup holds, or nothing where it has none.
pub open spec fn undone_world<E>(
    records: Seq<CompletionModel>,
    backups: Map<Seq<char>, E>,
    world: Map<Seq<char>, E>,
) -> Map<Seq<char>, E>
    decreases records.len(),
{
    if records.len() == 0 {
        world
    } else {
        undone_world(
            records.drop_last(),
            backups,
            with_at(
                world,
                records.last().target,
                undone(at(backups, records.last().target), at(world, records.last().target)),
            ),
        )
    }
}

/// A filesystem after a row of steps is taken, one after the other. `backups` says what
/// stands at each place of a backup.
pub open spec fn after_undo_steps<E>(
    steps: Seq<UndoModel>,
    backups: Map<Seq<char>, E>,
    world: Map<Seq<char>, E>,
) -> Map<Seq<char>, E>
    decreases steps.len(),
{
    if steps.len() == 0 {
        world
    } else {
        let w = after_undo_steps(steps.drop_last(), backups, world);
        let step = steps.last();
        with_at(w, step.target, undone(at(backups, step.backup), at(w, step.target)))
    }
}

/// The steps that take back a row of written objects, the last one first.
pub open spec fn undo_steps(
    records: Seq<CompletionModel>,
    backups_dir: Seq<char>,
    timestamp: Seq<char>,
) -> Seq<UndoModel> {
    records.reverse().map_values(
        |c: CompletionModel| UndoModel {
            target: c.target,
            backup: mirror(backups_dir, timestamp, c.target),
        },
    )
}

/// The steps that take back what a run has written give every path back what it held
/// before the run, in kind, where the backup of each object holds what was there, and
/// is missing where nothing was, and nothing but the objects was touched.
pub proof fn undo_steps_restore<E>(
    records: Seq<CompletionModel>,
    backups_dir: Seq<char>,
    timestamp: Seq<char>,
    before: Map<Seq<char>, E>,
    backups: Map<Seq<char>, E>,
    world: Map<Seq<char>, E>,
    path: Seq<char>,
)
    requires
        forall|i: int|
            0 <= i < records.len() ==> at(
                backups,
                mirror(backups_dir, timestamp, (#[trigger] records[i]).target),
            ) == at(before, records[i].target),
        (exists|i: int| 0 <= i < records.len() && (#[trigger] records[i]).target == path) || at(
            world,
            path,
        ) == at(before, path),
    ensures
        at(
            after_undo_steps(undo_steps(records, backups_dir, timestamp), backups, world),
            path,
        ) == at(before, path),
    decreases records.len(),
{
    let steps = undo_steps(records, backups_dir, timestamp);
    if records.len() > 0 {
        let first = records[0];
        let rest = records.drop_first();
        assert(steps.last() == (UndoModel {
            target: first.target,
            backup: mirror(backups_dir, timestamp, first.target),
        }));
        assert(steps.drop_last() =~= undo_steps(rest, backups_dir, timestamp));
        assert forall|i: int| 0 <= i < rest.len() implies at(
            backups,
            mirror(backups_dir, timestamp, (#[trigger] rest[i]).target),
        ) == at(before, rest[i].target) by {
            assert(rest[i] == records[i + 1]);
        }
        if first.target != path {
            if exists|i: int| 0 <= i < records.len() && (#[trigger] records[i]).target == path {
                let i = choose|i: int|
                    0 <= i < records.len() && (#[trigger] records[i]).target == path;
                assert(rest[i - 1].target == path);
            }
            undo_steps_restore(rest, backups_dir, timestamp, before, backups, world, path);
        }
    }
}

/// Taking back what a run has written leaves every path as it was before the run, where
/// the backup of each target holds what was there and nothing else was touched.
pub proof fn undoing_restores<E>(
    records: Seq<CompletionModel>,
    before: Map<Seq<char>, E>,
    backups: Map<Seq<char>, E>,
    world: Map<Seq<char>, E>,
    path: Seq<char>,
)
    requires
        forall|i: int|
            0 <= i < records.len() ==> at(backups, (#[trigger] records[i]).target) == at(
                before,
                records[i].target,
            ),
        (exists|i: int| 0 <= i < records.len() && (#[trigger] records[i]).target == path) || at(
            world,
            path,
        ) == at(before, path),
    ensures
        at(undone_world(records, backups, world), path) == at(before, path),
    decreases records.len(),
{
    if records.len() > 0 {
        let front = records.drop_last();
        let last = records.last();
        let next = with_at(world, last.target, at(backups, last.target));
        assert(records[records.len() - 1] == last);
        assert forall|i: int| 0 <= i < front.len() implies at(
            backups,
            (#[trigger] front[i]).target,
        ) == at(before, front[i].target) by {
            assert(front[i] == records[i]);
        }
        if last.target != path && exists|i: int|
            0 <= i < records.len() && (#[trigger] records[i]).target == path {
            let i = choose|i: int| 0 <= i < records.len() && (#[trigger] records[i]).target == path;
            assert(front[i].target == path);
        }
        undoing_restores(front, before, backups, next, path);
    }
}

} // verus!
