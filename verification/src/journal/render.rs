//! A decoded plan or commit record for a human reader.
//!
//! The text is for a post-mortem and not a stable format: a header, and a block
//! for each operation or target.

use crate::clock::rfc3339;
use crate::clock::timestamp_to_rfc3339;
use crate::number::decimal;
use crate::number::decimal_text;
use crate::text::opt_view;
use crate::text::strip_suffix;
use crate::text::views;
use crate::text::without_suffix;
use crate::utf8_path::file_name;
use crate::utf8_path::name_stem;
use crate::utf8_path::path_name;
use crate::utf8_path::split_name;
use super::ApplyRecord;
use super::ExpectedTarget;
use super::JournalError;
use super::Plan;
use super::PlannedOperation;
use super::history::sentinel;
use super::names::COMMIT_SUFFIX;
use super::names::PLAN_SUFFIX;
use super::plan::OperationModel;
use super::plan::PlanModel;
use super::plan::operation_models;
use super::plan::plan_file;
use super::record::RecordModel;
use super::record::TargetModel;
use super::record::target_models;
use vstd::prelude::*;

verus! {

/// Errors raised while loading a journal file for a human reader.
#[derive(Debug, Clone, PartialEq, Eq)]
#[non_exhaustive]
pub enum PlanRenderError {
    /// The file could not be read.
    Read {
        /// Its path.
        path: String,
        /// What went wrong.
        message: String,
    },
    /// The bytes are no plan or commit record, or one of a newer library.
    Decode {
        /// The path of the file.
        path: String,
        /// What went wrong.
        source: JournalError,
    },
}

impl PlanRenderError {
    /// The error in words.
    pub open spec fn words(self) -> Seq<char> {
        match self {
            PlanRenderError::Read { path, .. } => "could not read journal file `"@ + path@ + "`"@,
            PlanRenderError::Decode { path, .. } => "could not decode journal file `"@ + path@
                + "`"@,
        }
    }

    /// The error in words.
    pub fn message(&self) -> (r: String)
        ensures
            r@ == self.words(),
    {
        match self {
            PlanRenderError::Read { path, .. } => {
                let mut r: String = "could not read journal file `".to_owned();
                r.append(path.as_str());
                r.append("`");
                r
            },
            PlanRenderError::Decode { path, .. } => {
                let mut r: String = "could not decode journal file `".to_owned();
                r.append(path.as_str());
                r.append("`");
                r
            },
        }
    }
}

/// The ID in the name of a journal file, or the whole path where there is no name
/// or it does not end in the suffix.
pub open spec fn id_in_name(
    path: Seq<char>,
    name: Option<Seq<char>>,
    suffix: Seq<char>,
) -> Seq<char> {
    match name {
        Some(name) => match without_suffix(name, suffix) {
            Some(id) => id,
            None => path,
        },
        None => path,
    }
}

/// The ID in the name that `path` ends in, or the whole path.
pub open spec fn named_id(path: Seq<char>, suffix: Seq<char>) -> Seq<char> {
    id_in_name(path, path_name(path), suffix)
}

/// The ID in the name of a journal file, or the whole path where the name does
/// not end in `suffix`.
pub fn timestamp_from_path(path: &str, suffix: &str) -> (id: String)
    ensures
        id@ == named_id(path@, suffix@),
{
    timestamp_from_name(path, file_name(path), suffix)
}

/// The ID in `name`, the name that `path` ends in, or the whole path where there
/// is no name or it does not end in `suffix`.
pub fn timestamp_from_name(path: &str, name: Option<String>, suffix: &str) -> (id: String)
    ensures
        id@ == id_in_name(path@, opt_view(name), suffix@),
{
    match name {
        Some(name) => match strip_suffix(name.as_str(), suffix) {
            Some(id) => id,
            None => path.to_owned(),
        },
        None => path.to_owned(),
    }
}

/// The ID in the name of a plan file. A name of another shape gives its stem, so that
/// there is something to show, and a path without a name is given back whole.
pub open spec fn plan_id_in_name(path: Seq<char>, name: Option<Seq<char>>) -> Seq<char> {
    match name {
        Some(name) => match without_suffix(name, PLAN_SUFFIX@) {
            Some(id) => id,
            None => name_stem(name),
        },
        None => path,
    }
}

/// The ID in the name that the path of a plan file ends in.
pub open spec fn named_plan_id(path: Seq<char>) -> Seq<char> {
    plan_id_in_name(path, path_name(path))
}

/// The ID in `name`, the name that the path of a plan file ends in, or else the stem
/// of the name.
pub fn plan_id_from_name(path: &str, name: Option<String>) -> (id: String)
    ensures
        id@ == plan_id_in_name(path@, opt_view(name)),
{
    match name {
        Some(name) => match strip_suffix(name.as_str(), PLAN_SUFFIX) {
            Some(id) => id,
            None => split_name(name.as_str()).0,
        },
        None => path.to_owned(),
    }
}

/// The plan and the ID of the plan file at `path`. `contents` are its bytes, or
/// why they could not be read.
pub fn load_plan_file(path: &str, contents: Result<Vec<u8>, String>) -> (r: Result<
    (Plan, String),
    PlanRenderError,
>)
    ensures
        match contents {
            Err(why) => r matches Err(PlanRenderError::Read { path: p, message }) && p@ == path@
                && message == why,
            Ok(bytes) => match plan_file(bytes@) {
                Err(e) => r matches Err(PlanRenderError::Decode { path: p, source }) && p@ == path@
                    && source == e,
                Ok(plan) => r matches Ok((read, id)) && read@ == plan && id@ == named_plan_id(
                    path@,
                ),
            },
        },
{
    match contents {
        Err(message) => Err(PlanRenderError::Read { path: path.to_owned(), message }),
        Ok(bytes) => match Plan::decode(bytes.as_slice()) {
            Ok(plan) => Ok((plan, plan_id_from_name(path, file_name(path)))),
            Err(source) => Err(PlanRenderError::Decode { path: path.to_owned(), source }),
        },
    }
}

/// The record and the ID of the commit sentinel at `path`. `contents` are its
/// bytes, or why they could not be read.
pub fn load_commit_file(path: &str, contents: Result<Vec<u8>, String>) -> (r: Result<
    (ApplyRecord, String),
    PlanRenderError,
>)
    ensures
        match contents {
            Err(why) => r matches Err(PlanRenderError::Read { path: p, message }) && p@ == path@
                && message == why,
            Ok(bytes) => match sentinel(bytes@) {
                Err(e) => r matches Err(PlanRenderError::Decode { path: p, source }) && p@ == path@
                    && source == e,
                Ok(record) => r matches Ok((read, id)) && read@ == record && id@ == named_id(
                    path@,
                    COMMIT_SUFFIX@,
                ),
            },
        },
{
    match contents {
        Err(message) => Err(PlanRenderError::Read { path: path.to_owned(), message }),
        Ok(bytes) => match ApplyRecord::decode(bytes.as_slice()) {
            Ok(record) => Ok((record, timestamp_from_path(path, COMMIT_SUFFIX))),
            Err(source) => Err(PlanRenderError::Decode { path: path.to_owned(), source }),
        },
    }
}

/// The word for what an operation does, what it does it from, and where.
pub open spec fn described(op: OperationModel) -> (Seq<char>, Option<Seq<char>>, Seq<char>) {
    match op {
        OperationModel::Symlink { source, target, .. } => ("symlink"@, Some(source), target),
        OperationModel::Render { source, target, .. } => ("template-render"@, Some(source), target),
        OperationModel::Copy { source, target, .. } => ("copy"@, Some(source), target),
        OperationModel::Remove { target } => ("remove"@, None, target),
    }
}

/// The word for what an operation does, what it does it from, and where.
pub fn describe(op: &PlannedOperation) -> (r: (&'static str, Option<&str>, &str))
    ensures
        r.0@ == described(op@).0,
        r.2@ == described(op@).2,
        match r.1 {
            Some(source) => described(op@).1 == Some(source@),
            None => described(op@).1 is None,
        },
{
    match op {
        PlannedOperation::Symlink { source, target, .. } => (
            "symlink",
            Some(source.as_str()),
            target.as_str(),
        ),
        PlannedOperation::Render { source, target, .. } => (
            "template-render",
            Some(source.as_str()),
            target.as_str(),
        ),
        PlannedOperation::Copy { source, target, .. } => (
            "copy",
            Some(source.as_str()),
            target.as_str(),
        ),
        PlannedOperation::Remove { target } => ("remove", None, target.as_str()),
    }
}

/// A line that names a path.
pub open spec fn path_line(label: Seq<char>, path: Seq<char>) -> Seq<char> {
    label + path + "\n"@
}

/// The block of an operation: its place and mode, its source if it has one, and
/// its target.
pub open spec fn operation_block(index: nat, op: OperationModel) -> Seq<char> {
    let (mode, source, target) = described(op);
    let head = "["@ + decimal(index) + "] "@ + mode + "\n"@;
    let sourced = match source {
        Some(s) => head + path_line("    source: "@, s),
        None => head,
    };
    sourced + path_line("    target: "@, target)
}

/// The blocks of a row of operations.
pub open spec fn operation_blocks(ops: Seq<OperationModel>) -> Seq<char>
    decreases ops.len(),
{
    if ops.len() == 0 {
        Seq::empty()
    } else {
        operation_blocks(ops.drop_last()) + operation_block((ops.len() - 1) as nat, ops.last())
    }
}

/// A plan for a human reader. `time` is the time that the ID stands for.
pub open spec fn plan_text(plan: PlanModel, id: Seq<char>, time: Seq<char>) -> Seq<char> {
    "plan "@ + id + " ("@ + time + "), "@ + decimal(plan.operations.len())
        + " operation(s)\n"@ + operation_blocks(plan.operations)
}

fn line(label: &str, path: &str) -> (r: String)
    ensures
        r@ == path_line(label@, path@),
{
    let mut r: String = label.to_owned();
    r.append(path);
    r.append("\n");
    r
}

fn render_operation(index: usize, op: &PlannedOperation) -> (out: String)
    ensures
        out@ == operation_block(index as nat, op@),
{
    let (mode, source, target): (&str, Option<&str>, &str) = describe(op);
    let mut out: String = "[".to_owned();
    out.append(decimal_text(index as u64).as_str());
    out.append("] ");
    out.append(mode);
    out.append("\n");
    match source {
        Some(source) => out.append(line("    source: ", source).as_str()),
        None => {},
    }
    out.append(line("    target: ", target).as_str());
    out
}

/// A plan and the ID of its run for a human reader: a header with the ID, the
/// time that it stands for and the number of operations, and a block for each
/// operation.
pub fn render_plan(plan: &Plan, timestamp: &str) -> (out: String)
    ensures
        out@ == plan_text(plan@, timestamp@, rfc3339(timestamp@)),
{
    render_plan_at(plan, timestamp, timestamp_to_rfc3339(timestamp).as_str())
}

/// A plan and the ID of its run, which stands for `time`, for a human reader.
pub fn render_plan_at(plan: &Plan, timestamp: &str, time: &str) -> (out: String)
    ensures
        out@ == plan_text(plan@, timestamp@, time@),
{
    let mut blocks: String = String::new();
    let ops: &[PlannedOperation] = plan.operations();
    let ghost all = plan@.operations;
    let mut i: usize = 0;
    assert(blocks@ =~= Seq::<char>::empty());
    while i < ops.len()
        invariant
            i <= ops@.len(),
            all == operation_models(ops@),
            blocks@ == operation_blocks(all.take(i as int)),
        decreases ops@.len() - i,
    {
        proof {
            assert(all.take(i + 1).drop_last() =~= all.take(i as int));
            assert(all.take(i + 1).last() == ops@[i as int]@);
        }
        blocks.append(render_operation(i, &ops[i]).as_str());
        i = i + 1;
    }
    assert(all.take(i as int) =~= all);
    let mut out: String = "plan ".to_owned();
    out.append(timestamp);
    out.append(" (");
    out.append(time);
    out.append("), ");
    out.append(decimal_text(plan.len() as u64).as_str());
    out.append(" operation(s)\n");
    out.append(blocks.as_str());
    out
}

/// The word for what is expected at a target.
pub open spec fn target_kind(t: TargetModel) -> Seq<char> {
    match t {
        TargetModel::Symlink { .. } => "symlink"@,
        TargetModel::Content { .. } => "content"@,
    }
}

/// The block of an expected target.
pub open spec fn target_block(index: nat, t: TargetModel) -> Seq<char> {
    "["@ + decimal(index) + "] "@ + target_kind(t) + ", "@ + t.disposition().word() + ", entry "@
        + decimal(t.entry() as nat) + "\n"@ + path_line("    source: "@, t.source()) + path_line(
        "    target: "@,
        t.target(),
    )
}

/// The blocks of a row of expected targets.
pub open spec fn target_blocks(targets: Seq<TargetModel>) -> Seq<char>
    decreases targets.len(),
{
    if targets.len() == 0 {
        Seq::empty()
    } else {
        target_blocks(targets.drop_last()) + target_block(
            (targets.len() - 1) as nat,
            targets.last(),
        )
    }
}

/// The lines of a row of removed targets.
pub open spec fn reaped_lines(reaped: Seq<Seq<char>>) -> Seq<char>
    decreases reaped.len(),
{
    if reaped.len() == 0 {
        Seq::empty()
    } else {
        reaped_lines(reaped.drop_last()) + path_line("    "@, reaped.last())
    }
}

/// A commit record for a human reader. `time` is the time that the ID stands for.
pub open spec fn record_text(record: RecordModel, id: Seq<char>, time: Seq<char>) -> Seq<char> {
    let head = "commit "@ + id + " ("@ + time + "), "@ + decimal(record.targets.len())
        + " target(s), "@ + decimal(record.reaped.len()) + " reaped\n"@ + "applied by "@
        + record.user + " on "@ + record.host + "\n"@ + target_blocks(record.targets);
    if record.reaped.len() == 0 {
        head
    } else {
        head + "reaped:\n"@ + reaped_lines(record.reaped)
    }
}

fn render_target(index: usize, expected: &ExpectedTarget) -> (out: String)
    ensures
        out@ == target_block(index as nat, expected@),
{
    let kind: &str = match expected {
        ExpectedTarget::Symlink { .. } => "symlink",
        ExpectedTarget::Content { .. } => "content",
    };
    let mut out: String = "[".to_owned();
    out.append(decimal_text(index as u64).as_str());
    out.append("] ");
    out.append(kind);
    out.append(", ");
    out.append(expected.disposition().label());
    out.append(", entry ");
    out.append(decimal_text(expected.entry() as u64).as_str());
    out.append("\n");
    out.append(line("    source: ", expected.source()).as_str());
    out.append(line("    target: ", expected.target()).as_str());
    out
}

fn render_targets(targets: &Vec<ExpectedTarget>) -> (out: String)
    ensures
        out@ == target_blocks(target_models(targets@)),
{
    let ghost all = target_models(targets@);
    let mut out: String = String::new();
    let mut i: usize = 0;
    assert(out@ =~= Seq::<char>::empty());
    while i < targets.len()
        invariant
            i <= targets@.len(),
            all == target_models(targets@),
            out@ == target_blocks(all.take(i as int)),
        decreases targets@.len() - i,
    {
        proof {
            assert(all.take(i + 1).drop_last() =~= all.take(i as int));
            assert(all.take(i + 1).last() == targets@[i as int]@);
        }
        out.append(render_target(i, &targets[i]).as_str());
        i = i + 1;
    }
    assert(all.take(i as int) =~= all);
    out
}

fn render_reaped(reaped: &Vec<String>) -> (out: String)
    ensures
        out@ == reaped_lines(views(reaped@)),
{
    let ghost all = views(reaped@);
    let mut out: String = String::new();
    let mut i: usize = 0;
    assert(out@ =~= Seq::<char>::empty());
    while i < reaped.len()
        invariant
            i <= reaped@.len(),
            all == views(reaped@),
            out@ == reaped_lines(all.take(i as int)),
        decreases reaped@.len() - i,
    {
        proof {
            assert(all.take(i + 1).drop_last() =~= all.take(i as int));
            assert(all.take(i + 1).last() == reaped@[i as int]@);
        }
        out.append(line("    ", reaped[i].as_str()).as_str());
        i = i + 1;
    }
    assert(all.take(i as int) =~= all);
    out
}

/// A commit record and the ID of its run for a human reader.
pub fn render_record(record: &ApplyRecord, timestamp: &str) -> (out: String)
    ensures
        out@ == record_text(record@, timestamp@, rfc3339(timestamp@)),
{
    render_record_at(record, timestamp, timestamp_to_rfc3339(timestamp).as_str())
}

/// A commit record and the ID of its run, which stands for `time`, for a human
/// reader.
pub fn render_record_at(record: &ApplyRecord, timestamp: &str, time: &str) -> (out: String)
    ensures
        out@ == record_text(record@, timestamp@, time@),
{
    let mut out: String = "commit ".to_owned();
    out.append(timestamp);
    out.append(" (");
    out.append(time);
    out.append("), ");
    out.append(decimal_text(record.targets.len() as u64).as_str());
    out.append(" target(s), ");
    out.append(decimal_text(record.reaped.len() as u64).as_str());
    out.append(" reaped\n");
    out.append("applied by ");
    out.append(record.last_apply.user.as_str());
    out.append(" on ");
    out.append(record.last_apply.host.as_str());
    out.append("\n");
    out.append(render_targets(&record.targets).as_str());
    if record.reaped.len() > 0 {
        out.append("reaped:\n");
        out.append(render_reaped(&record.reaped).as_str());
    }
    out
}

} // verus!
