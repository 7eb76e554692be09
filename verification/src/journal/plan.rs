//! The binary plan record.
//!
//! A plan file is the version envelope followed by the plan body: the number of
//! operations, each operation in turn, and the target of the removal that the
//! plan carries out, if it is one. An operation is the number of its variant
//! followed by its fields.

use crate::text::opt_view;
use crate::text::same_text;
use crate::version_envelope::ENVELOPE_LEN;
use crate::version_envelope::EnvelopeError;
use crate::version_envelope::decode_envelope;
use crate::version_envelope::encode_with_envelope;
use crate::version_envelope::envelope_bytes;
use crate::version_envelope::envelope_major;
use crate::version_envelope::opened;
use crate::wire::put_text;
use crate::wire::put_u32;
use crate::wire::put_u64;
use crate::wire::take_text;
use crate::wire::take_u32;
use crate::wire::take_u64;
use crate::wire::text_bytes;
use crate::wire::text_fits;
use crate::wire::text_read;
use crate::wire::text_reads_back;
use crate::wire::u32_read;
use crate::wire::u32_reads_back;
use crate::wire::u64_read;
use crate::wire::u64_reads_back;
use crate::wire::varint;
use super::Disposition;
use super::JournalError;
use super::error::envelope_refusal;
use super::format::append_disposition;
use super::format::append_encoded;
use super::format::append_optional;
use super::format::disposition_read;
use super::format::disposition_reads_back;
use super::format::optional_bytes;
use super::format::optional_read;
use super::format::optional_reads_back;
use super::format::take_disposition;
use super::format::take_optional;
use vstd::prelude::*;

verus! {

/// The major version of the journal's files. It changes with every layout that
/// an older reader would misread.
pub const FILE_MAJOR_VERSION: u16 = 1;

/// One planned filesystem operation.
#[derive(Debug, Clone, PartialEq, Eq)]
#[non_exhaustive]
pub enum PlannedOperation {
    /// Create a symbolic link at `target` that points at `source`.
    Symlink {
        /// What the link points at.
        source: String,
        /// Absolute path of the link.
        target: String,
        /// How the operation relates to the live filesystem. Of a tree, the
        /// aggregate of its leaves.
        disposition: Disposition,
    },
    /// Render a template from `source` and write the output to `target`.
    Render {
        /// The template.
        source: String,
        /// Absolute path of the output.
        target: String,
        /// How the operation relates to the live filesystem.
        disposition: Disposition,
    },
    /// Copy the bytes of `source` to `target`.
    Copy {
        /// The file to copy.
        source: String,
        /// Absolute path of the copy.
        target: String,
        /// How the operation relates to the live filesystem. Of a tree, the
        /// aggregate of its leaves.
        disposition: Disposition,
    },
    /// Remove `target`, which nothing manages any more.
    Remove {
        /// Absolute path to remove.
        target: String,
    },
}

/// A planned operation with its paths as sequences of characters.
#[verifier::ext_equal]
pub ghost enum OperationModel {
    /// A symbolic link.
    Symlink { source: Seq<char>, target: Seq<char>, disposition: Disposition },
    /// A rendered template.
    Render { source: Seq<char>, target: Seq<char>, disposition: Disposition },
    /// A copy.
    Copy { source: Seq<char>, target: Seq<char>, disposition: Disposition },
    /// A removal.
    Remove { target: Seq<char> },
}

impl View for PlannedOperation {
    type V = OperationModel;

    open spec fn view(&self) -> OperationModel {
        match *self {
            PlannedOperation::Symlink { source, target, disposition } => OperationModel::Symlink {
                source: source@,
                target: target@,
                disposition,
            },
            PlannedOperation::Render { source, target, disposition } => OperationModel::Render {
                source: source@,
                target: target@,
                disposition,
            },
            PlannedOperation::Copy { source, target, disposition } => OperationModel::Copy {
                source: source@,
                target: target@,
                disposition,
            },
            PlannedOperation::Remove { target } => OperationModel::Remove { target: target@ },
        }
    }
}

impl OperationModel {
    /// The path that the operation writes or removes.
    pub open spec fn target(self) -> Seq<char> {
        match self {
            OperationModel::Symlink { target, .. } => target,
            OperationModel::Render { target, .. } => target,
            OperationModel::Copy { target, .. } => target,
            OperationModel::Remove { target } => target,
        }
    }

    /// How the operation relates to the live filesystem. A removal changes a
    /// target that exists.
    pub open spec fn disposition(self) -> Disposition {
        match self {
            OperationModel::Symlink { disposition, .. } => disposition,
            OperationModel::Render { disposition, .. } => disposition,
            OperationModel::Copy { disposition, .. } => disposition,
            OperationModel::Remove { .. } => Disposition::Update,
        }
    }

    /// Whether every text of the operation is short enough to be held.
    pub open spec fn fits(self) -> bool {
        match self {
            OperationModel::Symlink { source, target, .. } => text_fits(source) && text_fits(
                target,
            ),
            OperationModel::Render { source, target, .. } => text_fits(source) && text_fits(target),
            OperationModel::Copy { source, target, .. } => text_fits(source) && text_fits(target),
            OperationModel::Remove { target } => text_fits(target),
        }
    }
}

/// A plan as sequences of characters.
#[verifier::ext_equal]
pub ghost struct PlanModel {
    /// The operations in the order of execution.
    pub operations: Seq<OperationModel>,
    /// The target of the removal that the plan carries out.
    pub removal: Option<Seq<char>>,
}

impl PlanModel {
    /// Whether the plan is small enough to be held.
    pub open spec fn fits(self) -> bool {
        &&& self.operations.len() <= u64::MAX
        &&& forall|i: int| 0 <= i < self.operations.len() ==> (#[trigger] self.operations[i]).fits()
        &&& self.removal matches Some(target) ==> text_fits(target)
    }
}

/// The bytes of two paths and a disposition.
pub open spec fn move_bytes(
    source: Seq<char>,
    target: Seq<char>,
    disposition: Disposition,
) -> Seq<u8> {
    text_bytes(source) + (text_bytes(target) + varint(disposition.code()))
}

/// The bytes of an operation.
pub open spec fn operation_bytes(op: OperationModel) -> Seq<u8> {
    match op {
        OperationModel::Symlink { source, target, disposition } => varint(0) + move_bytes(
            source,
            target,
            disposition,
        ),
        OperationModel::Render { source, target, disposition } => varint(1) + move_bytes(
            source,
            target,
            disposition,
        ),
        OperationModel::Copy { source, target, disposition } => varint(2) + move_bytes(
            source,
            target,
            disposition,
        ),
        OperationModel::Remove { target } => varint(3) + text_bytes(target),
    }
}

/// The bytes of a row of operations.
pub open spec fn operations_bytes(ops: Seq<OperationModel>) -> Seq<u8>
    decreases ops.len(),
{
    if ops.len() == 0 {
        Seq::empty()
    } else {
        operation_bytes(ops[0]) + operations_bytes(ops.drop_first())
    }
}

/// The bytes of a plan's body.
pub open spec fn plan_bytes(plan: PlanModel) -> Seq<u8> {
    varint(plan.operations.len()) + (operations_bytes(plan.operations) + optional_bytes(
        plan.removal,
    ))
}

/// Two paths and a disposition at the front of `bytes`.
pub open spec fn move_read(bytes: Seq<u8>) -> Option<
    ((Seq<char>, Seq<char>, Disposition), Seq<u8>),
> {
    match text_read(bytes) {
        Some((source, rest)) => match text_read(rest) {
            Some((target, rest)) => match disposition_read(rest) {
                Some((disposition, rest)) => Some(((source, target, disposition), rest)),
                None => None,
            },
            None => None,
        },
        None => None,
    }
}

/// An operation at the front of `bytes`.
pub open spec fn operation_read(bytes: Seq<u8>) -> Option<(OperationModel, Seq<u8>)> {
    match u32_read(bytes) {
        Some((variant, rest)) => if variant == 3 {
            match text_read(rest) {
                Some((target, rest)) => Some((OperationModel::Remove { target }, rest)),
                None => None,
            }
        } else {
            match move_read(rest) {
                Some(((source, target, disposition), rest)) => if variant == 0 {
                    Some((OperationModel::Symlink { source, target, disposition }, rest))
                } else if variant == 1 {
                    Some((OperationModel::Render { source, target, disposition }, rest))
                } else if variant == 2 {
                    Some((OperationModel::Copy { source, target, disposition }, rest))
                } else {
                    None
                },
                None => None,
            }
        },
        None => None,
    }
}

/// `count` operations at the front of `bytes`.
pub open spec fn operations_read(bytes: Seq<u8>, count: nat) -> Option<
    (Seq<OperationModel>, Seq<u8>),
>
    decreases count,
{
    if count == 0 {
        Some((Seq::empty(), bytes))
    } else {
        match operation_read(bytes) {
            Some((op, rest)) => match operations_read(rest, (count - 1) as nat) {
                Some((ops, rest)) => Some((seq![op] + ops, rest)),
                None => None,
            },
            None => None,
        }
    }
}

/// The plan whose body `bytes` begins with. What is behind it is not looked at.
pub open spec fn plan_read(bytes: Seq<u8>) -> Option<PlanModel> {
    match u64_read(bytes) {
        Some((count, rest)) => match operations_read(rest, count) {
            Some((operations, rest)) => match optional_read(rest) {
                Some((removal, _)) => Some(PlanModel { operations, removal }),
                None => None,
            },
            None => None,
        },
        None => None,
    }
}

/// An operation is read back.
proof fn operation_reads_back(op: OperationModel, tail: Seq<u8>)
    requires
        op.fits(),
    ensures
        operation_read(operation_bytes(op) + tail) == Some((op, tail)),
{
    match op {
        OperationModel::Symlink { source, target, disposition } => {
            move_reads_back(0, source, target, disposition, tail);
        },
        OperationModel::Render { source, target, disposition } => {
            move_reads_back(1, source, target, disposition, tail);
        },
        OperationModel::Copy { source, target, disposition } => {
            move_reads_back(2, source, target, disposition, tail);
        },
        OperationModel::Remove { target } => {
            assert(operation_bytes(op) + tail =~= varint(3) + (text_bytes(target) + tail));
            u32_reads_back(3, text_bytes(target) + tail);
            text_reads_back(target, tail);
        },
    }
}

/// Two paths and a disposition behind the number of a variant are read back.
proof fn move_reads_back(
    variant: nat,
    source: Seq<char>,
    target: Seq<char>,
    disposition: Disposition,
    tail: Seq<u8>,
)
    requires
        variant <= u32::MAX,
        text_fits(source),
        text_fits(target),
    ensures
        u32_read((varint(variant) + move_bytes(source, target, disposition)) + tail) == Some(
            (variant, move_bytes(source, target, disposition) + tail),
        ),
        move_read(move_bytes(source, target, disposition) + tail) == Some(
            ((source, target, disposition), tail),
        ),
{
    let code = varint(disposition.code());
    let body = move_bytes(source, target, disposition);
    assert((varint(variant) + body) + tail =~= varint(variant) + (body + tail));
    u32_reads_back(variant, body + tail);
    assert(body + tail =~= text_bytes(source) + (text_bytes(target) + (code + tail)));
    text_reads_back(source, text_bytes(target) + (code + tail));
    text_reads_back(target, code + tail);
    disposition_reads_back(disposition, tail);
}

/// A row of operations is read back.
proof fn operations_read_back(ops: Seq<OperationModel>, tail: Seq<u8>)
    requires
        forall|i: int| 0 <= i < ops.len() ==> (#[trigger] ops[i]).fits(),
    ensures
        operations_read(operations_bytes(ops) + tail, ops.len()) == Some((ops, tail)),
    decreases ops.len(),
{
    if ops.len() == 0 {
        assert(operations_bytes(ops) + tail =~= tail);
        assert(ops =~= Seq::<OperationModel>::empty());
    } else {
        let rest = ops.drop_first();
        assert(operations_bytes(ops) + tail =~= operation_bytes(ops[0]) + (operations_bytes(rest)
            + tail));
        operation_reads_back(ops[0], operations_bytes(rest) + tail);
        assert forall|i: int| 0 <= i < rest.len() implies (#[trigger] rest[i]).fits() by {
            assert(rest[i] == ops[i + 1]);
        }
        operations_read_back(rest, tail);
        assert(seq![ops[0]] + rest =~= ops);
    }
}

/// What the bytes of a plan file say.
pub open spec fn plan_file(bytes: Seq<u8>) -> Result<PlanModel, JournalError> {
    match opened(bytes, FILE_MAJOR_VERSION) {
        Err(e) => Err(envelope_refusal(e)),
        Ok(body) => match plan_read(body) {
            Some(plan) => Ok(plan),
            None => Err(JournalError::Decode),
        },
    }
}

/// What a plan was written as is read back as that plan: every operation with
/// its paths and its disposition, in order, and the removal it carries out.
pub proof fn plan_round_trip(plan: PlanModel)
    requires
        plan.fits(),
    ensures
        plan_read(plan_bytes(plan)) == Some(plan),
{
    let end = optional_bytes(plan.removal);
    u64_reads_back(plan.operations.len(), operations_bytes(plan.operations) + end);
    operations_read_back(plan.operations, end);
    optional_reads_back(plan.removal, Seq::empty());
    assert(end + Seq::<u8>::empty() =~= end);
}

/// The models of a row of operations.
pub open spec fn operation_models(ops: Seq<PlannedOperation>) -> Seq<OperationModel> {
    ops.map_values(|op: PlannedOperation| op@)
}

impl PlannedOperation {
    /// A symbolic link at `target` that points at `source`.
    #[must_use]
    pub fn symlink(source: &str, target: &str, disposition: Disposition) -> (op: Self)
        ensures
            op@ == (OperationModel::Symlink { source: source@, target: target@, disposition }),
    {
        PlannedOperation::Symlink {
            source: source.to_owned(),
            target: target.to_owned(),
            disposition,
        }
    }

    /// A template at `source` rendered to `target`.
    #[must_use]
    pub fn render(source: &str, target: &str, disposition: Disposition) -> (op: Self)
        ensures
            op@ == (OperationModel::Render { source: source@, target: target@, disposition }),
    {
        PlannedOperation::Render {
            source: source.to_owned(),
            target: target.to_owned(),
            disposition,
        }
    }

    /// A copy of `source` at `target`.
    #[must_use]
    pub fn copy(source: &str, target: &str, disposition: Disposition) -> (op: Self)
        ensures
            op@ == (OperationModel::Copy { source: source@, target: target@, disposition }),
    {
        PlannedOperation::Copy {
            source: source.to_owned(),
            target: target.to_owned(),
            disposition,
        }
    }

    /// The removal of `target`.
    #[must_use]
    pub fn remove(target: &str) -> (op: Self)
        ensures
            op@ == (OperationModel::Remove { target: target@ }),
    {
        PlannedOperation::Remove { target: target.to_owned() }
    }

    /// How this operation relates to the live filesystem. Of a tree, the
    /// aggregate of its leaves.
    #[must_use]
    pub fn disposition(&self) -> (disposition: Disposition)
        ensures
            disposition == self@.disposition(),
    {
        match self {
            PlannedOperation::Symlink { disposition, .. } => *disposition,
            PlannedOperation::Render { disposition, .. } => *disposition,
            PlannedOperation::Copy { disposition, .. } => *disposition,
            PlannedOperation::Remove { .. } => Disposition::Update,
        }
    }

    /// Append the operation to `bytes`.
    fn append_to(&self, bytes: &mut Vec<u8>) -> (r: Result<(), JournalError>)
        ensures
            r is Ok,
            final(bytes)@ == old(bytes)@ + operation_bytes(self@),
    {
        match self {
            PlannedOperation::Symlink { source, target, disposition } => {
                append_move(bytes, 0, source, target, *disposition)
            },
            PlannedOperation::Render { source, target, disposition } => {
                append_move(bytes, 1, source, target, *disposition)
            },
            PlannedOperation::Copy { source, target, disposition } => {
                append_move(bytes, 2, source, target, *disposition)
            },
            PlannedOperation::Remove { target } => {
                append_encoded(bytes, put_u32(3))?;
                append_encoded(bytes, put_text(target.as_str()))?;
                assert(bytes@ =~= old(bytes)@ + operation_bytes(self@));
                Ok(())
            },
        }
    }

    /// Take an operation from the front of `bytes`.
    fn take_from(bytes: &[u8]) -> (r: Result<(Self, &[u8]), JournalError>)
        ensures
            r is Ok <==> operation_read(bytes@) is Some,
            r matches Ok((op, rest)) ==> operation_read(bytes@) == Some((op@, rest@)),
            r matches Err(e) ==> e == JournalError::Decode,
    {
        let (variant, rest): (u32, &[u8]) = match take_u32(bytes) {
            Ok(taken) => taken,
            Err(_) => return Err(JournalError::Decode),
        };
        if variant == 3 {
            return match take_text(rest) {
                Ok((target, rest)) => Ok((PlannedOperation::Remove { target }, rest)),
                Err(_) => Err(JournalError::Decode),
            };
        }
        let (source, rest): (String, &[u8]) = match take_text(rest) {
            Ok(taken) => taken,
            Err(_) => return Err(JournalError::Decode),
        };
        let (target, rest): (String, &[u8]) = match take_text(rest) {
            Ok(taken) => taken,
            Err(_) => return Err(JournalError::Decode),
        };
        let (disposition, rest): (Disposition, &[u8]) = match take_disposition(rest) {
            Ok(taken) => taken,
            Err(e) => return Err(e),
        };
        match variant {
            0 => Ok((PlannedOperation::Symlink { source, target, disposition }, rest)),
            1 => Ok((PlannedOperation::Render { source, target, disposition }, rest)),
            2 => Ok((PlannedOperation::Copy { source, target, disposition }, rest)),
            _ => Err(JournalError::Decode),
        }
    }
}

/// Append the number of a variant, two paths and a disposition to `bytes`.
fn append_move(
    bytes: &mut Vec<u8>,
    variant: u32,
    source: &String,
    target: &String,
    disposition: Disposition,
) -> (r: Result<(), JournalError>)
    ensures
        r is Ok,
        final(bytes)@ == old(bytes)@ + (varint(variant as nat) + move_bytes(
            source@,
            target@,
            disposition,
        )),
{
    append_encoded(bytes, put_u32(variant))?;
    append_encoded(bytes, put_text(source.as_str()))?;
    append_encoded(bytes, put_text(target.as_str()))?;
    append_disposition(bytes, disposition)?;
    assert(bytes@ =~= old(bytes)@ + (varint(variant as nat) + move_bytes(
        source@,
        target@,
        disposition,
    )));
    Ok(())
}

/// The full set of operations that one run performs, recorded durably before
/// anything changes.
#[derive(Debug, Clone, PartialEq, Eq)]
pub struct Plan {
    operations: Vec<PlannedOperation>,
    removal: Option<String>,
}

impl View for Plan {
    type V = PlanModel;

    closed spec fn view(&self) -> PlanModel {
        PlanModel { operations: operation_models(self.operations@), removal: opt_view(self.removal) }
    }
}

impl Plan {
    /// A plan of an ordered list of operations.
    #[must_use]
    pub fn new(operations: Vec<PlannedOperation>) -> (plan: Self)
        ensures
            plan@ == (PlanModel { operations: operation_models(operations@), removal: None }),
    {
        Plan { operations, removal: None }
    }

    /// A plan that carries out the removal of the declaration of `target`.
    #[must_use]
    pub fn removal(target: &str, operations: Vec<PlannedOperation>) -> (plan: Self)
        ensures
            plan@ == (PlanModel {
                operations: operation_models(operations@),
                removal: Some(target@),
            }),
    {
        Plan { operations, removal: Some(target.to_owned()) }
    }

    /// Whether the plan carries out the removal of the declaration of `target`.
    #[must_use]
    pub fn removes(&self, target: &str) -> (r: bool)
        ensures
            r == (self@.removal == Some(target@)),
    {
        match &self.removal {
            Some(removed) => same_text(removed.as_str(), target),
            None => false,
        }
    }

    /// The operations in the order of execution.
    #[must_use]
    pub fn operations(&self) -> (operations: &[PlannedOperation])
        ensures
            operation_models(operations@) == self@.operations,
    {
        self.operations.as_slice()
    }

    /// The number of operations.
    #[must_use]
    pub fn len(&self) -> (n: usize)
        ensures
            n == self@.operations.len(),
    {
        self.operations.len()
    }

    /// Whether the plan holds no operation.
    #[must_use]
    pub fn is_empty(&self) -> (r: bool)
        ensures
            r == (self@.operations.len() == 0),
    {
        self.operations.len() == 0
    }

    /// The bytes of the plan file: the version envelope and the body.
    pub fn encode(&self) -> (r: Result<Vec<u8>, JournalError>)
        ensures
            r is Ok,
            r->Ok_0@ == envelope_bytes(FILE_MAJOR_VERSION) + plan_bytes(self@),
    {
        let mut body: Vec<u8> = Vec::new();
        append_encoded(&mut body, put_u64(self.operations.len() as u64))?;
        let ghost head = body@;
        let ghost ops = operation_models(self.operations@);
        let mut i: usize = 0;
        assert(ops.skip(0) =~= ops);
        while i < self.operations.len()
            invariant
                i <= self.operations@.len(),
                ops == operation_models(self.operations@),
                body@ + operations_bytes(ops.skip(i as int)) == head + operations_bytes(ops),
            decreases self.operations@.len() - i,
        {
            let ghost before = body@;
            self.operations[i].append_to(&mut body)?;
            proof {
                assert(ops.skip(i as int).drop_first() =~= ops.skip(i + 1));
                assert(before + operations_bytes(ops.skip(i as int)) =~= body@ + operations_bytes(
                    ops.skip(i + 1),
                ));
            }
            i = i + 1;
        }
        assert(ops.skip(i as int) =~= Seq::<OperationModel>::empty());
        assert(body@ =~= head + operations_bytes(ops));
        append_optional(&mut body, &self.removal)?;
        assert(body@ =~= plan_bytes(self@));
        Ok(encode_with_envelope(FILE_MAJOR_VERSION, body.as_slice()))
    }

    /// The major version of a plan file, read without decoding its body.
    pub fn read_envelope_version(bytes: &[u8]) -> (r: Result<u16, JournalError>)
        ensures
            r is Ok <==> bytes@.len() >= ENVELOPE_LEN,
            r matches Ok(major) ==> major == envelope_major(bytes@),
            r matches Err(e) ==> e == (JournalError::Truncated {
                got: bytes@.len() as usize,
                need: ENVELOPE_LEN,
            }),
    {
        match crate::version_envelope::read_envelope_version(bytes) {
            Ok(major) => Ok(major),
            Err(e) => Err(JournalError::from(e)),
        }
    }

    /// The plan of a plan file's bytes. A file that is cut short or of a newer
    /// major version is refused before its body is looked at.
    pub fn decode(bytes: &[u8]) -> (r: Result<Self, JournalError>)
        ensures
            match plan_file(bytes@) {
                Ok(plan) => r is Ok && r->Ok_0@ == plan,
                Err(e) => r == Err::<Plan, JournalError>(e),
            },
    {
        let body: &[u8] = match decode_envelope(bytes, FILE_MAJOR_VERSION) {
            Ok(body) => body,
            Err(e) => return Err(JournalError::from(e)),
        };
        let (count, start): (u64, &[u8]) = match take_u64(body) {
            Ok(taken) => taken,
            Err(_) => return Err(JournalError::Decode),
        };
        let mut operations: Vec<PlannedOperation> = Vec::new();
        let mut rest: &[u8] = start;
        let mut i: u64 = 0;
        assert(operation_models(operations@) =~= Seq::<OperationModel>::empty());
        while i < count
            invariant
                i <= count,
                operations@.len() == i,
                operations_read(start@, count as nat) == (match operations_read(
                    rest@,
                    (count - i) as nat,
                ) {
                    Some((tail, end)) => Some((operation_models(operations@) + tail, end)),
                    None => None,
                }),
                opened(bytes@, FILE_MAJOR_VERSION) == Ok::<Seq<u8>, EnvelopeError>(body@),
                u64_read(body@) == Some((count as nat, start@)),
            decreases count - i,
        {
            let ghost done = operation_models(operations@);
            let (op, behind): (PlannedOperation, &[u8]) = match PlannedOperation::take_from(rest) {
                Ok(taken) => taken,
                Err(e) => return Err(e),
            };
            operations.push(op);
            proof {
                assert(operation_models(operations@) =~= done.push(op@));
                if let Some((tail, end)) = operations_read(behind@, (count - i - 1) as nat) {
                    assert(done + (seq![op@] + tail) =~= done.push(op@) + tail);
                }
            }
            rest = behind;
            i = i + 1;
        }
        assert(operation_models(operations@) + Seq::<OperationModel>::empty() =~= operation_models(
            operations@,
        ));
        let (removal, _behind): (Option<String>, &[u8]) = match take_optional(rest) {
            Ok(taken) => taken,
            Err(e) => return Err(e),
        };
        Ok(Plan { operations, removal })
    }
}

} // verus!
