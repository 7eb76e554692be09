//! The committed apply record that a `<id>.COMMIT` sentinel holds.
//!
//! The record names who applied, when and where, the expected state of every
//! managed target, the targets that the run reaped, and whether the record is a
//! checkpoint that stands for no write. It is the version envelope followed by
//! these fields in turn.

use crate::text::views;
use crate::version_envelope::decode_envelope;
use crate::version_envelope::encode_with_envelope;
use crate::version_envelope::envelope_bytes;
use crate::version_envelope::opened;
use crate::wire::flag_bytes;
use crate::wire::flag_read;
use crate::wire::flag_reads_back;
use crate::wire::hash_read;
use crate::wire::hash_reads_back;
use crate::wire::put_flag;
use crate::wire::put_hash;
use crate::wire::put_text;
use crate::wire::put_u32;
use crate::wire::put_u64;
use crate::wire::take_flag;
use crate::wire::take_hash;
use crate::wire::take_text;
use crate::wire::take_u32;
use crate::wire::take_u64;
use crate::wire::text_bytes;
use crate::wire::text_fits;
use crate::wire::text_read;
use crate::wire::text_reads_back;
use crate::wire::u32_read;
use crate::wire::u32_reads_back;
use crate::wire::u64_read;
use crate::wire::u64_reads_back;
use crate::wire::varint;
use super::Disposition;
use super::JournalError;
use super::error::envelope_refusal;
use super::format::append_disposition;
use super::format::append_encoded;
use super::format::disposition_read;
use super::format::disposition_reads_back;
use super::format::take_disposition;
use super::plan::FILE_MAJOR_VERSION;
use vstd::prelude::*;

verus! {

/// The expected state of one materialized target.
#[derive(Debug, Clone, PartialEq, Eq)]
#[non_exhaustive]
pub enum ExpectedTarget {
    /// The target is a symbolic link to `link_target`, which is also the source
    /// that it was made from.
    Symlink {
        /// Canonical absolute path of the link.
        target: String,
        /// Canonical absolute path that the link points at.
        link_target: String,
        /// Index of the entry that made this target. Targets of one entry are
        /// rolled back together.
        entry: u32,
        /// How the target was classified at plan time.
        disposition: Disposition,
    },
    /// The target is a regular file whose bytes hash to `hash`.
    Content {
        /// Canonical absolute path of the file.
        target: String,
        /// Canonical absolute path that the bytes were copied or rendered from.
        source: String,
        /// The content hash of the expected bytes.
        hash: [u8; 32],
        /// Index of the entry that made this target.
        entry: u32,
        /// How the target was classified at plan time.
        disposition: Disposition,
    },
}

/// An expected target with its paths as sequences of characters.
#[verifier::ext_equal]
pub ghost enum TargetModel {
    /// A symbolic link.
    Symlink { target: Seq<char>, link_target: Seq<char>, entry: u32, disposition: Disposition },
    /// A file with known content.
    Content {
        target: Seq<char>,
        source: Seq<char>,
        hash: Seq<u8>,
        entry: u32,
        disposition: Disposition,
    },
}

impl View for ExpectedTarget {
    type V = TargetModel;

    open spec fn view(&self) -> TargetModel {
        match *self {
            ExpectedTarget::Symlink { target, link_target, entry, disposition } =>
                TargetModel::Symlink {
                target: target@,
                link_target: link_target@,
                entry,
                disposition,
            },
            ExpectedTarget::Content { target, source, hash, entry, disposition } =>
                TargetModel::Content {
                target: target@,
                source: source@,
                hash: hash@,
                entry,
                disposition,
            },
        }
    }
}

impl TargetModel {
    /// The path that the expectation is for.
    pub open spec fn target(self) -> Seq<char> {
        match self {
            TargetModel::Symlink { target, .. } => target,
            TargetModel::Content { target, .. } => target,
        }
    }

    /// The path that the target was made from.
    pub open spec fn source(self) -> Seq<char> {
        match self {
            TargetModel::Symlink { link_target, .. } => link_target,
            TargetModel::Content { source, .. } => source,
        }
    }

    /// The index of the entry that made the target.
    pub open spec fn entry(self) -> u32 {
        match self {
            TargetModel::Symlink { entry, .. } => entry,
            TargetModel::Content { entry, .. } => entry,
        }
    }

    /// How the target was classified at plan time.
    pub open spec fn disposition(self) -> Disposition {
        match self {
            TargetModel::Symlink { disposition, .. } => disposition,
            TargetModel::Content { disposition, .. } => disposition,
        }
    }

    /// The same expectation under another disposition.
    pub open spec fn with_disposition(self, to: Disposition) -> TargetModel {
        match self {
            TargetModel::Symlink { target, link_target, entry, .. } => TargetModel::Symlink {
                target,
                link_target,
                entry,
                disposition: to,
            },
            TargetModel::Content { target, source, hash, entry, .. } => TargetModel::Content {
                target,
                source,
                hash,
                entry,
                disposition: to,
            },
        }
    }

    /// Whether the expectation is small enough to be held.
    pub open spec fn fits(self) -> bool {
        match self {
            TargetModel::Symlink { target, link_target, .. } => text_fits(target) && text_fits(
                link_target,
            ),
            TargetModel::Content { target, source, hash, .. } => text_fits(target) && text_fits(
                source,
            ) && hash.len() == 32,
        }
    }
}

/// The models of a row of expected targets.
pub open spec fn target_models(targets: Seq<ExpectedTarget>) -> Seq<TargetModel> {
    targets.map_values(|t: ExpectedTarget| t@)
}

/// Who applied last, when and where.
#[derive(Debug, Clone, PartialEq, Eq)]
pub struct LastApply {
    /// RFC 3339 time of the apply.
    pub at: String,
    /// User who ran it.
    pub user: String,
    /// Host that it ran on.
    pub host: String,
}

/// The full record of a committed apply.
#[derive(Debug, Clone, PartialEq, Eq)]
pub struct ApplyRecord {
    /// Who applied, when and where.
    pub last_apply: LastApply,
    /// The expected state of every managed target, in apply order.
    pub targets: Vec<ExpectedTarget>,
    /// The targets that the run removed because nothing managed them.
    pub reaped: Vec<String>,
    /// Whether the record marks a state without having written any target.
    pub checkpoint: bool,
}

/// An apply record as sequences of characters.
#[verifier::ext_equal]
pub ghost struct RecordModel {
    /// RFC 3339 time of the apply.
    pub at: Seq<char>,
    /// User who ran it.
    pub user: Seq<char>,
    /// Host that it ran on.
    pub host: Seq<char>,
    /// The expected state of every managed target, in apply order.
    pub targets: Seq<TargetModel>,
    /// The targets that the run removed.
    pub reaped: Seq<Seq<char>>,
    /// Whether the record marks a state without having written any target.
    pub checkpoint: bool,
}

impl View for ApplyRecord {
    type V = RecordModel;

    open spec fn view(&self) -> RecordModel {
        RecordModel {
            at: self.last_apply.at@,
            user: self.last_apply.user@,
            host: self.last_apply.host@,
            targets: target_models(self.targets@),
            reaped: views(self.reaped@),
            checkpoint: self.checkpoint,
        }
    }
}

impl RecordModel {
    /// Whether the record is small enough to be held.
    pub open spec fn fits(self) -> bool {
        &&& text_fits(self.at) && text_fits(self.user) && text_fits(self.host)
        &&& self.targets.len() <= u64::MAX && self.reaped.len() <= u64::MAX
        &&& forall|i: int| 0 <= i < self.targets.len() ==> (#[trigger] self.targets[i]).fits()
        &&& forall|i: int| 0 <= i < self.reaped.len() ==> text_fits(#[trigger] self.reaped[i])
    }
}

/// The bytes of the entry index and the disposition that end an expected target.
pub open spec fn marks_bytes(entry: u32, disposition: Disposition) -> Seq<u8> {
    varint(entry as nat) + varint(disposition.code())
}

/// The bytes of an expected target.
pub open spec fn target_bytes(t: TargetModel) -> Seq<u8> {
    match t {
        TargetModel::Symlink { target, link_target, entry, disposition } => varint(0) + (text_bytes(
            target,
        ) + (text_bytes(link_target) + marks_bytes(entry, disposition))),
        TargetModel::Content { target, source, hash, entry, disposition } => varint(1) + (
        text_bytes(target) + (text_bytes(source) + (hash + marks_bytes(entry, disposition)))),
    }
}

/// The bytes of a row of expected targets.
pub open spec fn targets_bytes(targets: Seq<TargetModel>) -> Seq<u8>
    decreases targets.len(),
{
    if targets.len() == 0 {
        Seq::empty()
    } else {
        target_bytes(targets[0]) + targets_bytes(targets.drop_first())
    }
}

/// The bytes of a row of texts.
pub open spec fn texts_bytes(texts: Seq<Seq<char>>) -> Seq<u8>
    decreases texts.len(),
{
    if texts.len() == 0 {
        Seq::empty()
    } else {
        text_bytes(texts[0]) + texts_bytes(texts.drop_first())
    }
}

/// The bytes of a record's body.
pub open spec fn record_bytes(r: RecordModel) -> Seq<u8> {
    text_bytes(r.at) + (text_bytes(r.user) + (text_bytes(r.host) + (varint(r.targets.len()) + (
    targets_bytes(r.targets) + (varint(r.reaped.len()) + (texts_bytes(r.reaped) + flag_bytes(
        r.checkpoint,
    )))))))
}

/// An entry index and a disposition at the front of `bytes`.
pub open spec fn marks_read(bytes: Seq<u8>) -> Option<((u32, Disposition), Seq<u8>)> {
    match u32_read(bytes) {
        Some((entry, rest)) => match disposition_read(rest) {
            Some((disposition, rest)) => Some(((entry as u32, disposition), rest)),
            None => None,
        },
        None => None,
    }
}

/// An expected target at the front of `bytes`.
#[verifier::opaque]
pub open spec fn target_read(bytes: Seq<u8>) -> Option<(TargetModel, Seq<u8>)> {
    match u32_read(bytes) {
        Some((variant, rest)) => match text_read(rest) {
            Some((target, rest)) => match text_read(rest) {
                Some((source, rest)) => if variant == 0 {
                    match marks_read(rest) {
                        Some(((entry, disposition), rest)) => Some(
                            (
                                TargetModel::Symlink {
                                    target,
                                    link_target: source,
                                    entry,
                                    disposition,
                                },
                                rest,
                            ),
                        ),
                        None => None,
                    }
                } else if variant == 1 {
                    match hash_read(rest) {
                        Some((hash, rest)) => match marks_read(rest) {
                            Some(((entry, disposition), rest)) => Some(
                                (
                                    TargetModel::Content {
                                        target,
                                        source,
                                        hash,
                                        entry,
                                        disposition,
                                    },
                                    rest,
                                ),
                            ),
                            None => None,
                        },
                        None => None,
                    }
                } else {
                    None
                },
                None => None,
            },
            None => None,
        },
        None => None,
    }
}

/// `count` expected targets at the front of `bytes`.
pub open spec fn targets_read(bytes: Seq<u8>, count: nat) -> Option<(Seq<TargetModel>, Seq<u8>)>
    decreases count,
{
    if count == 0 {
        Some((Seq::empty(), bytes))
    } else {
        match target_read(bytes) {
            Some((t, rest)) => match targets_read(rest, (count - 1) as nat) {
                Some((ts, rest)) => Some((seq![t] + ts, rest)),
                None => None,
            },
            None => None,
        }
    }
}

/// `count` texts at the front of `bytes`.
pub open spec fn texts_read(bytes: Seq<u8>, count: nat) -> Option<(Seq<Seq<char>>, Seq<u8>)>
    decreases count,
{
    if count == 0 {
        Some((Seq::empty(), bytes))
    } else {
        match text_read(bytes) {
            Some((t, rest)) => match texts_read(rest, (count - 1) as nat) {
                Some((ts, rest)) => Some((seq![t] + ts, rest)),
                None => None,
            },
            None => None,
        }
    }
}

/// The rest of a record's body behind its metadata.
pub open spec fn record_rest_read(
    at: Seq<char>,
    user: Seq<char>,
    host: Seq<char>,
    bytes: Seq<u8>,
) -> Option<RecordModel> {
    match u64_read(bytes) {
        Some((count, rest)) => match targets_read(rest, count) {
            Some((targets, rest)) => match u64_read(rest) {
                Some((count, rest)) => match texts_read(rest, count) {
                    Some((reaped, rest)) => match flag_read(rest) {
                        Some((checkpoint, _)) => Some(
                            RecordModel { at, user, host, targets, reaped, checkpoint },
                        ),
                        None => None,
                    },
                    None => None,
                },
                None => None,
            },
            None => None,
        },
        None => None,
    }
}

/// The record whose body `bytes` begins with. What is behind it is not looked
/// at.
pub open spec fn record_read(bytes: Seq<u8>) -> Option<RecordModel> {
    match text_read(bytes) {
        Some((at, rest)) => match text_read(rest) {
            Some((user, rest)) => match text_read(rest) {
                Some((host, rest)) => record_rest_read(at, user, host, rest),
                None => None,
            },
            None => None,
        },
        None => None,
    }
}

/// An entry index and a disposition are read back.
proof fn marks_read_back(entry: u32, disposition: Disposition, tail: Seq<u8>)
    ensures
        marks_read(marks_bytes(entry, disposition) + tail) == Some(((entry, disposition), tail)),
{
    let code = varint(disposition.code());
    assert(marks_bytes(entry, disposition) + tail =~= varint(entry as nat) + (code + tail));
    u32_reads_back(entry as nat, code + tail);
    disposition_reads_back(disposition, tail);
}

/// The bytes of a link and what follows them, part by part.
proof fn link_bytes_in_parts(
    target: Seq<char>,
    link_target: Seq<char>,
    entry: u32,
    disposition: Disposition,
    tail: Seq<u8>,
)
    ensures
        target_bytes(TargetModel::Symlink { target, link_target, entry, disposition }) + tail
            == varint(0) + (text_bytes(target) + (text_bytes(link_target) + (marks_bytes(
            entry,
            disposition,
        ) + tail))),
{
    let marks = marks_bytes(entry, disposition) + tail;
    let third = text_bytes(link_target) + marks;
    let t = TargetModel::Symlink { target, link_target, entry, disposition };
    assert(target_bytes(t) + tail =~= varint(0) + (text_bytes(target) + third));
}

/// The bytes of a file and what follows them, part by part.
proof fn content_bytes_in_parts(
    target: Seq<char>,
    source: Seq<char>,
    hash: Seq<u8>,
    entry: u32,
    disposition: Disposition,
    tail: Seq<u8>,
)
    ensures
        target_bytes(TargetModel::Content { target, source, hash, entry, disposition }) + tail
            == varint(1) + (text_bytes(target) + (text_bytes(source) + (hash + (marks_bytes(
            entry,
            disposition,
        ) + tail)))),
{
    let marks = marks_bytes(entry, disposition) + tail;
    let third = text_bytes(source) + (hash + marks);
    let t = TargetModel::Content { target, source, hash, entry, disposition };
    assert(target_bytes(t) + tail =~= varint(1) + (text_bytes(target) + third));
}

/// An expected target is read back.
#[verifier::spinoff_prover]
#[verifier::rlimit(40)]
proof fn target_reads_back(t: TargetModel, tail: Seq<u8>)
    requires
        t.fits(),
    ensures
        target_read(target_bytes(t) + tail) == Some((t, tail)),
{
    reveal(target_read);
    match t {
        TargetModel::Symlink { target, link_target, entry, disposition } => {
            let marks = marks_bytes(entry, disposition) + tail;
            let third = text_bytes(link_target) + marks;
            let second = text_bytes(target) + third;
            link_bytes_in_parts(target, link_target, entry, disposition, tail);
            u32_reads_back(0, second);
            text_reads_back(target, third);
            text_reads_back(link_target, marks);
            marks_read_back(entry, disposition, tail);
        },
        TargetModel::Content { target, source, hash, entry, disposition } => {
            let marks = marks_bytes(entry, disposition) + tail;
            let fourth = hash + marks;
            let third = text_bytes(source) + fourth;
            let second = text_bytes(target) + third;
            content_bytes_in_parts(target, source, hash, entry, disposition, tail);
            u32_reads_back(1, second);
            text_reads_back(target, third);
            text_reads_back(source, fourth);
            hash_reads_back(hash, marks);
            marks_read_back(entry, disposition, tail);
        },
    }
}

/// A row of expected targets is read back.
proof fn targets_read_back(targets: Seq<TargetModel>, tail: Seq<u8>)
    requires
        forall|i: int| 0 <= i < targets.len() ==> (#[trigger] targets[i]).fits(),
    ensures
        targets_read(targets_bytes(targets) + tail, targets.len()) == Some((targets, tail)),
    decreases targets.len(),
{
    if targets.len() == 0 {
        assert(targets_bytes(targets) + tail =~= tail);
        assert(targets =~= Seq::<TargetModel>::empty());
    } else {
        let rest = targets.drop_first();
        assert(targets_bytes(targets) + tail =~= target_bytes(targets[0]) + (targets_bytes(rest)
            + tail));
        target_reads_back(targets[0], targets_bytes(rest) + tail);
        assert forall|i: int| 0 <= i < rest.len() implies (#[trigger] rest[i]).fits() by {
            assert(rest[i] == targets[i + 1]);
        }
        targets_read_back(rest, tail);
        assert(seq![targets[0]] + rest =~= targets);
    }
}

/// A row of texts is read back.
proof fn texts_read_back(texts: Seq<Seq<char>>, tail: Seq<u8>)
    requires
        forall|i: int| 0 <= i < texts.len() ==> text_fits(#[trigger] texts[i]),
    ensures
        texts_read(texts_bytes(texts) + tail, texts.len()) == Some((texts, tail)),
    decreases texts.len(),
{
    if texts.len() == 0 {
        assert(texts_bytes(texts) + tail =~= tail);
        assert(texts =~= Seq::<Seq<char>>::empty());
    } else {
        let rest = texts.drop_first();
        assert(texts_bytes(texts) + tail =~= text_bytes(texts[0]) + (texts_bytes(rest) + tail));
        text_reads_back(texts[0], texts_bytes(rest) + tail);
        assert forall|i: int| 0 <= i < rest.len() implies text_fits(#[trigger] rest[i]) by {
            assert(rest[i] == texts[i + 1]);
        }
        texts_read_back(rest, tail);
        assert(seq![texts[0]] + rest =~= texts);
    }
}

/// What a record was written as is read back as that record: its metadata, every
/// expected target with its disposition, the reaped targets and the checkpoint
/// mark.
pub proof fn record_round_trip(r: RecordModel)
    requires
        r.fits(),
    ensures
        record_read(record_bytes(r)) == Some(r),
{
    let flag = flag_bytes(r.checkpoint);
    let reaped = texts_bytes(r.reaped) + flag;
    let counted = varint(r.reaped.len()) + reaped;
    let targets = targets_bytes(r.targets) + counted;
    let body = varint(r.targets.len()) + targets;
    let host = text_bytes(r.host) + body;
    let user = text_bytes(r.user) + host;
    text_reads_back(r.at, user);
    text_reads_back(r.user, host);
    text_reads_back(r.host, body);
    u64_reads_back(r.targets.len(), targets);
    targets_read_back(r.targets, counted);
    u64_reads_back(r.reaped.len(), reaped);
    texts_read_back(r.reaped, flag);
    flag_reads_back(r.checkpoint, Seq::empty());
    assert(flag + Seq::<u8>::empty() =~= flag);
}

impl ExpectedTarget {
    /// The path that this expectation is for.
    #[must_use]
    pub fn target(&self) -> (path: &str)
        ensures
            path@ == self@.target(),
    {
        match self {
            ExpectedTarget::Symlink { target, .. } => target.as_str(),
            ExpectedTarget::Content { target, .. } => target.as_str(),
        }
    }

    /// The path that this target was made from: what a symbolic link points at,
    /// or what was copied or rendered.
    #[must_use]
    pub fn source(&self) -> (path: &str)
        ensures
            path@ == self@.source(),
    {
        match self {
            ExpectedTarget::Symlink { link_target, .. } => link_target.as_str(),
            ExpectedTarget::Content { source, .. } => source.as_str(),
        }
    }

    /// The index of the entry that made this target.
    #[must_use]
    pub fn entry(&self) -> (entry: u32)
        ensures
            entry == self@.entry(),
    {
        match self {
            ExpectedTarget::Symlink { entry, .. } => *entry,
            ExpectedTarget::Content { entry, .. } => *entry,
        }
    }

    /// How this target was classified at plan time.
    #[must_use]
    pub fn disposition(&self) -> (disposition: Disposition)
        ensures
            disposition == self@.disposition(),
    {
        match self {
            ExpectedTarget::Symlink { disposition, .. } => *disposition,
            ExpectedTarget::Content { disposition, .. } => *disposition,
        }
    }

    /// The same expectation under another disposition.
    #[must_use]
    pub fn with_disposition(self, to: Disposition) -> (r: Self)
        ensures
            r@ == self@.with_disposition(to),
    {
        match self {
            ExpectedTarget::Symlink { target, link_target, entry, .. } => ExpectedTarget::Symlink {
                target,
                link_target,
                entry,
                disposition: to,
            },
            ExpectedTarget::Content { target, source, hash, entry, .. } => ExpectedTarget::Content {
                target,
                source,
                hash,
                entry,
                disposition: to,
            },
        }
    }

    /// Append the expectation to `bytes`.
    fn append_to(&self, bytes: &mut Vec<u8>) -> (r: Result<(), JournalError>)
        ensures
            r is Ok,
            final(bytes)@ == old(bytes)@ + target_bytes(self@),
    {
        match self {
            ExpectedTarget::Symlink { target, link_target, entry, disposition } => {
                append_encoded(bytes, put_u32(0))?;
                append_encoded(bytes, put_text(target.as_str()))?;
                append_encoded(bytes, put_text(link_target.as_str()))?;
                append_encoded(bytes, put_u32(*entry))?;
                append_disposition(bytes, *disposition)?;
            },
            ExpectedTarget::Content { target, source, hash, entry, disposition } => {
                append_encoded(bytes, put_u32(1))?;
                append_encoded(bytes, put_text(target.as_str()))?;
                append_encoded(bytes, put_text(source.as_str()))?;
                append_encoded(bytes, put_hash(hash))?;
                append_encoded(bytes, put_u32(*entry))?;
                append_disposition(bytes, *disposition)?;
            },
        }
        assert(bytes@ =~= old(bytes)@ + target_bytes(self@));
        Ok(())
    }

    /// Take an expectation from the front of `bytes`.
    fn take_from(bytes: &[u8]) -> (r: Result<(Self, &[u8]), JournalError>)
        ensures
            r is Ok <==> target_read(bytes@) is Some,
            r matches Ok((t, rest)) ==> target_read(bytes@) == Some((t@, rest@)),
            r matches Err(e) ==> e == JournalError::Decode,
    {
        proof {
            reveal(target_read);
        }
        let (variant, rest): (u32, &[u8]) = match take_u32(bytes) {
            Ok(taken) => taken,
            Err(_) => return Err(JournalError::Decode),
        };
        let (target, rest): (String, &[u8]) = match take_text(rest) {
            Ok(taken) => taken,
            Err(_) => return Err(JournalError::Decode),
        };
        let (source, rest): (String, &[u8]) = match take_text(rest) {
            Ok(taken) => taken,
            Err(_) => return Err(JournalError::Decode),
        };
        if variant == 0 {
            return match take_marks(rest) {
                Ok(((entry, disposition), rest)) => Ok(
                    (
                        ExpectedTarget::Symlink { target, link_target: source, entry, disposition },
                        rest,
                    ),
                ),
                Err(e) => Err(e),
            };
        }
        if variant != 1 {
            return Err(JournalError::Decode);
        }
        let (hash, rest): ([u8; 32], &[u8]) = match take_hash(rest) {
            Ok(taken) => taken,
            Err(_) => return Err(JournalError::Decode),
        };
        match take_marks(rest) {
            Ok(((entry, disposition), rest)) => Ok(
                (ExpectedTarget::Content { target, source, hash, entry, disposition }, rest),
            ),
            Err(e) => Err(e),
        }
    }
}

/// Take an entry index and a disposition from the front of `bytes`.
fn take_marks(bytes: &[u8]) -> (r: Result<((u32, Disposition), &[u8]), JournalError>)
    ensures
        r is Ok <==> marks_read(bytes@) is Some,
        r matches Ok((marks, rest)) ==> marks_read(bytes@) == Some((marks, rest@)),
        r matches Err(e) ==> e == JournalError::Decode,
{
    let (entry, rest): (u32, &[u8]) = match take_u32(bytes) {
        Ok(taken) => taken,
        Err(_) => return Err(JournalError::Decode),
    };
    match take_disposition(rest) {
        Ok((disposition, rest)) => Ok(((entry, disposition), rest)),
        Err(e) => Err(e),
    }
}

impl ApplyRecord {
    /// A record of a run that wrote targets.
    #[must_use]
    pub fn new(last_apply: LastApply, targets: Vec<ExpectedTarget>, reaped: Vec<String>) -> (r:
        Self)
        ensures
            r.last_apply == last_apply,
            r.targets == targets,
            r.reaped == reaped,
            !r.checkpoint,
    {
        ApplyRecord { last_apply, targets, reaped, checkpoint: false }
    }

    /// The bytes of the commit sentinel: the version envelope and the body.
    #[verifier::spinoff_prover]
    #[verifier::rlimit(40)]
    pub fn encode(&self) -> (r: Result<Vec<u8>, JournalError>)
        ensures
            r is Ok,
            r->Ok_0@ == envelope_bytes(FILE_MAJOR_VERSION) + record_bytes(self@),
    {
        let mut body: Vec<u8> = Vec::new();
        append_encoded(&mut body, put_text(self.last_apply.at.as_str()))?;
        append_encoded(&mut body, put_text(self.last_apply.user.as_str()))?;
        append_encoded(&mut body, put_text(self.last_apply.host.as_str()))?;
        append_encoded(&mut body, put_u64(self.targets.len() as u64))?;
        let ghost head = body@;
        append_targets(&mut body, &self.targets)?;
        append_encoded(&mut body, put_u64(self.reaped.len() as u64))?;
        append_texts(&mut body, &self.reaped)?;
        append_encoded(&mut body, put_flag(self.checkpoint))?;
        assert(body@ =~= record_bytes(self@));
        Ok(encode_with_envelope(FILE_MAJOR_VERSION, body.as_slice()))
    }

    /// The record of a commit sentinel's bytes. A sentinel that is cut short or
    /// of a newer major version is refused before its body is looked at.
    pub fn decode(bytes: &[u8]) -> (r: Result<Self, JournalError>)
        ensures
            match opened(bytes@, FILE_MAJOR_VERSION) {
                Err(e) => r == Err::<ApplyRecord, JournalError>(envelope_refusal(e)),
                Ok(body) => match record_read(body) {
                    Some(record) => r is Ok && r->Ok_0@ == record,
                    None => r == Err::<ApplyRecord, JournalError>(JournalError::Decode),
                },
            },
    {
        let body: &[u8] = match decode_envelope(bytes, FILE_MAJOR_VERSION) {
            Ok(body) => body,
            Err(e) => return Err(JournalError::from(e)),
        };
        let (at, rest): (String, &[u8]) = match take_text(body) {
            Ok(taken) => taken,
            Err(_) => return Err(JournalError::Decode),
        };
        let (user, rest): (String, &[u8]) = match take_text(rest) {
            Ok(taken) => taken,
            Err(_) => return Err(JournalError::Decode),
        };
        let (host, rest): (String, &[u8]) = match take_text(rest) {
            Ok(taken) => taken,
            Err(_) => return Err(JournalError::Decode),
        };
        let (count, rest): (u64, &[u8]) = match take_u64(rest) {
            Ok(taken) => taken,
            Err(_) => return Err(JournalError::Decode),
        };
        let (targets, rest): (Vec<ExpectedTarget>, &[u8]) = match take_targets(rest, count) {
            Ok(taken) => taken,
            Err(e) => return Err(e),
        };
        let (count, rest): (u64, &[u8]) = match take_u64(rest) {
            Ok(taken) => taken,
            Err(_) => return Err(JournalError::Decode),
        };
        let (reaped, rest): (Vec<String>, &[u8]) = match take_texts(rest, count) {
            Ok(taken) => taken,
            Err(e) => return Err(e),
        };
        let (checkpoint, _rest): (bool, &[u8]) = match take_flag(rest) {
            Ok(taken) => taken,
            Err(_) => return Err(JournalError::Decode),
        };
        Ok(ApplyRecord { last_apply: LastApply { at, user, host }, targets, reaped, checkpoint })
    }
}

/// Append a row of expected targets to `bytes`.
fn append_targets(bytes: &mut Vec<u8>, targets: &Vec<ExpectedTarget>) -> (r: Result<
    (),
    JournalError,
>)
    ensures
        r is Ok,
        final(bytes)@ == old(bytes)@ + targets_bytes(target_models(targets@)),
{
    let ghost all = target_models(targets@);
    let mut i: usize = 0;
    assert(all.skip(0) =~= all);
    while i < targets.len()
        invariant
            i <= targets@.len(),
            all == target_models(targets@),
            bytes@ + targets_bytes(all.skip(i as int)) == old(bytes)@ + targets_bytes(all),
        decreases targets@.len() - i,
    {
        let ghost before = bytes@;
        targets[i].append_to(bytes)?;
        proof {
            assert(all.skip(i as int).drop_first() =~= all.skip(i + 1));
            assert(before + targets_bytes(all.skip(i as int)) =~= bytes@ + targets_bytes(
                all.skip(i + 1),
            ));
        }
        i = i + 1;
    }
    assert(all.skip(i as int) =~= Seq::<TargetModel>::empty());
    assert(bytes@ =~= old(bytes)@ + targets_bytes(all));
    Ok(())
}

/// Append a row of texts to `bytes`.
fn append_texts(bytes: &mut Vec<u8>, texts: &Vec<String>) -> (r: Result<(), JournalError>)
    ensures
        r is Ok,
        final(bytes)@ == old(bytes)@ + texts_bytes(views(texts@)),
{
    let ghost all = views(texts@);
    let mut i: usize = 0;
    assert(all.skip(0) =~= all);
    while i < texts.len()
        invariant
            i <= texts@.len(),
            all == views(texts@),
            bytes@ + texts_bytes(all.skip(i as int)) == old(bytes)@ + texts_bytes(all),
        decreases texts@.len() - i,
    {
        let ghost before = bytes@;
        append_encoded(bytes, put_text(texts[i].as_str()))?;
        proof {
            assert(all.skip(i as int).drop_first() =~= all.skip(i + 1));
            assert(before + texts_bytes(all.skip(i as int)) =~= bytes@ + texts_bytes(
                all.skip(i + 1),
            ));
        }
        i = i + 1;
    }
    assert(all.skip(i as int) =~= Seq::<Seq<char>>::empty());
    assert(bytes@ =~= old(bytes)@ + texts_bytes(all));
    Ok(())
}

/// Take `count` expected targets from the front of `bytes`.
fn take_targets(bytes: &[u8], count: u64) -> (r: Result<(Vec<ExpectedTarget>, &[u8]), JournalError>)
    ensures
        r is Ok <==> targets_read(bytes@, count as nat) is Some,
        r matches Ok((targets, rest)) ==> targets_read(bytes@, count as nat) == Some(
            (target_models(targets@), rest@),
        ),
        r matches Err(e) ==> e == JournalError::Decode,
{
    let mut targets: Vec<ExpectedTarget> = Vec::new();
    let mut rest: &[u8] = bytes;
    let mut i: u64 = 0;
    assert(target_models(targets@) =~= Seq::<TargetModel>::empty());
    while i < count
        invariant
            i <= count,
            targets@.len() == i,
            targets_read(bytes@, count as nat) == (match targets_read(rest@, (count - i) as nat) {
                Some((tail, end)) => Some((target_models(targets@) + tail, end)),
                None => None,
            }),
        decreases count - i,
    {
        let ghost done = target_models(targets@);
        let (t, behind): (ExpectedTarget, &[u8]) = match ExpectedTarget::take_from(rest) {
            Ok(taken) => taken,
            Err(e) => return Err(e),
        };
        targets.push(t);
        proof {
            assert(target_models(targets@) =~= done.push(t@));
            if let Some((tail, end)) = targets_read(behind@, (count - i - 1) as nat) {
                assert(done + (seq![t@] + tail) =~= done.push(t@) + tail);
            }
        }
        rest = behind;
        i = i + 1;
    }
    assert(target_models(targets@) + Seq::<TargetModel>::empty() =~= target_models(targets@));
    Ok((targets, rest))
}

/// Take `count` texts from the front of `bytes`.
fn take_texts(bytes: &[u8], count: u64) -> (r: Result<(Vec<String>, &[u8]), JournalError>)
    ensures
        r is Ok <==> texts_read(bytes@, count as nat) is Some,
        r matches Ok((texts, rest)) ==> texts_read(bytes@, count as nat) == Some(
            (views(texts@), rest@),
        ),
        r matches Err(e) ==> e == JournalError::Decode,
{
    let mut texts: Vec<String> = Vec::new();
    let mut rest: &[u8] = bytes;
    let mut i: u64 = 0;
    assert(views(texts@) =~= Seq::<Seq<char>>::empty());
    while i < count
        invariant
            i <= count,
            texts@.len() == i,
            texts_read(bytes@, count as nat) == (match texts_read(rest@, (count - i) as nat) {
                Some((tail, end)) => Some((views(texts@) + tail, end)),
                None => None,
            }),
        decreases count - i,
    {
        let ghost done = views(texts@);
        let (t, behind): (String, &[u8]) = match take_text(rest) {
            Ok(taken) => taken,
            Err(_) => return Err(JournalError::Decode),
        };
        texts.push(t);
        proof {
            assert(views(texts@) =~= done.push(t@));
            if let Some((tail, end)) = texts_read(behind@, (count - i - 1) as nat) {
                assert(done + (seq![t@] + tail) =~= done.push(t@) + tail);
            }
        }
        rest = behind;
        i = i + 1;
    }
    assert(views(texts@) + Seq::<Seq<char>>::empty() =~= views(texts@));
    Ok((texts, rest))
}

/// What BLAKE3 makes of a row of bytes: 32 bytes.
pub uninterp spec fn blake3_hash(bytes: Seq<u8>) -> Seq<u8>;

/// The content hash of a row of bytes, by `blake3::hash`. The contract only
/// gives the digest a name: it says that equal bytes have equal digests, and
/// nothing of how they are computed.
#[must_use]
#[verifier::external_body]
pub fn content_hash(bytes: &[u8]) -> (hash: [u8; 32])
    ensures
        hash@ == blake3_hash(bytes@),
{
    *blake3::hash(bytes).as_bytes()
}

} // verus!
