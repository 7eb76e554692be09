//! How journal files are written, and how texts are ordered and trimmed.

use crate::journal::disposition::Disposition;
use crate::journal::error::JournalError;
use crate::journal::format::optional_bytes;
use crate::journal::plan::OperationModel;
use crate::journal::plan::Plan;
use crate::journal::plan::move_bytes;
use crate::journal::plan::operation_bytes;
use crate::journal::plan::operations_bytes;
use crate::journal::plan::plan_bytes;
use crate::journal::record::ApplyRecord;
use crate::journal::record::TargetModel;
use crate::journal::record::marks_bytes;
use crate::journal::record::record_bytes;
use crate::journal::record::target_bytes;
use crate::journal::record::targets_bytes;
use crate::journal::record::texts_bytes;
use crate::text::is_white_space;
use crate::text::less_text;
use crate::text::text_less;
use crate::text::trim;
use crate::text::trimmed_end;
use crate::text::trimmed_start;
use crate::wire::flag_bytes;
use crate::wire::text_bytes;
use crate::wire::varint;
use vstd::prelude::*;

verus! {

/// The byte that stands for a disposition in a file.
pub open spec fn disposition_byte(disposition: Disposition) -> u8 {
    match disposition {
        Disposition::Create => 0,
        Disposition::Update => 1,
        Disposition::Unchanged => 2,
    }
}

/// The byte that stands for what an operation does in a file.
pub open spec fn operation_byte(op: OperationModel) -> u8 {
    match op {
        OperationModel::Symlink { .. } => 0,
        OperationModel::Render { .. } => 1,
        OperationModel::Copy { .. } => 2,
        OperationModel::Remove { .. } => 3,
    }
}

/// The file of a plan of one operation: behind the version come the number of operations, the
/// byte of the operation, and at its end its disposition and that no removal is recorded.
pub proof fn operations_are_written_by_their_number(plan: Plan, r: Result<Vec<u8>, JournalError>)
    requires
        call_ensures(Plan::encode, (&plan,), r),
        plan@.operations.len() == 1,
        plan@.removal is None,
    ensures
        r is Ok,
        ({
            let bytes = r->Ok_0@;
            let op = plan@.operations[0];
            &&& bytes.len() > 4
            &&& bytes[2] == 1
            &&& bytes[3] == operation_byte(op)
            &&& bytes.last() == 0
            &&& match op {
                OperationModel::Symlink { disposition, .. } => bytes[bytes.len() - 2]
                    == disposition_byte(disposition),
                OperationModel::Render { disposition, .. } => bytes[bytes.len() - 2]
                    == disposition_byte(disposition),
                OperationModel::Copy { disposition, .. } => bytes[bytes.len() - 2]
                    == disposition_byte(disposition),
                OperationModel::Remove { .. } => true,
            }
        }),
{
    let bytes = r->Ok_0@;
    let ops = plan@.operations;
    let op = ops[0];
    let rest = ops.drop_first();
    assert(operations_bytes(rest) =~= Seq::<u8>::empty());
    assert(operations_bytes(ops) =~= operation_bytes(op));
    let none = optional_bytes(None);
    assert(none =~= seq![0u8]);
    let body = plan_bytes(plan@);
    assert(varint(1) =~= seq![1u8]);
    assert(body =~= seq![1u8] + (operation_bytes(op) + none));
    assert(bytes.skip(2) =~= body);
    assert(bytes[2] == body[0]);
    match op {
        OperationModel::Symlink { source, target, disposition } => {
            move_ends_in_its_disposition(source, target, disposition);
            assert(operation_bytes(op)[0] == 0);
            assert(operation_bytes(op).last() == move_bytes(source, target, disposition).last());
        },
        OperationModel::Render { source, target, disposition } => {
            move_ends_in_its_disposition(source, target, disposition);
            assert(operation_bytes(op)[0] == 1);
            assert(operation_bytes(op).last() == move_bytes(source, target, disposition).last());
        },
        OperationModel::Copy { source, target, disposition } => {
            move_ends_in_its_disposition(source, target, disposition);
            assert(operation_bytes(op)[0] == 2);
            assert(operation_bytes(op).last() == move_bytes(source, target, disposition).last());
        },
        OperationModel::Remove { target } => {
            assert(operation_bytes(op)[0] == 3);
        },
    }
    let k = operation_bytes(op).len() as int;
    assert(k > 0);
    assert(body[1] == operation_bytes(op)[0]);
    assert(body[k] == operation_bytes(op)[k - 1]);
    assert(body[k + 1] == 0u8);
    assert(bytes.len() == k + 4);
    assert(bytes[k + 3] == body[k + 1]);
    assert(bytes[k + 2] == body[k]);
    assert(bytes[3] == body[1]);
}

proof fn move_ends_in_its_disposition(
    source: Seq<char>,
    target: Seq<char>,
    disposition: Disposition,
)
    ensures
        move_bytes(source, target, disposition).len() > 0,
        move_bytes(source, target, disposition).last() == disposition_byte(disposition),
{
    let code = varint(disposition.code());
    assert(code =~= seq![disposition_byte(disposition)]);
}

/// The file of a record of one target ends in the disposition of that target, that nothing was
/// removed, and whether it is a checkpoint.
pub proof fn targets_are_written_by_their_number(record: ApplyRecord, r: Result<Vec<u8>, JournalError>)
    requires
        call_ensures(ApplyRecord::encode, (&record,), r),
        record@.targets.len() == 1,
        record@.reaped.len() == 0,
    ensures
        r is Ok,
        ({
            let bytes = r->Ok_0@;
            &&& bytes.len() > 4
            &&& bytes.last() == (if record@.checkpoint {
                1u8
            } else {
                0u8
            })
            &&& bytes[bytes.len() - 2] == 0
            &&& match record@.targets[0] {
                TargetModel::Symlink { disposition, .. } => bytes[bytes.len() - 3]
                    == disposition_byte(disposition),
                TargetModel::Content { disposition, .. } => bytes[bytes.len() - 3]
                    == disposition_byte(disposition),
            }
        }),
{
    let bytes = r->Ok_0@;
    let t = record@.targets[0];
    assert(targets_bytes(record@.targets.drop_first()) =~= Seq::<u8>::empty());
    assert(targets_bytes(record@.targets) =~= target_bytes(t));
    assert(texts_bytes(record@.reaped) =~= Seq::<u8>::empty());
    assert(varint(0) =~= seq![0u8]);
    let end = target_bytes(t) + (seq![0u8] + flag_bytes(record@.checkpoint));
    let tail = targets_bytes(record@.targets) + (varint(record@.reaped.len()) + (texts_bytes(
        record@.reaped,
    ) + flag_bytes(record@.checkpoint)));
    assert(tail =~= end);
    let four = varint(record@.targets.len()) + tail;
    let three = text_bytes(record@.host) + four;
    let two = text_bytes(record@.user) + three;
    let one = text_bytes(record@.at) + two;
    assert(record_bytes(record@) == one);
    let n = target_bytes(t).len();
    assert(n > 1 && target_bytes(t).last() == disposition_byte(
        match t {
            TargetModel::Symlink { disposition, .. } => disposition,
            TargetModel::Content { disposition, .. } => disposition,
        },
    )) by {
        match t {
            TargetModel::Symlink { target, link_target, entry, disposition } => {
                assert(varint(disposition.code()) =~= seq![disposition_byte(disposition)]);
                let marks = marks_bytes(entry, disposition);
                assert(marks.last() == disposition_byte(disposition));
                let rest = text_bytes(target) + (text_bytes(link_target) + marks);
                assert(rest.last() == marks.last());
                assert(target_bytes(t).last() == rest.last());
            },
            TargetModel::Content { target, source, hash, entry, disposition } => {
                assert(varint(disposition.code()) =~= seq![disposition_byte(disposition)]);
                let marks = marks_bytes(entry, disposition);
                assert(marks.last() == disposition_byte(disposition));
                let rest = text_bytes(target) + (text_bytes(source) + (hash + marks));
                assert(rest.last() == marks.last());
                assert(target_bytes(t).last() == rest.last());
            },
        }
    }
    assert(end[end.len() - 3] == target_bytes(t).last());
    assert(end[end.len() - 2] == 0u8);
    assert forall|k: int| 1 <= k <= 3 implies #[trigger] bytes[bytes.len() - k] == end[end.len()
        - k] by {
        assert(four[four.len() - k] == end[end.len() - k]);
        assert(three[three.len() - k] == four[four.len() - k]);
        assert(two[two.len() - k] == three[three.len() - k]);
        assert(one[one.len() - k] == two[two.len() - k]);
    }
    assert(bytes[bytes.len() - 1] == end[end.len() - 1]);
    assert(bytes[bytes.len() - 2] == end[end.len() - 2]);
    assert(bytes[bytes.len() - 3] == end[end.len() - 3]);
}

/// Of two texts that differ first at one place, the one with the smaller character there comes
/// first, and a text comes before every longer one that it begins.
pub proof fn texts_are_ordered_by_their_first_difference(a: &str, b: &str, less: bool, k: int)
    requires
        call_ensures(less_text, (a, b), less),
        0 <= k <= a@.len(),
        k <= b@.len(),
        a@.take(k) == b@.take(k),
    ensures
        k < a@.len() && k < b@.len() && a@[k] != b@[k] ==> (less <==> (a@[k] as int) < (
        b@[k] as int)),
        k == a@.len() ==> (less <==> k < b@.len()),
        k == b@.len() ==> !less,
{
    order_at(a@, b@, k);
}

proof fn order_at(a: Seq<char>, b: Seq<char>, k: int)
    requires
        0 <= k <= a.len(),
        k <= b.len(),
        a.take(k) == b.take(k),
    ensures
        k < a.len() && k < b.len() && a[k] != b[k] ==> (text_less(a, b) <==> (a[k] as int) < (
        b[k] as int)),
        k == a.len() ==> (text_less(a, b) <==> k < b.len()),
        k == b.len() ==> !text_less(a, b),
    decreases k,
{
    if k > 0 {
        assert(a.take(k)[0] == a[0]);
        assert(b.take(k)[0] == b[0]);
        let x = a.drop_first();
        let y = b.drop_first();
        assert(x.take(k - 1) =~= a.take(k).drop_first());
        assert(y.take(k - 1) =~= b.take(k).drop_first());
        order_at(x, y, k - 1);
        if k < a.len() && k < b.len() {
            assert(x[k - 1] == a[k]);
            assert(y[k - 1] == b[k]);
        }
        assert(text_less(a, b) == text_less(x, y));
    }
}

/// Whether a text is made of white space alone.
pub open spec fn is_blank(text: Seq<char>) -> bool {
    forall|i: int| 0 <= i < text.len() ==> is_white_space(#[trigger] text[i])
}

proof fn blanks_in_front(text: Seq<char>) -> (front: Seq<char>)
    ensures
        text == front + trimmed_start(text),
        is_blank(front),
        trimmed_start(text).len() > 0 ==> !is_white_space(trimmed_start(text)[0]),
    decreases text.len(),
{
    if text.len() > 0 && is_white_space(text[0]) {
        let front = blanks_in_front(text.drop_first());
        let whole = seq![text[0]] + front;
        assert(text =~= seq![text[0]] + text.drop_first());
        assert(text =~= whole + trimmed_start(text));
        assert forall|i: int| 0 <= i < whole.len() implies is_white_space(#[trigger] whole[i]) by {
            if i > 0 {
                assert(whole[i] == front[i - 1]);
            }
        }
        whole
    } else {
        assert(text =~= Seq::<char>::empty() + text);
        Seq::empty()
    }
}

proof fn blanks_behind(text: Seq<char>) -> (back: Seq<char>)
    ensures
        text == trimmed_end(text) + back,
        is_blank(back),
        trimmed_end(text).len() > 0 ==> !is_white_space(trimmed_end(text).last()),
        trimmed_end(text).len() > 0 ==> trimmed_end(text)[0] == text[0],
    decreases text.len(),
{
    if text.len() > 0 && is_white_space(text.last()) {
        let back = blanks_behind(text.drop_last());
        let whole = back.push(text.last());
        assert(text =~= text.drop_last().push(text.last()));
        assert(text =~= trimmed_end(text) + whole);
        assert forall|i: int| 0 <= i < whole.len() implies is_white_space(#[trigger] whole[i]) by {
            if i < back.len() {
                assert(whole[i] == back[i]);
            }
        }
        whole
    } else {
        assert(text =~= text + Seq::<char>::empty());
        Seq::empty()
    }
}

/// Trimming takes away exactly the white space around a text: what is left neither starts nor
/// ends with any.
pub proof fn trimming_takes_the_blanks_around(text: &str, r: String)
    requires
        call_ensures(trim, (text,), r),
    ensures
        exists|front: Seq<char>, back: Seq<char>|
            is_blank(front) && is_blank(back) && text@ == #[trigger] (front + r@ + back),
        r@.len() > 0 ==> !is_white_space(r@[0]) && !is_white_space(r@.last()),
{
    let front = blanks_in_front(text@);
    let back = blanks_behind(trimmed_start(text@));
    assert(front + (r@ + back) =~= front + r@ + back);
    assert(text@ == front + r@ + back);
}

/// A text with no white space at either end stays as it is.
pub proof fn trimmed_texts_stay(text: &str, r: String)
    requires
        call_ensures(trim, (text,), r),
        text@.len() > 0 ==> !is_white_space(text@[0]) && !is_white_space(text@.last()),
    ensures
        r@ == text@,
{
}

} // verus!
