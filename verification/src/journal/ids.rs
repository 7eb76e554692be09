//! Operation IDs: the names under which runs are journaled.
//!
//! An ID is a compact UTC time, or such a time followed by `-` and a sequence
//! number of twenty digits. IDs compare in the order in which they were
//! allocated: a new one follows every ID that the journal, the backups and the
//! recovered files still name, even where the clock stands still or goes back.

use crate::clock::compact_time;
use crate::clock::current_timestamp;
use crate::clock::is_timestamp;
use crate::clock::timestamp;
use crate::number::all_digits;
use crate::number::digit_value;
use crate::number::digits_value;
use crate::number::is_digit;
use crate::number::only_digits;
use crate::number::padded;
use crate::number::padded_reads_back;
use crate::number::padded_text;
use crate::number::padding_keeps_order;
use crate::number::parse_digits;
use crate::number::twenty_digits_hold_a_u64;
use crate::text::after_first;
use crate::text::before_first;
use crate::text::chars_of;
use crate::text::common_prefix_keeps_order;
use crate::text::first_place;
use crate::text::first_place_is_first;
use crate::text::less_text;
use crate::text::opt_view;
use crate::text::split_once;
use crate::text::text_le;
use crate::text::text_less;
use crate::text::text_order_is_total;
use crate::text::text_order_is_transitive;
use crate::text::views;
use super::JournalError;
use vstd::prelude::*;

verus! {

/// Digits of a sequence number.
pub const SEQUENCE_DIGITS: u32 = 20;

/// The time and the sequence number of an operation ID: `None` for a text that
/// is no ID.
pub open spec fn id_parts(id: Seq<char>) -> Option<(Seq<char>, int)> {
    let date = before_first(id, '-');
    let sequence = after_first(id, '-');
    if !id.contains('-') {
        if timestamp(id) {
            Some((id, 0))
        } else {
            None
        }
    } else if sequence.len() == SEQUENCE_DIGITS && all_digits(sequence) && digits_value(sequence)
        <= u64::MAX && timestamp(date) {
        Some((date, digits_value(sequence)))
    } else {
        None
    }
}

/// Whether a text is an operation ID.
pub open spec fn is_id(id: Seq<char>) -> bool {
    id_parts(id) is Some
}

/// The ID of a time and a sequence number.
pub open spec fn id_text(date: Seq<char>, sequence: nat) -> Seq<char> {
    date + (seq!['-'] + padded(sequence, SEQUENCE_DIGITS as nat))
}

/// The time and the sequence number of an operation ID.
pub fn operation_id_parts(id: &str) -> (r: Option<(String, u64)>)
    ensures
        r is Some <==> is_id(id@),
        r matches Some((date, sequence)) ==> id_parts(id@) == Some((date@, sequence as int)),
{
    match split_once(id, '-') {
        Some((date, sequence)) => {
            let digits: Vec<char> = chars_of(sequence.as_str());
            if digits.len() != 20 || !only_digits(&digits) {
                return None;
            }
            match parse_digits(&digits) {
                Some(n) => if is_timestamp(date.as_str()) {
                    Some((date, n))
                } else {
                    None
                },
                None => None,
            }
        },
        None => if is_timestamp(id) {
            Some((id.to_owned(), 0))
        } else {
            None
        },
    }
}

/// The part of a file or directory name before its first dot.
pub open spec fn name_stem(name: Seq<char>) -> Seq<char> {
    before_first(name, '.')
}

/// The part of a file or directory name before its first dot.
fn stem_of(name: &str) -> (stem: String)
    ensures
        stem@ == name_stem(name@),
{
    match split_once(name, '.') {
        Some((stem, _)) => stem,
        None => {
            proof {
                first_place_is_first(name@, '.');
                assert(name@.take(name@.len() as int) =~= name@);
            }
            name.to_owned()
        },
    }
}

/// The greatest operation ID that a name begins with.
pub open spec fn newest_id(names: Seq<Seq<char>>) -> Option<Seq<char>>
    decreases names.len(),
{
    if names.len() == 0 {
        None
    } else {
        let earlier = newest_id(names.drop_last());
        let stem = name_stem(names.last());
        if is_id(stem) && (earlier is None || text_less(earlier->0, stem)) {
            Some(stem)
        } else {
            earlier
        }
    }
}

/// The newest ID is one of the names' IDs, and none of them comes after it.
pub proof fn newest_id_is_greatest(names: Seq<Seq<char>>)
    ensures
        newest_id(names) is None <==> (forall|i: int|
            0 <= i < names.len() ==> !is_id(name_stem(#[trigger] names[i]))),
        newest_id(names) matches Some(newest) ==> is_id(newest) && (exists|i: int|
            0 <= i < names.len() && name_stem(#[trigger] names[i]) == newest) && (forall|i: int|
            0 <= i < names.len() && is_id(name_stem(#[trigger] names[i])) ==> text_le(
                name_stem(names[i]),
                newest,
            )),
    decreases names.len(),
{
    if names.len() > 0 {
        let rest = names.drop_last();
        newest_id_is_greatest(rest);
        let last = name_stem(names.last());
        assert(names[names.len() - 1] == names.last());
        assert forall|i: int| 0 <= i < rest.len() implies rest[i] == names[i] by {}
        match newest_id(rest) {
            Some(earlier) => {
                let k = choose|i: int| 0 <= i < rest.len() && name_stem(#[trigger] rest[i]) == earlier;
                assert(name_stem(names[k]) == earlier);
                let newest = newest_id(names)->0;
                assert forall|i: int| 0 <= i < names.len() && is_id(
                    name_stem(#[trigger] names[i]),
                ) implies text_le(name_stem(names[i]), newest) by {
                    if i < rest.len() {
                        let s = name_stem(rest[i]);
                        assert(text_le(s, earlier));
                        if newest != earlier && s != earlier {
                            text_order_is_transitive(s, earlier, newest);
                        }
                    } else {
                        text_order_is_total(last, earlier);
                    }
                }
            },
            None => {
                assert forall|i: int| 0 <= i < rest.len() implies !is_id(
                    name_stem(#[trigger] names[i]),
                ) by {
                    assert(!is_id(name_stem(rest[i])));
                }
            },
        }
    }
}

/// The ID that follows `newest`, the greatest one in use, at the time `now`:
/// the time with sequence number zero where the time has moved past `newest`,
/// and else the time of `newest` with the next sequence number.
pub open spec fn id_after(newest: Option<Seq<char>>, now: Seq<char>) -> Option<Seq<char>> {
    match newest {
        None => Some(id_text(now, 0)),
        Some(newest) => if text_less(newest, now) {
            Some(id_text(now, 0))
        } else {
            match id_parts(newest) {
                Some((date, sequence)) => if sequence < u64::MAX {
                    Some(id_text(date, (sequence + 1) as nat))
                } else {
                    None
                },
                None => None,
            }
        },
    }
}

/// The ID of a time and a sequence number.
fn make_id(date: &str, sequence: u64) -> (id: String)
    ensures
        id@ == id_text(date@, sequence as nat),
{
    let mut id: String = date.to_owned();
    id.push('-');
    let digits: String = padded_text(sequence, SEQUENCE_DIGITS);
    id.append(digits.as_str());
    assert(id@ =~= id_text(date@, sequence as nat));
    id
}

/// The greatest operation ID that one of `names` begins with.
fn newest_of(names: &Vec<String>) -> (newest: Option<String>)
    ensures
        opt_view(newest) == newest_id(views(names@)),
{
    let ghost all = views(names@);
    let mut newest: Option<String> = None;
    let mut i: usize = 0;
    while i < names.len()
        invariant
            i <= names@.len(),
            all == views(names@),
            opt_view(newest) == newest_id(all.take(i as int)),
        decreases names@.len() - i,
    {
        let stem: String = stem_of(names[i].as_str());
        assert(all.take(i + 1).drop_last() =~= all.take(i as int));
        let newer: bool = operation_id_parts(stem.as_str()).is_some() && match &newest {
            Some(earlier) => less_text(earlier.as_str(), stem.as_str()),
            None => true,
        };
        if newer {
            newest = Some(stem);
        }
        i = i + 1;
    }
    assert(all.take(i as int) =~= all);
    newest
}

/// The next operation ID at the time `now`, where `names` are the names in the
/// journal, in the backups and among the recovered files.
pub fn operation_id_at(names: &Vec<String>, now: &str) -> (r: Result<String, JournalError>)
    ensures
        r is Ok <==> id_after(newest_id(views(names@)), now@) is Some,
        r matches Ok(id) ==> id_after(newest_id(views(names@)), now@) == Some(id@),
        r matches Err(e) ==> (e matches JournalError::TimestampExhausted { newest }
            && newest_id(views(names@)) == Some(newest@)),
{
    let newest: String = match newest_of(names) {
        Some(newest) => newest,
        None => return Ok(make_id(now, 0)),
    };
    if less_text(newest.as_str(), now) {
        return Ok(make_id(now, 0));
    }
    match operation_id_parts(newest.as_str()) {
        Some((date, sequence)) => if sequence < u64::MAX {
            Ok(make_id(date.as_str(), sequence + 1))
        } else {
            Err(JournalError::TimestampExhausted { newest })
        },
        None => Err(JournalError::TimestampExhausted { newest }),
    }
}

/// The next operation ID at the current time. Which one it is depends on the
/// clock, but it follows from the names as it does for every time.
pub fn next_operation_id(names: &Vec<String>) -> (r: Result<String, JournalError>)
    ensures
        exists|now: Seq<char>|
            compact_time(now) && #[trigger] id_after(newest_id(views(names@)), now) == (match r {
                Ok(id) => Some(id@),
                Err(_) => None,
            }),
        r matches Err(e) ==> (e matches JournalError::TimestampExhausted { newest }
            && newest_id(views(names@)) == Some(newest@)),
{
    let now: String = current_timestamp();
    operation_id_at(names, now.as_str())
}

/// An allocated ID comes after every ID in use, at whatever time it was
/// allocated.
pub proof fn allocation_advances(names: Seq<Seq<char>>, now: Seq<char>, i: int)
    requires
        id_after(newest_id(names), now) is Some,
        0 <= i < names.len(),
        is_id(name_stem(names[i])),
    ensures
        text_less(name_stem(names[i]), id_after(newest_id(names), now)->0),
{
    newest_id_is_greatest(names);
    let newest = newest_id(names)->0;
    let id = id_after(newest_id(names), now)->0;
    id_follows_newest(newest, now);
    if name_stem(names[i]) != newest {
        text_order_is_transitive(name_stem(names[i]), newest, id);
    }
}

/// The ID allocated after `newest` comes after it.
proof fn id_follows_newest(newest: Seq<char>, now: Seq<char>)
    requires
        is_id(newest),
        id_after(Some(newest), now) is Some,
    ensures
        text_less(newest, id_after(Some(newest), now)->0),
{
    if text_less(newest, now) {
        longer_stays_after(newest, now, seq!['-'] + padded(0, SEQUENCE_DIGITS as nat));
    } else {
        let (date, sequence) = id_parts(newest)->0;
        let tail = seq!['-'] + padded((sequence + 1) as nat, SEQUENCE_DIGITS as nat);
        if newest.contains('-') {
            first_place_is_first(newest, '-');
            let digits = after_first(newest, '-');
            assert(newest =~= date + (seq!['-'] + digits));
            twenty_digits_hold_a_u64();
            digits_are_padded(digits);
            assert(digits_value(digits) == sequence);
            padding_keeps_order(sequence as nat, (sequence + 1) as nat, SEQUENCE_DIGITS as nat);
            common_prefix_keeps_order(
                seq!['-'],
                digits,
                padded((sequence + 1) as nat, SEQUENCE_DIGITS as nat),
            );
            common_prefix_keeps_order(date, seq!['-'] + digits, tail);
        } else {
            common_prefix_keeps_order(date, Seq::empty(), tail);
            assert(date + Seq::<char>::empty() =~= date);
        }
    }
}

/// A row of digits is its value padded to its length.
proof fn digits_are_padded(digits: Seq<char>)
    requires
        all_digits(digits),
    ensures
        digits_value(digits) >= 0,
        digits == padded(digits_value(digits) as nat, digits.len()),
    decreases digits.len(),
{
    if digits.len() > 0 {
        let head = digits.drop_last();
        assert(all_digits(head));
        assert(is_digit(digits[digits.len() - 1]));
        digits_are_padded(head);
        let n = digits_value(digits) as nat;
        assert(n / 10 == digits_value(head));
        assert(n % 10 == digit_value(digits.last()));
        assert(digits =~= head.push(digits.last()));
    } else {
        assert(digits =~= padded(0, 0));
    }
}

/// A text that comes before another comes before whatever the other begins.
proof fn longer_stays_after(a: Seq<char>, b: Seq<char>, tail: Seq<char>)
    requires
        text_less(a, b),
    ensures
        text_less(a, b + tail),
    decreases a.len(),
{
    if a.len() > 0 && a[0] == b[0] {
        longer_stays_after(a.drop_first(), b.drop_first(), tail);
        assert((b + tail).drop_first() =~= b.drop_first() + tail);
    }
}

/// An ID allocated at a time without a `-` is an operation ID, with the
/// sequence number it was given.
pub proof fn allocated_id_is_an_id(date: Seq<char>, sequence: nat)
    requires
        timestamp(date),
        !date.contains('-'),
        sequence <= u64::MAX,
    ensures
        id_parts(id_text(date, sequence)) == Some((date, sequence as int)),
{
    let id = id_text(date, sequence);
    let digits = padded(sequence, SEQUENCE_DIGITS as nat);
    twenty_digits_hold_a_u64();
    padded_reads_back(sequence, SEQUENCE_DIGITS as nat);
    first_place_is_first(id, '-');
    assert(id[date.len() as int] == '-');
    assert(id.contains('-'));
    let place = first_place(id, '-');
    if place < date.len() {
        assert(id[place] == date[place]);
    }
    assert(place == date.len());
    assert(before_first(id, '-') =~= date);
    assert(after_first(id, '-') =~= digits);
}

} // verus!
