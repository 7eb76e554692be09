//! Wall-clock time and its text forms.
//!
//! The compact form `YYYYMMDDTHHMMSSZ` names journal files and backups: texts
//! in that form compare in the order of the times they stand for. Records carry
//! the RFC 3339 form.

use crate::number::digit_span;
use crate::number::order_ignores_tails;
use crate::number::padded;
use crate::number::padded_reads_back;
use crate::number::padding_keeps_order;
use crate::number::signed_decimal;
use crate::number::signed_decimal_text;
use crate::text::common_prefix_keeps_order;
use crate::text::opt_view;
use crate::text::same_text;
use crate::text::text_less;
use crate::text::text_order_is_irreflexive;
use crate::text::text_order_is_transitive;
use vstd::prelude::*;

verus! {

/// The format of a compact UTC time.
pub const COMPACT_FORMAT: &'static str = "%Y%m%dT%H%M%SZ";

/// The format of an RFC 3339 UTC time.
pub const RFC3339_FORMAT: &'static str = "%Y-%m-%dT%H:%M:%SZ";

/// A civil date and time.
#[verifier::ext_equal]
pub ghost struct CivilTime {
    /// The year.
    pub year: nat,
    /// The month, from 1.
    pub month: nat,
    /// The day of the month, from 1.
    pub day: nat,
    /// The hour.
    pub hour: nat,
    /// The minute.
    pub minute: nat,
    /// The second.
    pub second: nat,
}

impl CivilTime {
    /// Whether every part is in its range, with a year of up to four digits.
    pub open spec fn is_valid(self) -> bool {
        &&& self.year <= 9999
        &&& 1 <= self.month <= 12
        &&& 1 <= self.day <= 31
        &&& self.hour <= 23
        &&& self.minute <= 59
        &&& self.second <= 59
    }

    /// Whether this time comes before another.
    pub open spec fn is_before(self, other: CivilTime) -> bool {
        ||| self.year < other.year
        ||| self.year == other.year && self.month < other.month
        ||| self.year == other.year && self.month == other.month && self.day < other.day
        ||| self.year == other.year && self.month == other.month && self.day == other.day
            && self.is_earlier_in_day(other)
    }

    /// Whether the hour, minute and second come before those of another time.
    pub open spec fn is_earlier_in_day(self, other: CivilTime) -> bool {
        ||| self.hour < other.hour
        ||| self.hour == other.hour && self.minute < other.minute
        ||| self.hour == other.hour && self.minute == other.minute && self.second < other.second
    }

    /// The time in the compact form: every part with all its digits.
    pub open spec fn compact(self) -> Seq<char> {
        padded(self.year, 4) + (padded(self.month, 2) + (padded(self.day, 2) + (seq!['T'] + (padded(
            self.hour,
            2,
        ) + (padded(self.minute, 2) + (padded(self.second, 2) + seq!['Z']))))))
    }
}

/// Whether a text is the compact form of a time. One of a year before the year 0, which
/// is written with a sign, is not.
pub open spec fn is_compact(text: Seq<char>) -> bool {
    exists|time: CivilTime| time.is_valid() && text == #[trigger] time.compact()
}

/// Whether a text starts with a minus sign.
pub open spec fn is_signed(text: Seq<char>) -> bool {
    text.len() > 0 && text[0] == '-'
}

proof fn field_decides(a: nat, b: nat, width: nat, p: Seq<char>, q: Seq<char>)
    requires
        a < digit_span(width),
        b < digit_span(width),
    ensures
        a < b ==> text_less(padded(a, width) + p, padded(b, width) + q),
        a == b ==> text_less(padded(a, width) + p, padded(b, width) + q) == text_less(p, q),
{
    padded_reads_back(a, width);
    padded_reads_back(b, width);
    if a < b {
        padding_keeps_order(a, b, width);
        order_ignores_tails(padded(a, width), padded(b, width), p, q);
    } else if a == b {
        common_prefix_keeps_order(padded(a, width), p, q);
    }
}

proof fn earlier_texts_come_first(a: CivilTime, b: CivilTime)
    requires
        a.is_valid(),
        b.is_valid(),
        a.is_before(b),
    ensures
        text_less(a.compact(), b.compact()),
{
    reveal_with_fuel(digit_span, 5);
    let a7 = padded(a.second, 2) + seq!['Z'];
    let b7 = padded(b.second, 2) + seq!['Z'];
    let a6 = padded(a.minute, 2) + a7;
    let b6 = padded(b.minute, 2) + b7;
    let a5 = padded(a.hour, 2) + a6;
    let b5 = padded(b.hour, 2) + b6;
    let a4 = seq!['T'] + a5;
    let b4 = seq!['T'] + b5;
    let a3 = padded(a.day, 2) + a4;
    let b3 = padded(b.day, 2) + b4;
    let a2 = padded(a.month, 2) + a3;
    let b2 = padded(b.month, 2) + b3;
    field_decides(a.second, b.second, 2, seq!['Z'], seq!['Z']);
    field_decides(a.minute, b.minute, 2, a7, b7);
    field_decides(a.hour, b.hour, 2, a6, b6);
    common_prefix_keeps_order(seq!['T'], a5, b5);
    field_decides(a.day, b.day, 2, a4, b4);
    field_decides(a.month, b.month, 2, a3, b3);
    field_decides(a.year, b.year, 4, a2, b2);
}

/// Compact texts compare in the order of their times.
pub proof fn compact_texts_compare_in_time_order(a: CivilTime, b: CivilTime)
    requires
        a.is_valid(),
        b.is_valid(),
    ensures
        text_less(a.compact(), b.compact()) <==> a.is_before(b),
        a.compact() == b.compact() <==> a == b,
{
    text_order_is_irreflexive(a.compact());
    text_order_is_irreflexive(b.compact());
    if a.is_before(b) {
        earlier_texts_come_first(a, b);
    } else if b.is_before(a) {
        earlier_texts_come_first(b, a);
        if text_less(a.compact(), b.compact()) {
            text_order_is_transitive(a.compact(), b.compact(), a.compact());
        }
    } else {
        assert(a == b);
    }
}

/// What `jiff` makes of `text` when it reads it as a civil date and time in the
/// format `from` and writes that in the format `to`: nothing where `text` does
/// not have the format `from`.
pub uninterp spec fn civil_reformatted(
    from: Seq<char>,
    to: Seq<char>,
    text: Seq<char>,
) -> Option<Seq<char>>;

/// What `jiff` makes of a count of seconds since the Unix epoch when it writes
/// that instant of UTC in a format: nothing where the instant is out of range.
pub uninterp spec fn epoch_formatted(format: Seq<char>, epoch: i64) -> Option<Seq<char>>;

/// `jiff::civil::DateTime::strptime` on `text`, and `strftime` on what it read.
/// The contract names the outcome. It rests on the three texts alone: a civil
/// time has no time zone. `strftime` has a reading for every format, so it does
/// not panic. It writes every part of the compact form with all its digits, and a year
/// before the year 0 with a sign.
#[verifier::external_body]
fn reformat_civil(from: &str, to: &str, text: &str) -> (r: Option<String>)
    ensures
        opt_view(r) == civil_reformatted(from@, to@, text@),
        r matches Some(t) ==> (to@ == COMPACT_FORMAT@ ==> is_compact(t@) || is_signed(t@)),
{
    jiff::civil::DateTime::strptime(from, text).ok().map(|time| time.strftime(to).to_string())
}

/// `jiff::Timestamp::from_second`, and `strftime` in UTC on what it gave. The
/// contract names the outcome.
#[verifier::external_body]
fn format_epoch(format: &str, epoch: i64) -> (r: Option<String>)
    ensures
        opt_view(r) == epoch_formatted(format@, epoch),
{
    jiff::Timestamp::from_second(epoch).ok().map(|time| time.strftime(format).to_string())
}

/// Whether `text` is how `jiff` writes some whole second of UTC in the compact
/// form.
pub open spec fn compact_time(text: Seq<char>) -> bool {
    exists|epoch: i64| #[trigger] epoch_formatted(COMPACT_FORMAT@, epoch) == Some(text)
}

/// `jiff::Timestamp::now`, written in a format. It reads the clock, so the
/// contract does not say which instant it is. The compact format shows no part
/// of a second, so the text is that of a whole second. Every part of it has all its
/// digits, and a year before the year 0 has a sign.
#[verifier::external_body]
fn format_now(format: &str) -> (r: String)
    ensures
        format@ == COMPACT_FORMAT@ ==> compact_time(r@),
        format@ == COMPACT_FORMAT@ ==> is_compact(r@) || is_signed(r@),
{
    jiff::Timestamp::now().strftime(format).to_string()
}

/// The least count of seconds since the Unix epoch that `jiff` has an instant for.
pub const MIN_EPOCH: i64 = -377705023201;

/// The greatest count of seconds since the Unix epoch that `jiff` has an instant
/// for.
pub const MAX_EPOCH: i64 = 253402207200;

/// Whether a count of seconds since the Unix epoch is an instant: it is in range,
/// and it has both text forms.
pub open spec fn is_instant(epoch: i64) -> bool {
    &&& MIN_EPOCH <= epoch <= MAX_EPOCH
    &&& epoch_formatted(COMPACT_FORMAT@, epoch) is Some
    &&& epoch_formatted(RFC3339_FORMAT@, epoch) is Some
}

/// `jiff::Timestamp::now`, and `as_second` on what it gave. It reads the clock, so
/// the contract does not say which number it is. A `Timestamp` holds its seconds
/// within the bounds that `jiff::Timestamp::from_second` asks for, so the number is
/// in range and `from_second` takes it back.
#[verifier::external_body]
fn epoch_now() -> (r: i64)
    ensures
        is_instant(r),
{
    jiff::Timestamp::now().as_second()
}

/// The current UTC time in the compact form. Which time it is depends on the
/// clock.
pub fn current_timestamp() -> (r: String)
    ensures
        compact_time(r@),
        is_compact(r@) || is_signed(r@),
{
    format_now(COMPACT_FORMAT)
}

/// The current time in seconds since the Unix epoch. Which time it is depends on
/// the clock; [`epoch_to_rfc3339`] always has an instant for it.
pub fn current_epoch_seconds() -> (r: i64)
    ensures
        is_instant(r),
{
    epoch_now()
}

/// Whether `text` is a time exactly as [`current_timestamp`] writes one: it
/// reads as the compact form and is written back as it was.
pub open spec fn timestamp(text: Seq<char>) -> bool {
    civil_reformatted(COMPACT_FORMAT@, COMPACT_FORMAT@, text) == Some(text)
}

/// Whether rewriting `text` gave `text` again.
pub fn rewrites_to_itself(text: &str, rewritten: &Option<String>) -> (r: bool)
    ensures
        r == (opt_view(*rewritten) == Some(text@)),
{
    match rewritten {
        Some(again) => same_text(again.as_str(), text),
        None => false,
    }
}

/// Whether `text` is a time exactly as [`current_timestamp`] writes one.
pub fn is_timestamp(text: &str) -> (r: bool)
    ensures
        r == timestamp(text@),
        r ==> is_compact(text@) || is_signed(text@),
{
    let rewritten: Option<String> = reformat_civil(COMPACT_FORMAT, COMPACT_FORMAT, text);
    rewrites_to_itself(text, &rewritten)
}

/// The RFC 3339 form of a compact time: the text itself where it is none.
pub open spec fn rfc3339(text: Seq<char>) -> Seq<char> {
    match civil_reformatted(COMPACT_FORMAT@, RFC3339_FORMAT@, text) {
        Some(rewritten) => rewritten,
        None => text,
    }
}

/// What rewriting `text` gave, or `text` itself where it gave nothing.
pub fn rewritten_or(text: &str, rewritten: Option<String>) -> (r: String)
    ensures
        r@ == (match opt_view(rewritten) {
            Some(other) => other,
            None => text@,
        }),
{
    match rewritten {
        Some(other) => other,
        None => text.to_owned(),
    }
}

/// A compact journal time as RFC 3339. A text of another shape is returned
/// unchanged, so that it is shown rather than mangled.
#[must_use]
pub fn timestamp_to_rfc3339(ts: &str) -> (r: String)
    ensures
        r@ == rfc3339(ts@),
{
    rewritten_or(ts, reformat_civil(COMPACT_FORMAT, RFC3339_FORMAT, ts))
}

/// The current UTC time as RFC 3339: the RFC 3339 form of some compact time.
pub fn current_rfc3339() -> (r: String)
    ensures
        exists|now: Seq<char>| compact_time(now) && r@ == #[trigger] rfc3339(now),
{
    let now: String = current_timestamp();
    timestamp_to_rfc3339(now.as_str())
}

/// What formatting an instant gave, or the number itself where it gave nothing.
pub fn formatted_or_number(epoch: i64, formatted: Option<String>) -> (r: String)
    ensures
        r@ == (match opt_view(formatted) {
            Some(text) => text,
            None => signed_decimal(epoch as int),
        }),
{
    match formatted {
        Some(text) => text,
        None => signed_decimal_text(epoch),
    }
}

/// Seconds since the Unix epoch as an RFC 3339 UTC instant. A count out of the
/// representable range is spelled as a number.
pub fn epoch_to_rfc3339(epoch: i64) -> (r: String)
    ensures
        r@ == (match epoch_formatted(RFC3339_FORMAT@, epoch) {
            Some(text) => text,
            None => signed_decimal(epoch as int),
        }),
{
    formatted_or_number(epoch, format_epoch(RFC3339_FORMAT, epoch))
}

} // verus!
