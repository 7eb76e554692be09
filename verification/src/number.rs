//! Decimal numbers as text.

use crate::text::common_prefix_keeps_order;
use crate::text::text_less;
use vstd::prelude::*;

verus! {

/// The decimal digit of a number below ten.
pub open spec fn digit(n: int) -> char {
    (0x30 + n) as char
}

/// Whether a character is an ASCII decimal digit.
pub open spec fn is_digit(c: char) -> bool {
    0x30 <= c as int <= 0x39
}

/// The number that a decimal digit stands for.
pub open spec fn digit_value(c: char) -> int {
    c as int - 0x30
}

/// Whether every character of `s` is an ASCII decimal digit.
pub open spec fn all_digits(s: Seq<char>) -> bool {
    forall|i: int| 0 <= i < s.len() ==> is_digit(#[trigger] s[i])
}

/// The number that a row of decimal digits stands for.
pub open spec fn digits_value(s: Seq<char>) -> int
    decreases s.len(),
{
    if s.len() == 0 {
        0
    } else {
        digits_value(s.drop_last()) * 10 + digit_value(s.last())
    }
}

/// The shortest decimal spelling of `n`.
pub open spec fn decimal(n: nat) -> Seq<char>
    decreases n,
{
    if n < 10 {
        seq![digit(n as int)]
    } else {
        decimal(n / 10).push(digit((n % 10) as int))
    }
}

/// The last `width` decimal digits of `n`, with leading zeros.
pub open spec fn padded(n: nat, width: nat) -> Seq<char>
    decreases width,
{
    if width == 0 {
        Seq::empty()
    } else {
        padded(n / 10, (width - 1) as nat).push(digit((n % 10) as int))
    }
}

/// The decimal spelling of a signed number.
pub open spec fn signed_decimal(n: int) -> Seq<char> {
    if n < 0 {
        seq!['-'] + decimal((-n) as nat)
    } else {
        decimal(n as nat)
    }
}

/// The decimal digit of a number below ten.
pub fn digit_char(n: u64) -> (c: char)
    requires
        n < 10,
    ensures
        c == digit(n as int),
{
    match n {
        0 => '0',
        1 => '1',
        2 => '2',
        3 => '3',
        4 => '4',
        5 => '5',
        6 => '6',
        7 => '7',
        8 => '8',
        _ => '9',
    }
}

/// Whether a character is an ASCII decimal digit.
pub fn is_digit_char(c: char) -> (r: bool)
    ensures
        r == is_digit(c),
{
    '0' <= c && c <= '9'
}

/// The number that a decimal digit stands for.
pub fn digit_number(c: char) -> (n: u64)
    requires
        is_digit(c),
    ensures
        n == digit_value(c),
        n < 10,
{
    match c {
        '0' => 0,
        '1' => 1,
        '2' => 2,
        '3' => 3,
        '4' => 4,
        '5' => 5,
        '6' => 6,
        '7' => 7,
        '8' => 8,
        _ => 9,
    }
}

/// The shortest decimal spelling of `n`.
pub fn decimal_text(n: u64) -> (text: String)
    ensures
        text@ == decimal(n as nat),
    decreases n,
{
    let mut text: String = if n < 10 {
        String::new()
    } else {
        decimal_text(n / 10)
    };
    text.push(digit_char(n % 10));
    assert(n < 10 ==> text@ =~= seq![digit(n as int)]);
    text
}

/// The decimal spelling of a signed number.
pub fn signed_decimal_text(n: i64) -> (text: String)
    ensures
        text@ == signed_decimal(n as int),
{
    if n >= 0 {
        return decimal_text(n as u64);
    }
    let mut text: String = String::new();
    text.push('-');
    let size: u64 = if n == i64::MIN {
        0x8000_0000_0000_0000
    } else {
        (-n) as u64
    };
    let tail: String = decimal_text(size);
    text.append(tail.as_str());
    assert(text@ =~= seq!['-'] + decimal((-n) as nat));
    text
}

/// The last `width` decimal digits of `n`, with leading zeros.
pub fn padded_text(n: u64, width: u32) -> (text: String)
    ensures
        text@ == padded(n as nat, width as nat),
    decreases width,
{
    if width == 0 {
        return String::new();
    }
    let mut text: String = padded_text(n / 10, width - 1);
    text.push(digit_char(n % 10));
    text
}

/// Whether every character of `chars` is an ASCII decimal digit.
pub fn only_digits(chars: &Vec<char>) -> (r: bool)
    ensures
        r == all_digits(chars@),
{
    let mut i: usize = 0;
    while i < chars.len()
        invariant
            i <= chars@.len(),
            forall|j: int| 0 <= j < i ==> is_digit(#[trigger] chars@[j]),
        decreases chars@.len() - i,
    {
        if !is_digit_char(chars[i]) {
            return false;
        }
        i = i + 1;
    }
    true
}

/// The number that a row of decimal digits stands for, or `None` where a `u64`
/// cannot hold it.
pub fn parse_digits(chars: &Vec<char>) -> (r: Option<u64>)
    requires
        all_digits(chars@),
    ensures
        r is Some <==> digits_value(chars@) <= u64::MAX,
        r matches Some(n) ==> n == digits_value(chars@),
{
    let mut n: u64 = 0;
    let mut i: usize = 0;
    while i < chars.len()
        invariant
            i <= chars@.len(),
            all_digits(chars@),
            n == digits_value(chars@.take(i as int)),
        decreases chars@.len() - i,
    {
        let d: u64 = digit_number(chars[i]);
        assert(chars@.take(i + 1).drop_last() =~= chars@.take(i as int));
        proof {
            prefix_value_is_smaller(chars@, i + 1);
        }
        if n > u64::MAX / 10 {
            return None;
        }
        if n * 10 > u64::MAX - d {
            return None;
        }
        n = n * 10 + d;
        i = i + 1;
    }
    assert(chars@.take(i as int) =~= chars@);
    Some(n)
}

/// A row of digits stands for a number no smaller than any row that it begins
/// with.
proof fn prefix_value_is_smaller(s: Seq<char>, n: int)
    requires
        all_digits(s),
        0 <= n <= s.len(),
    ensures
        0 <= digits_value(s.take(n)) <= digits_value(s),
    decreases s.len(),
{
    if n == s.len() {
        assert(s.take(n) =~= s);
        if s.len() > 0 {
            assert(s.drop_last() =~= s.take(n - 1));
            assert(all_digits(s.drop_last()));
            prefix_value_is_smaller(s.drop_last(), n - 1);
        }
    } else {
        assert(s.drop_last().take(n) =~= s.take(n));
        assert(all_digits(s.drop_last()));
        prefix_value_is_smaller(s.drop_last(), n);
    }
}

/// A row of digits stands for no negative number.
pub proof fn digits_are_not_negative(s: Seq<char>)
    requires
        all_digits(s),
    ensures
        digits_value(s) >= 0,
{
    prefix_value_is_smaller(s, 0);
}

/// The number of values that `width` decimal digits can spell.
pub open spec fn digit_span(width: nat) -> nat
    decreases width,
{
    if width == 0 {
        1
    } else {
        digit_span((width - 1) as nat) * 10
    }
}

/// Twenty digits spell every `u64`.
pub proof fn twenty_digits_hold_a_u64()
    ensures
        digit_span(20) > u64::MAX,
{
    reveal_with_fuel(digit_span, 21);
}

/// A padded number reads back as the number, and is made of digits.
pub proof fn padded_reads_back(n: nat, width: nat)
    requires
        n < digit_span(width),
    ensures
        padded(n, width).len() == width,
        all_digits(padded(n, width)),
        digits_value(padded(n, width)) == n,
    decreases width,
{
    if width > 0 {
        let head = padded(n / 10, (width - 1) as nat);
        padded_reads_back(n / 10, (width - 1) as nat);
        assert(padded(n, width).drop_last() =~= head);
    }
}

/// A decimal spelling reads back as the number, and is made of digits.
pub proof fn decimal_reads_back(n: nat)
    ensures
        decimal(n).len() > 0,
        all_digits(decimal(n)),
        digits_value(decimal(n)) == n,
    decreases n,
{
    reveal_with_fuel(digits_value, 2);
    if n >= 10 {
        decimal_reads_back(n / 10);
        assert(decimal(n).drop_last() =~= decimal(n / 10));
    } else {
        assert(decimal(n).drop_last() =~= Seq::<char>::empty());
    }
}

/// Padded to one width, smaller numbers come first.
pub proof fn padding_keeps_order(a: nat, b: nat, width: nat)
    requires
        a < b < digit_span(width),
    ensures
        text_less(padded(a, width), padded(b, width)),
    decreases width,
{
    if width > 0 {
        let w = (width - 1) as nat;
        let x = padded(a / 10, w);
        let y = padded(b / 10, w);
        let p = seq![digit((a % 10) as int)];
        let q = seq![digit((b % 10) as int)];
        assert(padded(a, width) =~= x + p);
        assert(padded(b, width) =~= y + q);
        padded_reads_back(a / 10, w);
        padded_reads_back(b / 10, w);
        if a / 10 < b / 10 {
            padding_keeps_order(a / 10, b / 10, w);
            order_ignores_tails(x, y, p, q);
        } else {
            common_prefix_keeps_order(x, p, q);
            assert(text_less(p, q));
        }
    }
}

/// Two texts of one length keep their order whatever is put behind them.
pub proof fn order_ignores_tails(x: Seq<char>, y: Seq<char>, p: Seq<char>, q: Seq<char>)
    requires
        x.len() == y.len(),
        text_less(x, y),
    ensures
        text_less(x + p, y + q),
    decreases x.len(),
{
    if x.len() > 0 {
        if x[0] == y[0] {
            order_ignores_tails(x.drop_first(), y.drop_first(), p, q);
            assert((x + p).drop_first() =~= x.drop_first() + p);
            assert((y + q).drop_first() =~= y.drop_first() + q);
        }
    }
}

} // verus!
