//! Text as sequences of characters: comparison, ordering, slicing, trimming
//! and decimal numbers.
//!
//! Every contract of this library speaks of a string through its view, the
//! sequence of its characters. The functions here are the executable side of
//! the operations that the contracts use on such sequences.

use vstd::prelude::*;

verus! {

broadcast use vstd::string::group_string_axioms;

/// `String::push` of the standard library: appends one character.
pub assume_specification[ String::push ](s: &mut String, c: char)
    ensures
        final(s)@ == old(s)@.push(c),
;

/// The views of a list of strings.
pub open spec fn views(texts: Seq<String>) -> Seq<Seq<char>> {
    texts.map_values(|t: String| t@)
}

/// The view of an optional string.
pub open spec fn opt_view(text: Option<String>) -> Option<Seq<char>> {
    match text {
        Some(t) => Some(t@),
        None => None,
    }
}

/// The characters of `s`.
pub fn chars_of(s: &str) -> (chars: Vec<char>)
    ensures
        chars@ == s@,
{
    let mut chars: Vec<char> = Vec::new();
    for c in it: s.chars()
        invariant
            chars@ == it.seq().take(it.index()),
            it.seq() == s@,
    {
        chars.push(c);
        assert(chars@ =~= it.seq().take(it.index() + 1));
    }
    assert(s@.take(s@.len() as int) =~= s@);
    chars
}

/// The string of the characters `from..to` of `chars`.
pub fn slice_text(chars: &Vec<char>, from: usize, to: usize) -> (text: String)
    requires
        from <= to <= chars@.len(),
    ensures
        text@ == chars@.subrange(from as int, to as int),
{
    let mut text: String = String::new();
    let mut i: usize = from;
    while i < to
        invariant
            from <= i <= to <= chars@.len(),
            text@ == chars@.subrange(from as int, i as int),
        decreases to - i,
    {
        text.push(chars[i]);
        i = i + 1;
        assert(text@ =~= chars@.subrange(from as int, i as int));
    }
    text
}

/// Whether two strings hold the same characters.
pub fn same_text(a: &str, b: &str) -> (same: bool)
    ensures
        same == (a@ == b@),
{
    let x: String = a.to_owned();
    let y: String = b.to_owned();
    x == y
}

/// Whether `list` holds `text`.
pub fn contains_text(list: &Vec<String>, text: &str) -> (found: bool)
    ensures
        found == views(list@).contains(text@),
{
    let mut i: usize = 0;
    while i < list.len()
        invariant
            i <= list@.len(),
            forall|j: int| 0 <= j < i ==> #[trigger] views(list@)[j] != text@,
        decreases list@.len() - i,
    {
        if same_text(list[i].as_str(), text) {
            assert(views(list@)[i as int] == text@);
            return true;
        }
        i = i + 1;
    }
    false
}

/// A copy of `text` with `tail` behind it.
pub fn joined(text: &str, tail: &str) -> (r: String)
    ensures
        r@ == text@ + tail@,
{
    let mut r: String = text.to_owned();
    r.append(tail);
    r
}

/// A text between two others.
pub open spec fn around(head: Seq<char>, text: Seq<char>, tail: Seq<char>) -> Seq<char> {
    head + text + tail
}

/// `head`, `text` and `tail` in a row.
pub fn put_around(head: &str, text: &str, tail: &str) -> (r: String)
    ensures
        r@ == around(head@, text@, tail@),
{
    let mut r: String = head.to_owned();
    r.append(text);
    r.append(tail);
    r
}

/// The order of two texts: by the first character in which they differ, a text
/// before every longer text that it begins.
pub open spec fn text_less(a: Seq<char>, b: Seq<char>) -> bool
    decreases a.len(),
{
    if b.len() == 0 {
        false
    } else if a.len() == 0 {
        true
    } else if a[0] != b[0] {
        (a[0] as int) < (b[0] as int)
    } else {
        text_less(a.drop_first(), b.drop_first())
    }
}

/// `a` comes before `b`, or is the same text.
pub open spec fn text_le(a: Seq<char>, b: Seq<char>) -> bool {
    a == b || text_less(a, b)
}

/// No text comes before itself.
pub proof fn text_order_is_irreflexive(a: Seq<char>)
    ensures
        !text_less(a, a),
    decreases a.len(),
{
    if a.len() > 0 {
        text_order_is_irreflexive(a.drop_first());
    }
}

/// Of two texts one comes first, unless they are the same.
pub proof fn text_order_is_total(a: Seq<char>, b: Seq<char>)
    ensures
        text_less(a, b) || a == b || text_less(b, a),
    decreases a.len(),
{
    if a.len() > 0 && b.len() > 0 {
        if a[0] == b[0] {
            text_order_is_total(a.drop_first(), b.drop_first());
            if a.drop_first() == b.drop_first() {
                assert(a =~= seq![a[0]] + a.drop_first());
                assert(b =~= seq![b[0]] + b.drop_first());
            }
        }
    } else if a.len() == 0 && b.len() == 0 {
        assert(a =~= b);
    }
}

/// The order of texts is transitive.
pub proof fn text_order_is_transitive(a: Seq<char>, b: Seq<char>, c: Seq<char>)
    requires
        text_less(a, b),
        text_less(b, c),
    ensures
        text_less(a, c),
    decreases a.len(),
{
    if a.len() > 0 && b.len() > 0 && c.len() > 0 {
        if a[0] == b[0] && b[0] == c[0] {
            text_order_is_transitive(a.drop_first(), b.drop_first(), c.drop_first());
        }
    }
}

/// What both texts begin with does not decide their order.
pub proof fn common_prefix_keeps_order(p: Seq<char>, a: Seq<char>, b: Seq<char>)
    ensures
        text_less(p + a, p + b) == text_less(a, b),
    decreases p.len(),
{
    if p.len() == 0 {
        assert(p + a =~= a);
        assert(p + b =~= b);
    } else {
        assert((p + a).drop_first() =~= p.drop_first() + a);
        assert((p + b).drop_first() =~= p.drop_first() + b);
        common_prefix_keeps_order(p.drop_first(), a, b);
    }
}

/// Whether `a` comes before `b`.
pub fn less_text(a: &str, b: &str) -> (less: bool)
    ensures
        less == text_less(a@, b@),
{
    let x: Vec<char> = chars_of(a);
    let y: Vec<char> = chars_of(b);
    let mut i: usize = 0;
    assert(x@.skip(0) =~= x@);
    assert(y@.skip(0) =~= y@);
    while i < x.len() && i < y.len()
        invariant
            i <= x@.len(),
            i <= y@.len(),
            x@ == a@,
            y@ == b@,
            text_less(a@, b@) == text_less(x@.skip(i as int), y@.skip(i as int)),
        decreases x@.len() - i,
    {
        proof {
            assert(x@.skip(i as int).drop_first() =~= x@.skip(i + 1));
            assert(y@.skip(i as int).drop_first() =~= y@.skip(i + 1));
        }
        if x[i] != y[i] {
            return x[i] < y[i];
        }
        i = i + 1;
    }
    i < y.len()
}

/// A list of texts in ascending order.
pub open spec fn ascending(texts: Seq<Seq<char>>) -> bool {
    forall|i: int, j: int| 0 <= i <= j < texts.len() ==> text_le(#[trigger] texts[i], #[trigger] texts[j])
}

/// Sort `texts` in ascending order.
pub fn sort_texts(texts: &mut Vec<String>)
    ensures
        ascending(views(final(texts)@)),
        views(final(texts)@).to_multiset() == views(old(texts)@).to_multiset(),
        final(texts)@.len() == old(texts)@.len(),
{
    let mut done: usize = 0;
    while done < texts.len()
        invariant
            done <= texts@.len(),
            texts@.len() == old(texts)@.len(),
            ascending(views(texts@.take(done as int))),
            views(texts@).to_multiset() == views(old(texts)@).to_multiset(),
        decreases texts@.len() - done,
    {
        insert_text(texts, done);
        done = done + 1;
    }
    assert(texts@.take(done as int) =~= texts@);
}

/// Move the text at `at` to its place among the sorted texts before it.
fn insert_text(texts: &mut Vec<String>, at: usize)
    requires
        at < old(texts)@.len(),
        ascending(views(old(texts)@.take(at as int))),
    ensures
        final(texts)@.len() == old(texts)@.len(),
        ascending(views(final(texts)@.take(at + 1))),
        views(final(texts)@).to_multiset() == views(old(texts)@).to_multiset(),
{
    let mut slot: usize = at;
    while slot > 0 && less_text(texts[at].as_str(), texts[slot - 1].as_str())
        invariant
            slot <= at < texts@.len(),
            texts@ == old(texts)@,
            forall|j: int| slot <= j < at ==> text_less(texts@[at as int]@, #[trigger] texts@[j]@),
        decreases slot,
    {
        slot = slot - 1;
    }
    let ghost before = texts@;
    let moved: String = texts.remove(at);
    let ghost without = texts@;
    texts.insert(slot, moved);
    proof {
        let x = before[at as int];
        let kept = before.take(at as int);
        assert(views(before) =~= views(without).insert(at as int, x@));
        assert(views(texts@) =~= views(without).insert(slot as int, x@));
        vstd::seq_lib::to_multiset_insert(views(without), at as int, x@);
        vstd::seq_lib::to_multiset_insert(views(without), slot as int, x@);
        let now = views(texts@.take(at + 1));
        assert forall|i: int, j: int| 0 <= i <= j < now.len() implies text_le(
            #[trigger] now[i],
            #[trigger] now[j],
        ) by {
            let old_i = if i < slot { i } else { i - 1 };
            let old_j = if j < slot { j } else { j - 1 };
            if i != slot && j != slot {
                assert(now[i] == views(kept)[old_i]);
                assert(now[j] == views(kept)[old_j]);
            } else if i == slot && j != slot {
                assert(now[j] == before[old_j]@);
                assert(text_less(x@, before[old_j]@));
            } else if j == slot && i != slot {
                assert(now[i] == views(kept)[i]);
                assert(now[j] == x@);
                // The search stopped at a text that does not come after `x`.
                assert(!text_less(x@, before[slot - 1]@));
                text_order_is_total(x@, before[slot - 1]@);
                assert(text_le(views(kept)[i], views(kept)[slot - 1]));
                assert(views(kept)[slot - 1] == before[slot - 1]@);
                if now[i] != before[slot - 1]@ && before[slot - 1]@ != x@ {
                    text_order_is_transitive(now[i], before[slot - 1]@, x@);
                }
            }
        }
    }
}


/// Whether `text` begins with `prefix`.
pub fn starts_with(text: &str, prefix: &str) -> (r: bool)
    ensures
        r == prefix@.is_prefix_of(text@),
{
    strip_prefix(text, prefix).is_some()
}

/// `text` without `prefix`, where it begins with it.
pub open spec fn without_prefix(text: Seq<char>, prefix: Seq<char>) -> Option<Seq<char>> {
    if prefix.is_prefix_of(text) {
        Some(text.skip(prefix.len() as int))
    } else {
        None
    }
}

/// `text` without `suffix`, where it ends with it.
pub open spec fn without_suffix(text: Seq<char>, suffix: Seq<char>) -> Option<Seq<char>> {
    if suffix.is_suffix_of(text) {
        Some(text.take(text.len() - suffix.len()))
    } else {
        None
    }
}

/// `text` without `prefix`, or `None` where it does not begin with it.
pub fn strip_prefix(text: &str, prefix: &str) -> (r: Option<String>)
    ensures
        opt_view(r) == without_prefix(text@, prefix@),
{
    let t: Vec<char> = chars_of(text);
    let p: Vec<char> = chars_of(prefix);
    if p.len() > t.len() {
        return None;
    }
    let head: String = slice_text(&t, 0, p.len());
    assert(head@ =~= text@.subrange(0, prefix@.len() as int));
    if same_text(head.as_str(), prefix) {
        let rest: String = slice_text(&t, p.len(), t.len());
        assert(rest@ =~= text@.skip(prefix@.len() as int));
        Some(rest)
    } else {
        None
    }
}

/// `text` without `suffix`, or `None` where it does not end with it.
pub fn strip_suffix(text: &str, suffix: &str) -> (r: Option<String>)
    ensures
        opt_view(r) == without_suffix(text@, suffix@),
{
    let t: Vec<char> = chars_of(text);
    let p: Vec<char> = chars_of(suffix);
    if p.len() > t.len() {
        return None;
    }
    let tail: String = slice_text(&t, t.len() - p.len(), t.len());
    if same_text(tail.as_str(), suffix) {
        let rest: String = slice_text(&t, 0, t.len() - p.len());
        assert(rest@ =~= text@.take(text@.len() - suffix@.len()));
        Some(rest)
    } else {
        None
    }
}

/// The place of the first `c` in `s`, or the length of `s` where there is none.
pub open spec fn first_place(s: Seq<char>, c: char) -> int
    decreases s.len(),
{
    if s.len() == 0 || s[0] == c {
        0
    } else {
        1 + first_place(s.drop_first(), c)
    }
}

/// The first place holds the character, and no place before it does.
pub proof fn first_place_is_first(s: Seq<char>, c: char)
    ensures
        0 <= first_place(s, c) <= s.len(),
        first_place(s, c) < s.len() ==> s[first_place(s, c)] == c,
        forall|j: int| 0 <= j < first_place(s, c) ==> s[j] != c,
        first_place(s, c) < s.len() <==> s.contains(c),
    decreases s.len(),
{
    if s.len() > 0 && s[0] != c {
        first_place_is_first(s.drop_first(), c);
        let k = first_place(s.drop_first(), c);
        assert forall|j: int| 0 <= j < k + 1 implies s[j] != c by {
            if j > 0 {
                assert(s.drop_first()[j - 1] == s[j]);
            }
        }
        if s.contains(c) {
            let j = choose|j: int| 0 <= j < s.len() && s[j] == c;
            assert(s.drop_first()[j - 1] == c);
        }
    }
}

/// The part of `s` before its first `c`: all of `s` where it holds none.
pub open spec fn before_first(s: Seq<char>, c: char) -> Seq<char> {
    s.take(first_place(s, c))
}

/// The part of `s` behind its first `c`.
pub open spec fn after_first(s: Seq<char>, c: char) -> Seq<char>
    recommends
        s.contains(c),
{
    s.skip(first_place(s, c) + 1)
}

/// `text` cut at its first `c`, which is dropped.
pub fn split_once(text: &str, c: char) -> (r: Option<(String, String)>)
    ensures
        r is Some <==> text@.contains(c),
        r matches Some(parts) ==> parts.0@ == before_first(text@, c) && parts.1@ == after_first(
            text@,
            c,
        ),
{
    let t: Vec<char> = chars_of(text);
    let mut i: usize = 0;
    proof {
        first_place_is_first(t@, c);
    }
    while i < t.len()
        invariant
            i <= t@.len(),
            t@ == text@,
            forall|j: int| 0 <= j < i ==> t@[j] != c,
            0 <= first_place(t@, c) <= t@.len(),
            first_place(t@, c) < t@.len() ==> t@[first_place(t@, c)] == c,
            forall|j: int| 0 <= j < first_place(t@, c) ==> t@[j] != c,
        decreases t@.len() - i,
    {
        if t[i] == c {
            assert(first_place(t@, c) == i);
            let head: String = slice_text(&t, 0, i);
            let tail: String = slice_text(&t, i + 1, t.len());
            assert(head@ =~= before_first(text@, c));
            assert(tail@ =~= after_first(text@, c));
            return Some((head, tail));
        }
        i = i + 1;
    }
    None
}

/// A text cut at every `c`, which is dropped: at least one part, and one more for
/// every `c`.
pub open spec fn parts_at(s: Seq<char>, c: char) -> Seq<Seq<char>>
    decreases s.len(),
    via parts_at_shrink
{
    if s.contains(c) {
        seq![before_first(s, c)] + parts_at(after_first(s, c), c)
    } else {
        seq![s]
    }
}

#[via_fn]
proof fn parts_at_shrink(s: Seq<char>, c: char) {
    first_place_is_first(s, c);
}

/// `text` cut at every `c`.
pub fn split_at(text: &str, c: char) -> (parts: Vec<String>)
    ensures
        views(parts@) == parts_at(text@, c),
{
    let mut parts: Vec<String> = Vec::new();
    let mut rest: String = text.to_owned();
    assert(views(parts@) + parts_at(rest@, c) =~= parts_at(text@, c));
    loop
        invariant
            views(parts@) + parts_at(rest@, c) == parts_at(text@, c),
        decreases rest@.len(),
    {
        let ghost done = views(parts@);
        proof {
            first_place_is_first(rest@, c);
        }
        match split_once(rest.as_str(), c) {
            Some((head, tail)) => {
                let ghost h = head@;
                parts.push(head);
                proof {
                    assert(views(parts@) =~= done.push(h));
                    assert(done + (seq![h] + parts_at(tail@, c)) =~= done.push(h) + parts_at(
                        tail@,
                        c,
                    ));
                }
                rest = tail;
            },
            None => {
                let ghost r = rest@;
                parts.push(rest);
                assert(views(parts@) =~= done + seq![r]);
                return parts;
            },
        }
    }
}

/// The characters with the Unicode property `White_Space`.
pub open spec fn is_white_space(c: char) -> bool {
    let n = c as int;
    ||| 0x9 <= n <= 0xd
    ||| n == 0x20
    ||| n == 0x85
    ||| n == 0xa0
    ||| n == 0x1680
    ||| 0x2000 <= n <= 0x200a
    ||| n == 0x2028
    ||| n == 0x2029
    ||| n == 0x202f
    ||| n == 0x205f
    ||| n == 0x3000
}

/// `char::is_whitespace` of the standard library: whether the character has
/// the Unicode property `White_Space`.
pub assume_specification[ char::is_whitespace ](c: char) -> (r: bool)
    ensures
        r == is_white_space(c),
;

/// `s` without the leading characters that have the property `White_Space`.
pub open spec fn trimmed_start(s: Seq<char>) -> Seq<char>
    decreases s.len(),
{
    if s.len() > 0 && is_white_space(s[0]) {
        trimmed_start(s.drop_first())
    } else {
        s
    }
}

/// `s` without the trailing characters that have the property `White_Space`.
pub open spec fn trimmed_end(s: Seq<char>) -> Seq<char>
    decreases s.len(),
{
    if s.len() > 0 && is_white_space(s.last()) {
        trimmed_end(s.drop_last())
    } else {
        s
    }
}

/// `s` without the white space around it.
pub open spec fn trimmed(s: Seq<char>) -> Seq<char> {
    trimmed_end(trimmed_start(s))
}

/// `text` without the white space around it.
pub fn trim(text: &str) -> (r: String)
    ensures
        r@ == trimmed(text@),
{
    let t: Vec<char> = chars_of(text);
    let mut from: usize = 0;
    assert(t@.skip(0) =~= t@);
    while from < t.len() && t[from].is_whitespace()
        invariant
            from <= t@.len(),
            trimmed_start(t@) == trimmed_start(t@.skip(from as int)),
        decreases t@.len() - from,
    {
        assert(t@.skip(from as int).drop_first() =~= t@.skip(from + 1));
        from = from + 1;
    }
    assert(trimmed_start(t@) == t@.skip(from as int));
    let mut to: usize = t.len();
    assert(t@.subrange(from as int, to as int) =~= t@.skip(from as int));
    while to > from && t[to - 1].is_whitespace()
        invariant
            from <= to <= t@.len(),
            trimmed_end(t@.skip(from as int)) == trimmed_end(t@.subrange(from as int, to as int)),
        decreases to,
    {
        assert(t@.subrange(from as int, to as int).drop_last() =~= t@.subrange(
            from as int,
            to - 1,
        ));
        to = to - 1;
    }
    slice_text(&t, from, to)
}

/// Trimming leaves nothing to trim.
pub proof fn trimming_is_idempotent(s: Seq<char>)
    ensures
        trimmed(trimmed(s)) == trimmed(s),
{
    let t = trimmed_start(s);
    trimmed_start_has_no_leading_space(s);
    trimmed_end_keeps_the_start(t);
}

proof fn trimmed_start_has_no_leading_space(s: Seq<char>)
    ensures
        trimmed_start(s).len() > 0 ==> !is_white_space(trimmed_start(s)[0]),
    decreases s.len(),
{
    if s.len() > 0 && is_white_space(s[0]) {
        trimmed_start_has_no_leading_space(s.drop_first());
    }
}

proof fn trimmed_end_keeps_the_start(s: Seq<char>)
    requires
        s.len() > 0 ==> !is_white_space(s[0]),
    ensures
        trimmed_start(trimmed_end(s)) == trimmed_end(s),
        trimmed_end(trimmed_end(s)) == trimmed_end(s),
    decreases s.len(),
{
    if s.len() > 0 && is_white_space(s.last()) {
        trimmed_end_keeps_the_start(s.drop_last());
    }
}

} // verus!
