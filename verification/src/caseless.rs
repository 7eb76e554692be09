//! One spelling for a name that two filesystems, or two authors, may spell
//! differently.
//!
//! The check for colliding targets must come to the same answer on Linux as on
//! the case-insensitive filesystems of macOS and Windows, and the names of
//! remotes become directory names on all three. Both fold names by the one
//! function here, so that the meaning of a manifest is a property of the
//! manifest and not of the machine that reads it.

use crate::text::chars_of;
use unicode_normalization::UnicodeNormalization;
use vstd::prelude::*;

verus! {

/// Whether every character is ASCII.
pub open spec fn ascii_text(text: Seq<char>) -> bool {
    forall|i: int| 0 <= i < text.len() ==> (#[trigger] text[i] as int) < 128
}

/// A letter of `A` to `Z` in lowercase; any other character as it is.
pub open spec fn ascii_lower_char(c: char) -> char {
    if 'A' as int <= c as int && c as int <= 'Z' as int {
        (c as int + 32) as char
    } else {
        c
    }
}

/// A text with `A` to `Z` in lowercase.
pub open spec fn ascii_lower(text: Seq<char>) -> Seq<char> {
    text.map_values(|c: char| ascii_lower_char(c))
}

/// A text in lowercase.
pub uninterp spec fn lowercased(text: Seq<char>) -> Seq<char>;

/// A text in Unicode Normalization Form C.
pub uninterp spec fn nfc(text: Seq<char>) -> Seq<char>;

/// A text in lowercase, by [`str::to_lowercase`]. Of an ASCII text this is the
/// text with `A` to `Z` in lowercase; of any other it is left to the Unicode
/// tables of that function. A character without a lowercase form stays, so that a
/// space does.
#[verifier::external_body]
fn to_lowercase(text: &str) -> (r: String)
    ensures
        r@ == lowercased(text@),
        ascii_text(text@) ==> r@ == ascii_lower(text@),
        text@.contains(' ') ==> r@.contains(' '),
{
    text.to_lowercase()
}

/// A text in Unicode Normalization Form C, by [`UnicodeNormalization::nfc`]. A text
/// in that form is left as it is. A space has no decomposition and composes with
/// nothing, so that it stays.
#[verifier::external_body]
fn to_nfc(text: &str) -> (r: String)
    ensures
        r@ == nfc(text@),
        nfc(r@) == r@,
        text@.contains(' ') ==> r@.contains(' '),
{
    text.nfc().collect()
}

/// A text folded to one case and one normal form. ASCII has no decompositions,
/// so that only its case is folded. The case mapping can leave its own output
/// unnormalized: hence the two passes around it.
pub open spec fn folded(text: Seq<char>) -> Seq<char> {
    if ascii_text(text) {
        ascii_lower(text)
    } else {
        nfc(lowercased(nfc(text)))
    }
}

/// Whether lowering the case of a text would leave it as it is.
pub open spec fn is_lower(text: Seq<char>) -> bool {
    if ascii_text(text) {
        ascii_lower(text) == text
    } else {
        lowercased(text) == text
    }
}

/// Whether every character is ASCII.
pub fn is_ascii(text: &str) -> (r: bool)
    ensures
        r == ascii_text(text@),
{
    let chars: Vec<char> = chars_of(text);
    let mut i: usize = 0;
    while i < chars.len()
        invariant
            i <= chars@.len(),
            chars@ == text@,
            forall|k: int| 0 <= k < i ==> (#[trigger] chars@[k] as int) < 128,
        decreases chars@.len() - i,
    {
        if chars[i] > '\x7f' {
            assert(chars@[i as int] as int >= 128);
            return false;
        }
        i = i + 1;
    }
    true
}

/// `char::to_ascii_lowercase` of the standard library: a letter of `A` to `Z` in
/// lowercase, and any other character as it is.
pub assume_specification[ char::to_ascii_lowercase ](c: &char) -> (r: char)
    ensures
        r == ascii_lower_char(*c),
;

/// A text with `A` to `Z` in lowercase.
pub fn lower_ascii(text: &str) -> (r: String)
    ensures
        r@ == ascii_lower(text@),
{
    let chars: Vec<char> = chars_of(text);
    let mut r: String = String::new();
    assert(r@ =~= Seq::<char>::empty());
    let mut i: usize = 0;
    while i < chars.len()
        invariant
            i <= chars@.len(),
            chars@ == text@,
            r@ == ascii_lower(chars@.take(i as int)),
        decreases chars@.len() - i,
    {
        r.push(chars[i].to_ascii_lowercase());
        assert(r@ =~= ascii_lower(chars@.take(i + 1)));
        i = i + 1;
    }
    assert(chars@.take(i as int) =~= chars@);
    r
}

/// Folds `value` to one case and one Unicode normal form.
///
/// The mapping is to lowercase and not full case folding, which would take `ß`
/// to `ss` and merge two names that macOS keeps apart. Folding what was folded
/// changes nothing more, if lowering its case does not; of an ASCII text that is
/// always so. A space stays.
#[must_use]
pub fn fold(value: &str) -> (r: String)
    ensures
        r@ == folded(value@),
        ascii_text(value@) ==> r@ == ascii_lower(value@) && r@.len() == value@.len(),
        ascii_text(value@) ==> is_lower(r@),
        is_lower(r@) ==> folded(r@) == r@,
        value@.contains(' ') ==> r@.contains(' '),
{
    if is_ascii(value) {
        proof {
            ascii_folding_is_idempotent(value@);
        }
        return to_lowercase(value);
    }
    to_nfc(to_lowercase(to_nfc(value).as_str()).as_str())
}

/// Two ASCII names that differ only in case fold to the same name.
pub proof fn ascii_case_folds_together(a: Seq<char>, b: Seq<char>)
    requires
        ascii_text(a),
        ascii_text(b),
        ascii_lower(a) == ascii_lower(b),
    ensures
        folded(a) == folded(b),
{
}

/// Folding an ASCII name twice changes nothing more.
pub proof fn ascii_folding_is_idempotent(text: Seq<char>)
    requires
        ascii_text(text),
    ensures
        ascii_text(folded(text)),
        folded(folded(text)) == folded(text),
{
    let once = ascii_lower(text);
    assert forall|i: int| 0 <= i < once.len() implies (#[trigger] once[i] as int) < 128 by {
        assert((text[i] as int) < 128);
    }
    assert(ascii_lower(once) =~= once);
}

} // verus!
