//! The registry of remotes in the root manifest.
//!
//! Every third-party git source is declared once in the root `patina.toml`, as a
//! `[[remote]]` table: a URL, an optional ref, an optional floor for the age of
//! updates, and a name by which other manifests refer to it. Ages are written as
//! a whole number and one of the units `s`, `m`, `h` and `d`.

use crate::caseless::ascii_lower;
use crate::caseless::ascii_text;
use crate::caseless::fold;
use crate::caseless::folded;
use crate::caseless::lower_ascii;
use crate::number::all_digits;
use crate::number::decimal;
use crate::number::decimal_reads_back;
use crate::number::digits_are_not_negative;
use crate::number::digits_value;
use crate::number::is_digit;
use crate::number::is_digit_char;
use crate::number::only_digits;
use crate::number::parse_digits;
use crate::paths::is_empty;
use crate::text::around;
use crate::text::before_first;
use crate::text::chars_of;
use crate::text::first_place_is_first;
use crate::text::is_white_space;
use crate::text::opt_view;
use crate::text::put_around;
use crate::text::same_text;
use crate::text::slice_text;
use crate::text::split_once;
use crate::text::strip_suffix;
use crate::text::text_less;
use crate::text::text_order_is_irreflexive;
use crate::text::text_order_is_total;
use crate::text::text_order_is_transitive;
use crate::text::trim;
use crate::text::trimmed;
use crate::text::trimming_is_idempotent;
use crate::text::trimmed_end;
use crate::text::trimmed_start;
use crate::text::without_suffix;
use std::cmp::Ordering;
use vstd::prelude::*;
use vstd::std_specs::cmp::PartialEqSpec;
use vstd::std_specs::cmp::PartialOrdSpec;

verus! {

/// The floor for the age of updates, in seconds, where neither the remote nor
/// the root manifest names one: 72 hours.
pub const DEFAULT_MIN_AGE: u64 = 259200;

/// A length of time in whole seconds.
#[derive(Debug, Clone, Copy, PartialEq, Eq, Structural)]
pub struct Duration {
    /// The seconds.
    pub secs: u64,
}

impl Duration {
    /// The seconds.
    #[must_use]
    pub fn as_secs(&self) -> (secs: u64)
        ensures
            secs == self.secs,
    {
        self.secs
    }
}

/// Why a name that ends in a dot is refused.
pub const TRAILING_DOT: &'static str =
    "Windows strips a trailing dot, so this would name a different directory";

/// Why the name of a device is refused.
pub const DEVICE_NAME: &'static str =
    "Windows reserves CON, PRN, AUX, NUL, COM0-9, and LPT0-9 as device names, with or without an extension";

/// Errors in the registry of remotes.
#[derive(Debug, Clone, PartialEq, Eq)]
#[non_exhaustive]
pub enum RemoteConfigError {
    /// A remote has an empty URL.
    EmptyUrl,
    /// No name was written and none can be taken from the URL.
    UnderivableName {
        /// The URL.
        url: String,
    },
    /// A name cannot be a cache directory and a key of the lockfile.
    IllegalName {
        /// The name.
        name: String,
    },
    /// A name is a file name on Unix but not on Windows.
    NonPortableName {
        /// The name.
        name: String,
        /// What Windows does with it.
        reason: &'static str,
    },
    /// A name is that of one of patina's own files in the cache directory.
    ReservedName {
        /// The name.
        name: String,
    },
    /// Two remotes claim one name.
    DuplicateName {
        /// The name.
        name: String,
    },
    /// A module manifest declares a remote.
    ModuleRemoteTable,
    /// A URL or a ref begins with `-`, which git would take for an option.
    LeadingDash {
        /// The key: `url` or `ref`.
        key: &'static str,
        /// The value.
        value: String,
    },
    /// A duration is not a whole number and a unit.
    InvalidDuration {
        /// The key that the duration was declared under.
        key: &'static str,
        /// The value.
        value: String,
    },
}

/// An error with its texts as sequences of characters.
#[verifier::ext_equal]
pub ghost enum RemoteFault {
    /// A remote has an empty URL.
    EmptyUrl,
    /// No name can be taken from the URL.
    UnderivableName { url: Seq<char> },
    /// A name cannot be used.
    IllegalName { name: Seq<char> },
    /// A name means something else on Windows.
    NonPortableName { name: Seq<char>, reason: Seq<char> },
    /// A name is taken.
    ReservedName { name: Seq<char> },
    /// A name is declared twice.
    DuplicateName { name: Seq<char> },
    /// A module manifest declares a remote.
    ModuleRemoteTable,
    /// A value begins with `-`.
    LeadingDash { key: Seq<char>, value: Seq<char> },
    /// A duration cannot be read.
    InvalidDuration { key: Seq<char>, value: Seq<char> },
}

impl View for RemoteConfigError {
    type V = RemoteFault;

    open spec fn view(&self) -> RemoteFault {
        match *self {
            RemoteConfigError::EmptyUrl => RemoteFault::EmptyUrl,
            RemoteConfigError::UnderivableName { url } => RemoteFault::UnderivableName { url: url@ },
            RemoteConfigError::IllegalName { name } => RemoteFault::IllegalName { name: name@ },
            RemoteConfigError::NonPortableName { name, reason } => RemoteFault::NonPortableName {
                name: name@,
                reason: reason@,
            },
            RemoteConfigError::ReservedName { name } => RemoteFault::ReservedName { name: name@ },
            RemoteConfigError::DuplicateName { name } => RemoteFault::DuplicateName { name: name@ },
            RemoteConfigError::ModuleRemoteTable => RemoteFault::ModuleRemoteTable,
            RemoteConfigError::LeadingDash { key, value } => RemoteFault::LeadingDash {
                key: key@,
                value: value@,
            },
            RemoteConfigError::InvalidDuration { key, value } => RemoteFault::InvalidDuration {
                key: key@,
                value: value@,
            },
        }
    }
}

pub const UNDERIVABLE_HEAD: &'static str = "cannot derive a name from the remote url `";

pub const UNDERIVABLE_TAIL: &'static str = "`; add `name = \"...\"` to its [[remote]] table";

pub const NAME_HEAD: &'static str = "the remote name `";

pub const ILLEGAL_TAIL: &'static str =
    "` is not usable; a name may contain only letters, digits, `.`, `_`, and `-`, and may not be `.` or `..`";

pub const PORTABLE_MIDDLE: &'static str = "` is not a portable directory name: ";

pub const PORTABLE_TAIL: &'static str =
    ". A manifest must mean the same thing on macOS, Linux, and Windows, so such a name is refused on every platform rather than only where it breaks";

pub const RESERVED_TAIL: &'static str =
    "` is reserved; `notice`, `pending`, and `last_check` name Patina's own files beside the per-remote cache directories";

pub const DUPLICATE_HEAD: &'static str = "two [[remote]] tables declare the name `";

pub const DUPLICATE_TAIL: &'static str =
    "`; a remote name addresses one pin, one cache directory, and one `patina remote` target, so it must be unique (names are compared ignoring case and Unicode normalization)";

pub const EMPTY_URL: &'static str =
    "[[remote]] declares an empty `url`; a remote needs a git URL to fetch";

pub const MODULE_TABLE: &'static str =
    "a module manifest declares a `[remote]` table; declare the remote once in the root patina.toml as a `[[remote]]` table, then point each entry at it with `remote = \"<name>\"`";

pub const DASH_HEAD: &'static str = "[[remote]] `";

pub const DASH_MIDDLE: &'static str = "` may not begin with `-` (`";

pub const DASH_TAIL: &'static str =
    "`); git would read a leading dash as an option, so a manifest could smuggle flags like `--upload-pack` into a fetch";

pub const DURATION_HEAD: &'static str = "invalid duration `";

pub const DURATION_MIDDLE: &'static str = "` for `";

pub const DURATION_TAIL: &'static str =
    "`; write a whole number followed by one of `s`, `m`, `h`, `d` (for example `0s`, `30m`, `72h`, `7d`)";

impl RemoteFault {
    /// The error in words.
    pub open spec fn words(self) -> Seq<char> {
        match self {
            RemoteFault::EmptyUrl => EMPTY_URL@,
            RemoteFault::UnderivableName { url } => around(UNDERIVABLE_HEAD@, url, UNDERIVABLE_TAIL@),
            RemoteFault::IllegalName { name } => around(NAME_HEAD@, name, ILLEGAL_TAIL@),
            RemoteFault::NonPortableName { name, reason } => around(
                around(NAME_HEAD@, name, PORTABLE_MIDDLE@),
                reason,
                PORTABLE_TAIL@,
            ),
            RemoteFault::ReservedName { name } => around(NAME_HEAD@, name, RESERVED_TAIL@),
            RemoteFault::DuplicateName { name } => around(DUPLICATE_HEAD@, name, DUPLICATE_TAIL@),
            RemoteFault::ModuleRemoteTable => MODULE_TABLE@,
            RemoteFault::LeadingDash { key, value } => around(
                around(DASH_HEAD@, key, DASH_MIDDLE@),
                value,
                DASH_TAIL@,
            ),
            RemoteFault::InvalidDuration { key, value } => around(
                around(DURATION_HEAD@, value, DURATION_MIDDLE@),
                key,
                DURATION_TAIL@,
            ),
        }
    }
}

impl RemoteConfigError {
    /// The error in words.
    pub fn message(&self) -> (r: String)
        ensures
            r@ == self@.words(),
    {
        match self {
            RemoteConfigError::EmptyUrl => EMPTY_URL.to_owned(),
            RemoteConfigError::UnderivableName { url } => put_around(
                UNDERIVABLE_HEAD,
                url.as_str(),
                UNDERIVABLE_TAIL,
            ),
            RemoteConfigError::IllegalName { name } => put_around(
                NAME_HEAD,
                name.as_str(),
                ILLEGAL_TAIL,
            ),
            RemoteConfigError::NonPortableName { name, reason } => put_around(
                put_around(NAME_HEAD, name.as_str(), PORTABLE_MIDDLE).as_str(),
                reason,
                PORTABLE_TAIL,
            ),
            RemoteConfigError::ReservedName { name } => put_around(
                NAME_HEAD,
                name.as_str(),
                RESERVED_TAIL,
            ),
            RemoteConfigError::DuplicateName { name } => put_around(
                DUPLICATE_HEAD,
                name.as_str(),
                DUPLICATE_TAIL,
            ),
            RemoteConfigError::ModuleRemoteTable => MODULE_TABLE.to_owned(),
            RemoteConfigError::LeadingDash { key, value } => put_around(
                put_around(DASH_HEAD, key, DASH_MIDDLE).as_str(),
                value.as_str(),
                DASH_TAIL,
            ),
            RemoteConfigError::InvalidDuration { key, value } => put_around(
                put_around(DURATION_HEAD, value.as_str(), DURATION_MIDDLE).as_str(),
                key,
                DURATION_TAIL,
            ),
        }
    }
}

/// Whether a character may stand in a name.
pub open spec fn name_char(c: char) -> bool {
    let n = c as int;
    ||| 'a' as int <= n <= 'z' as int
    ||| 'A' as int <= n <= 'Z' as int
    ||| is_digit(c)
    ||| c == '.'
    ||| c == '_'
    ||| c == '-'
}

/// Whether a text is not empty, `.` or `..` and holds only characters of names.
pub open spec fn usable_name(name: Seq<char>) -> bool {
    &&& name.len() > 0
    &&& name != "."@
    &&& name != ".."@
    &&& forall|i: int| 0 <= i < name.len() ==> name_char(#[trigger] name[i])
}

/// Whether a stem in lowercase is that of a device of Windows.
pub open spec fn device_stem(stem: Seq<char>) -> bool {
    ||| stem == "con"@
    ||| stem == "prn"@
    ||| stem == "aux"@
    ||| stem == "nul"@
    ||| (stem.len() > 0 && is_digit(stem.last()) && (stem.drop_last() == "com"@ || stem.drop_last()
        == "lpt"@))
}

/// Why Windows would not treat a name as that of an ordinary directory.
pub open spec fn not_portable(name: Seq<char>) -> Option<Seq<char>> {
    if name.len() > 0 && name.last() == '.' {
        Some(TRAILING_DOT@)
    } else if device_stem(ascii_lower(before_first(name, '.'))) {
        Some(DEVICE_NAME@)
    } else {
        None
    }
}

/// Whether a folded name is that of one of patina's own files.
pub open spec fn reserved_key(key: Seq<char>) -> bool {
    key == "notice"@ || key == "pending"@ || key == "last_check"@
}

/// What is wrong with a name.
pub open spec fn name_fault(name: Seq<char>) -> Option<RemoteFault> {
    if !usable_name(name) {
        Some(RemoteFault::IllegalName { name })
    } else {
        match not_portable(name) {
            Some(reason) => Some(RemoteFault::NonPortableName { name, reason }),
            None => if reserved_key(folded(name)) {
                Some(RemoteFault::ReservedName { name })
            } else {
                None
            },
        }
    }
}

/// The name of a remote: the spelling that its author wrote, and the folded key
/// that decides which remote it is.
///
/// The name becomes a directory of the cache, a key of the lockfile and the
/// argument of commands. Two spellings that a case-insensitive filesystem cannot
/// keep apart are therefore one remote.
#[derive(Debug)]
pub struct RemoteName {
    display: String,
    key: String,
}

impl View for RemoteName {
    type V = Seq<char>;

    closed spec fn view(&self) -> Seq<char> {
        self.display@
    }
}

impl Clone for RemoteName {
    fn clone(&self) -> (r: Self)
        ensures
            r@ == self@,
    {
        proof {
            use_type_invariant(self);
        }
        RemoteName { display: self.display.clone(), key: self.key.clone() }
    }
}

impl PartialEq for RemoteName {
    fn eq(&self, other: &Self) -> (r: bool) {
        proof {
            use_type_invariant(self);
            use_type_invariant(other);
        }
        same_text(self.key.as_str(), other.key.as_str())
    }
}

impl vstd::std_specs::cmp::PartialEqSpecImpl for RemoteName {
    open spec fn obeys_eq_spec() -> bool {
        true
    }

    open spec fn eq_spec(&self, other: &Self) -> bool {
        folded(self@) == folded(other@)
    }
}

impl Eq for RemoteName {

}

/// `Hash` for `String` of the standard library, which feeds the text to a hasher. What
/// that makes of it is left to the hasher, so nothing is said of it.
pub assume_specification<H>[ <String as std::hash::Hash>::hash ](text: &String, state: &mut H) where
    H: std::hash::Hasher,
;

impl std::hash::Hash for RemoteName {
    /// Feeds the key to the hasher, and nothing else.
    fn hash<H: std::hash::Hasher>(&self, state: &mut H) {
        self.key.hash(state);
    }
}

impl Ord for RemoteName {
    /// The order of the keys, by `Ord` for `String` of the standard library: that of
    /// the characters in which two texts first differ, a text before every longer text
    /// that it begins.
    #[verifier::external_body]
    fn cmp(&self, other: &Self) -> (r: Ordering)
        ensures
            match r {
                Ordering::Less => text_less(self.key_text(), other.key_text()),
                Ordering::Equal => self.key_text() == other.key_text(),
                Ordering::Greater => text_less(other.key_text(), self.key_text()),
            },
    {
        self.key.cmp(&other.key)
    }
}

impl PartialOrd for RemoteName {
    fn partial_cmp(&self, other: &Self) -> (r: Option<Ordering>) {
        proof {
            use_type_invariant(self);
            use_type_invariant(other);
            key_order_has_one_answer(self.key_text(), other.key_text());
        }
        Some(self.cmp(other))
    }
}

impl vstd::std_specs::cmp::PartialOrdSpecImpl for RemoteName {
    open spec fn obeys_partial_cmp_spec() -> bool {
        true
    }

    open spec fn partial_cmp_spec(&self, other: &Self) -> Option<Ordering> {
        if text_less(folded(self@), folded(other@)) {
            Some(Ordering::Less)
        } else if folded(self@) == folded(other@) {
            Some(Ordering::Equal)
        } else {
            Some(Ordering::Greater)
        }
    }
}

fn is_name_char(c: char) -> (r: bool)
    ensures
        r == name_char(c),
{
    ('a' <= c && c <= 'z') || ('A' <= c && c <= 'Z') || is_digit_char(c) || c == '.' || c == '_' || c
        == '-'
}

fn is_usable_name(name: &str) -> (r: bool)
    ensures
        r == usable_name(name@),
{
    if same_text(name, ".") || same_text(name, "..") {
        return false;
    }
    let chars: Vec<char> = chars_of(name);
    let mut i: usize = 0;
    while i < chars.len()
        invariant
            i <= chars@.len(),
            chars@ == name@,
            forall|k: int| 0 <= k < i ==> name_char(#[trigger] chars@[k]),
        decreases chars@.len() - i,
    {
        if !is_name_char(chars[i]) {
            return false;
        }
        i = i + 1;
    }
    chars.len() > 0
}

fn is_device_stem(stem: &str) -> (r: bool)
    ensures
        r == device_stem(stem@),
{
    if same_text(stem, "con") || same_text(stem, "prn") || same_text(stem, "aux") || same_text(
        stem,
        "nul",
    ) {
        return true;
    }
    let chars: Vec<char> = chars_of(stem);
    if chars.len() == 0 || !is_digit_char(chars[chars.len() - 1]) {
        return false;
    }
    let front: String = slice_text(&chars, 0, chars.len() - 1);
    assert(front@ =~= stem@.drop_last());
    same_text(front.as_str(), "com") || same_text(front.as_str(), "lpt")
}

/// Why Windows would not treat `name` as the name of an ordinary directory.
pub fn non_portable_reason(name: &str) -> (r: Option<&'static str>)
    ensures
        match not_portable(name@) {
            Some(reason) => r matches Some(text) && text@ == reason,
            None => r is None,
        },
{
    let chars: Vec<char> = chars_of(name);
    if chars.len() > 0 && chars[chars.len() - 1] == '.' {
        return Some(TRAILING_DOT);
    }
    let stem: String = match split_once(name, '.') {
        Some((stem, _)) => stem,
        None => name.to_owned(),
    };
    proof {
        first_place_is_first(name@, '.');
        assert(!name@.contains('.') ==> before_first(name@, '.') =~= name@);
    }
    if is_device_stem(lower_ascii(stem.as_str()).as_str()) {
        return Some(DEVICE_NAME);
    }
    None
}

/// The key that decides which remote a spelling of a name stands for.
#[must_use]
pub fn name_key(name: &str) -> (key: String)
    ensures
        key@ == folded(name@),
        name@.contains(' ') ==> key@.contains(' '),
{
    fold(name)
}

/// Whether a spelling stands for the remote with a name.
pub open spec fn selects(spelling: Seq<char>, name: Seq<char>) -> bool {
    folded(spelling) == folded(name)
}

impl RemoteName {
    /// The key.
    pub closed spec fn key_text(&self) -> Seq<char> {
        self.key@
    }

    #[verifier::type_invariant]
    spec fn keyed(self) -> bool {
        &&& self.key@ == folded(self.display@)
        &&& name_fault(self.display@) is None
    }

    /// Validates `name`, without the white space around it, as the name of a
    /// remote.
    pub fn parse(name: &str) -> (r: Result<Self, RemoteConfigError>)
        ensures
            match name_fault(trimmed(name@)) {
                None => r is Ok && r->Ok_0@ == trimmed(name@),
                Some(fault) => r is Err && r->Err_0@ == fault,
            },
    {
        let display: String = trim(name);
        if !is_usable_name(display.as_str()) {
            return Err(RemoteConfigError::IllegalName { name: display });
        }
        match non_portable_reason(display.as_str()) {
            Some(reason) => return Err(RemoteConfigError::NonPortableName { name: display, reason }),
            None => {},
        }
        let key: String = name_key(display.as_str());
        if same_text(key.as_str(), "notice") || same_text(key.as_str(), "pending") || same_text(
            key.as_str(),
            "last_check",
        ) {
            return Err(RemoteConfigError::ReservedName { name: display });
        }
        Ok(RemoteName { display, key })
    }

    /// The spelling that the author wrote.
    #[must_use]
    pub fn as_str(&self) -> (r: &str)
        ensures
            r@ == self@,
    {
        self.display.as_str()
    }

    /// The key that decides which remote this is.
    #[must_use]
    pub fn key(&self) -> (r: &str)
        ensures
            r@ == self.key_text(),
            r@ == folded(self@),
    {
        proof {
            use_type_invariant(self);
        }
        self.key.as_str()
    }

    /// Whether `spelling` stands for this remote. It is taken as it is written: one
    /// with a space in it stands for none.
    #[must_use]
    pub fn matches(&self, spelling: &str) -> (r: bool)
        ensures
            r == selects(spelling@, self@),
            spelling@.contains(' ') ==> !r,
    {
        proof {
            use_type_invariant(self);
            names_are_ascii(self@);
            assert forall|i: int| 0 <= i < self.key@.len() implies self.key@[i] != ' ' by {
                assert(name_char(self@[i]));
            }
        }
        same_text(self.key.as_str(), name_key(spelling).as_str())
    }
}

/// A name that was accepted is accepted again as it is: what was written down of a
/// remote names the same remote when it is read.
pub proof fn accepted_names_parse_again(name: Seq<char>)
    requires
        name_fault(trimmed(name)) is None,
    ensures
        trimmed(trimmed(name)) == trimmed(name),
        name_fault(trimmed(trimmed(name))) is None,
{
    trimming_is_idempotent(name);
}

/// A legal name is an ordinary name of a directory: it holds no separator and is
/// neither empty, `.` nor `..`, so that a cache directory stays in the cache.
pub proof fn legal_names_stay_in_the_cache(name: Seq<char>)
    requires
        name_fault(name) is None,
    ensures
        name.len() > 0,
        name != "."@ && name != ".."@,
        !name.contains('/') && !name.contains('\\') && !name.contains(':'),
        !reserved_key(folded(name)),
{
}

proof fn key_order_has_one_answer(a: Seq<char>, b: Seq<char>)
    ensures
        !(text_less(a, b) && text_less(b, a)),
        a == b ==> !text_less(a, b) && !text_less(b, a),
{
    text_order_is_irreflexive(a);
    if text_less(a, b) && text_less(b, a) {
        text_order_is_transitive(a, b, a);
    }
}

/// The order of names is that of their keys and agrees with their equality: two names
/// compare as equal exactly if they are one remote, whatever their spellings. It is
/// antisymmetric and transitive, so that an ordered collection holds a remote once.
pub proof fn names_are_ordered_by_their_keys(a: RemoteName, b: RemoteName, c: RemoteName)
    ensures
        a.partial_cmp_spec(&b) == Some(Ordering::Equal) <==> a.eq_spec(&b),
        a.eq_spec(&b) <==> folded(a@) == folded(b@),
        a.partial_cmp_spec(&b) == Some(Ordering::Less) <==> text_less(folded(a@), folded(b@)),
        a.partial_cmp_spec(&b) == Some(Ordering::Less) <==> b.partial_cmp_spec(&a) == Some(
            Ordering::Greater,
        ),
        a.partial_cmp_spec(&b) == Some(Ordering::Less) && b.partial_cmp_spec(&c) == Some(
            Ordering::Less,
        ) ==> a.partial_cmp_spec(&c) == Some(Ordering::Less),
{
    let x = folded(a@);
    let y = folded(b@);
    let z = folded(c@);
    key_order_has_one_answer(x, y);
    text_order_is_total(x, y);
    if text_less(x, y) && text_less(y, z) {
        text_order_is_transitive(x, y, z);
    }
}

/// Two legal names that differ only in case are one remote: they have one key.
pub proof fn case_does_not_part_remotes(a: Seq<char>, b: Seq<char>)
    requires
        usable_name(a),
        usable_name(b),
        ascii_lower(a) == ascii_lower(b),
    ensures
        folded(a) == folded(b),
{
    names_are_ascii(a);
    names_are_ascii(b);
}

proof fn names_are_ascii(name: Seq<char>)
    requires
        usable_name(name),
    ensures
        ascii_text(name),
{
    assert forall|i: int| 0 <= i < name.len() implies (#[trigger] name[i] as int) < 128 by {
        assert(name_char(name[i]));
    }
}

/// A letter of `a` to `z` in uppercase; any other character as it is.
pub open spec fn ascii_upper_char(c: char) -> char {
    if 'a' as int <= c as int && c as int <= 'z' as int {
        (c as int - 32) as char
    } else {
        c
    }
}

/// A text with `a` to `z` in uppercase.
pub open spec fn ascii_upper(text: Seq<char>) -> Seq<char> {
    text.map_values(|c: char| ascii_upper_char(c))
}

/// A spelling stands for a remote exactly if the two have one key. The name of a
/// remote stands for another remote exactly if the two are equal, and a name in
/// uppercase stands for the remote that it names.
pub proof fn selectors_go_by_the_key(a: RemoteName, b: RemoteName, spelling: Seq<char>)
    requires
        name_fault(a@) is None,
    ensures
        selects(spelling, a@) <==> folded(spelling) == folded(a@),
        selects(b@, a@) <==> a.eq_spec(&b),
        selects(ascii_upper(a@), a@),
{
    names_are_ascii(a@);
    let upper = ascii_upper(a@);
    assert forall|i: int| 0 <= i < upper.len() implies (#[trigger] upper[i] as int) < 128 by {
        assert((a@[i] as int) < 128);
    }
    assert forall|i: int| 0 <= i < upper.len() implies ascii_lower(upper)[i] == ascii_lower(a@)[i] by {
        let c = a@[i];
        assert(name_char(c));
        assert(upper[i] == ascii_upper_char(c));
    }
    assert(ascii_lower(upper) =~= ascii_lower(a@));
}

/// A character that ends a segment of a URL or path.
pub open spec fn separator(c: char) -> bool {
    c == '/' || c == '\\'
}

/// A text without the separators at its end.
pub open spec fn without_end_separators(s: Seq<char>) -> Seq<char>
    decreases s.len(),
{
    if s.len() > 0 && separator(s.last()) {
        without_end_separators(s.drop_last())
    } else {
        s
    }
}

/// What follows the last separator or colon.
pub open spec fn last_segment(s: Seq<char>) -> Seq<char>
    decreases s.len(),
{
    if s.len() == 0 || separator(s.last()) || s.last() == ':' {
        Seq::empty()
    } else {
        last_segment(s.drop_last()).push(s.last())
    }
}

/// What a URL suggests as a name: its last segment, without `.git` at its end.
pub open spec fn url_name(url: Seq<char>) -> Seq<char> {
    let segment = last_segment(without_end_separators(trimmed(url)));
    match without_suffix(segment, ".git"@) {
        Some(name) => name,
        None => segment,
    }
}

/// Whether a URL names a host and nothing on it: the `//` behind its scheme are the
/// only separators in it.
pub open spec fn bare_host(url: Seq<char>) -> bool {
    exists|i: int|
        0 <= i && i + 2 < url.len() && url[i] == ':' && #[trigger] url[i + 1] == '/' && url[i + 2]
            == '/' && no_other_separator(url, i)
}

/// Whether the two characters behind a place are the only separators of a text.
pub open spec fn no_other_separator(url: Seq<char>, i: int) -> bool {
    forall|k: int|
        0 <= k < url.len() && k != i + 1 && k != i + 2 ==> !separator(#[trigger] url[k])
}

/// The name that is taken from a URL, or why none can be.
pub open spec fn derived_name(url: Seq<char>) -> Result<Seq<char>, RemoteFault> {
    let name = trimmed(url_name(url));
    let fault = if bare_host(without_end_separators(trimmed(url))) {
        Some(RemoteFault::IllegalName { name })
    } else {
        name_fault(name)
    };
    match fault {
        None => Ok(name),
        Some(RemoteFault::IllegalName { .. }) => Err(
            RemoteFault::UnderivableName { url: trimmed(url) },
        ),
        Some(fault) => Err(fault),
    }
}

/// The URL without the separators at its end.
fn strip_end_separators(url: &str) -> (r: String)
    ensures
        r@ == without_end_separators(url@),
{
    let chars: Vec<char> = chars_of(url);
    let mut to: usize = chars.len();
    assert(chars@.take(to as int) =~= chars@);
    while to > 0 && (chars[to - 1] == '/' || chars[to - 1] == '\\')
        invariant
            to <= chars@.len(),
            chars@ == url@,
            without_end_separators(url@) == without_end_separators(chars@.take(to as int)),
        decreases to,
    {
        assert(chars@.take(to as int).drop_last() =~= chars@.take(to - 1));
        to = to - 1;
    }
    assert(chars@.subrange(0, to as int) =~= chars@.take(to as int));
    slice_text(&chars, 0, to)
}

/// Whether the URL names a host and nothing on it.
fn is_bare_host(url: &str) -> (r: bool)
    ensures
        r == bare_host(url@),
{
    let chars: Vec<char> = chars_of(url);
    let mut first: usize = 0;
    while first < chars.len() && chars[first] != '/' && chars[first] != '\\'
        invariant
            first <= chars@.len(),
            chars@ == url@,
            forall|k: int| 0 <= k < first ==> !separator(#[trigger] chars@[k]),
        decreases chars@.len() - first,
    {
        first = first + 1;
    }
    if first == 0 || chars.len() - first < 2 || chars[first - 1] != ':' || chars[first] != '/'
        || chars[first + 1] != '/' {
        proof {
            if bare_host(url@) {
                let i = choose|i: int|
                    0 <= i && i + 2 < url@.len() && url@[i] == ':' && #[trigger] url@[i + 1] == '/'
                        && url@[i + 2] == '/' && no_other_separator(url@, i);
                assert(separator(chars@[i + 1]));
                assert(first <= i + 1);
                assert(separator(chars@[first as int]));
                assert(first == i + 1);
            }
        }
        return false;
    }
    let mut k: usize = first + 2;
    while k < chars.len()
        invariant
            first + 2 <= k <= chars@.len(),
            chars@ == url@,
            first > 0,
            chars@[first as int] == '/',
            forall|j: int| 0 <= j < first ==> !separator(#[trigger] chars@[j]),
            forall|j: int| first + 2 <= j < k ==> !separator(#[trigger] chars@[j]),
        decreases chars@.len() - k,
    {
        if chars[k] == '/' || chars[k] == '\\' {
            proof {
                if bare_host(url@) {
                    let i = choose|i: int|
                        0 <= i && i + 2 < url@.len() && url@[i] == ':' && #[trigger] url@[i + 1]
                            == '/' && url@[i + 2] == '/' && no_other_separator(url@, i);
                    assert(separator(url@[i + 1]));
                    assert(separator(url@[first as int]));
                    assert(separator(url@[k as int]));
                }
            }
            return false;
        }
        k = k + 1;
    }
    proof {
        let i = first - 1;
        assert(url@[i + 1] == '/');
        assert(no_other_separator(url@, i));
    }
    true
}

/// What follows the last separator or colon.
fn segment_of(url: &str) -> (r: String)
    ensures
        r@ == last_segment(url@),
{
    let chars: Vec<char> = chars_of(url);
    let to: usize = chars.len();
    let ghost front = chars@;
    let mut from: usize = to;
    assert(front.take(from as int) =~= front);
    assert(last_segment(front) =~= last_segment(front.take(from as int)) + front.skip(from as int));
    while from > 0 && chars[from - 1] != '/' && chars[from - 1] != '\\' && chars[from - 1] != ':'
        invariant
            from <= to <= chars@.len(),
            front == chars@,
            to == chars@.len(),
            last_segment(front) == last_segment(front.take(from as int)) + front.skip(from as int),
        decreases from,
    {
        proof {
            let part = front.take(from as int);
            assert(part.drop_last() =~= front.take(from - 1));
            assert(front.skip(from - 1) =~= seq![part.last()] + front.skip(from as int));
            assert(last_segment(front.take(from - 1)).push(part.last()) + front.skip(from as int)
                =~= last_segment(front.take(from - 1)) + front.skip(from - 1));
        }
        from = from - 1;
    }
    proof {
        let part = front.take(from as int);
        assert(from > 0 ==> part.last() == chars@[from - 1]);
        assert(last_segment(part) =~= Seq::<char>::empty());
        assert(chars@.subrange(from as int, to as int) =~= front.skip(from as int));
        assert(last_segment(front) =~= front.skip(from as int));
    }
    slice_text(&chars, from, to)
}

/// Takes the name of a remote from its URL: the last segment of the path,
/// without `.git` at its end. The rule covers `https` and `ssh` URLs, the form
/// `host:path` and local paths. A URL that names a host alone suggests none.
pub fn derive_name(url: &str) -> (r: Result<RemoteName, RemoteConfigError>)
    ensures
        match derived_name(url@) {
            Ok(name) => r is Ok && r->Ok_0@ == name,
            Err(fault) => r is Err && r->Err_0@ == fault,
        },
{
    let whole: String = trim(url);
    let core: String = strip_end_separators(whole.as_str());
    let segment: String = segment_of(core.as_str());
    let name: String = match strip_suffix(segment.as_str(), ".git") {
        Some(front) => front,
        None => segment,
    };
    if is_bare_host(core.as_str()) {
        return Err(RemoteConfigError::UnderivableName { url: whole });
    }
    match RemoteName::parse(name.as_str()) {
        Ok(name) => Ok(name),
        Err(RemoteConfigError::IllegalName { .. }) => Err(
            RemoteConfigError::UnderivableName { url: whole },
        ),
        Err(e) => Err(e),
    }
}

/// Whether two URLs suggest one name, or are refused for one reason.
pub open spec fn derive_alike(a: Seq<char>, b: Seq<char>) -> bool {
    match (derived_name(a), derived_name(b)) {
        (Ok(x), Ok(y)) => x == y,
        (Err(RemoteFault::UnderivableName { .. }), Err(RemoteFault::UnderivableName { .. })) => true,
        (Err(x), Err(y)) => x == y,
        _ => false,
    }
}

/// A `/` or `.git` at the end of a URL, or blanks around it, leave the name that it
/// suggests as it is.
pub proof fn endings_do_not_part_urls(url: Seq<char>)
    requires
        trimmed(url) == url,
        last_segment(url).len() > 0,
        without_suffix(last_segment(url), ".git"@) is None,
    ensures
        derive_alike(url, url + "/"@),
        derive_alike(url, url + ".git"@),
        derive_alike(url, url + ".git/"@),
        derive_alike(url, " "@ + url + " "@),
{
    reveal_strlit("/");
    reveal_strlit(".git");
    reveal_strlit(".git/");
    reveal_strlit(" ");
    let git = url + ".git"@;
    trimmed_ends_are_solid(url);
    assert(url.len() > 0);
    assert(!separator(url.last()) && url.last() != ':');
    assert(without_end_separators(url) == url);
    // One slash more.
    let slashed = url + "/"@;
    solid_ends_stay(slashed);
    assert(slashed.drop_last() =~= url);
    assert(without_end_separators(slashed) == url);
    // Another ending.
    solid_ends_stay(git);
    let segment = last_segment(url);
    segment_grows(url, ".git"@);
    assert(last_segment(git) == segment + ".git"@);
    assert((segment + ".git"@).take(segment.len() as int) =~= segment);
    assert((segment + ".git"@).skip(segment.len() as int) =~= ".git"@);
    assert(without_end_separators(git) == git);
    assert(without_suffix(last_segment(git), ".git"@) == Some(segment));
    assert(bare_host(git) == bare_host(url)) by {
        if bare_host(url) {
            let i = choose|i: int|
                0 <= i && i + 2 < url.len() && url[i] == ':' && #[trigger] url[i + 1] == '/'
                    && url[i + 2] == '/' && no_other_separator(url, i);
            assert(git[i + 1] == '/');
            assert forall|k: int|
                0 <= k < git.len() && k != i + 1 && k != i + 2 implies !separator(
                #[trigger] git[k],
            ) by {
                if k < url.len() {
                    assert(git[k] == url[k]);
                } else {
                    assert(git[k] == ".git"@[k - url.len()]);
                }
            }
            assert(no_other_separator(git, i));
        }
        if bare_host(git) {
            let i = choose|i: int|
                0 <= i && i + 2 < git.len() && git[i] == ':' && #[trigger] git[i + 1] == '/'
                    && git[i + 2] == '/' && no_other_separator(git, i);
            assert(i + 2 < url.len()) by {
                if i + 2 >= url.len() {
                    assert(git[i + 2] == ".git"@[i + 2 - url.len()]);
                }
            }
            assert(url[i + 1] == '/');
            assert forall|k: int|
                0 <= k < url.len() && k != i + 1 && k != i + 2 implies !separator(
                #[trigger] url[k],
            ) by {
                assert(git[k] == url[k]);
            }
            assert(no_other_separator(url, i));
        }
    }
    let both = url + ".git/"@;
    solid_ends_stay(both);
    assert(both.drop_last() =~= git);
    assert(without_end_separators(both) == git);
    // Blanks around it.
    let wide = " "@ + url + " "@;
    assert(wide.drop_first() =~= url + " "@);
    assert((url + " "@).drop_last() =~= url);
    assert(trimmed_start(url + " "@) == url + " "@);
    assert(trimmed_start(wide) == url + " "@);
    assert(trimmed_end(url) == url);
    assert(trimmed(wide) == url);
}

proof fn trimmed_ends_are_solid(s: Seq<char>)
    requires
        trimmed(s) == s,
    ensures
        s.len() > 0 ==> !is_white_space(s[0]) && !is_white_space(s.last()),
{
    if s.len() > 0 {
        trimming_shortens(s);
        trimming_shortens(trimmed_start(s));
        if is_white_space(s[0]) {
            trimming_shortens(s.drop_first());
        } else if is_white_space(s.last()) {
            trimming_shortens(s.drop_last());
        }
    }
}

proof fn trimming_shortens(s: Seq<char>)
    ensures
        trimmed_start(s).len() <= s.len(),
        trimmed_end(s).len() <= s.len(),
    decreases s.len(),
{
    if s.len() > 0 {
        if is_white_space(s[0]) {
            trimming_shortens(s.drop_first());
        }
        if is_white_space(s.last()) {
            trimming_shortens(s.drop_last());
        }
    }
}

proof fn solid_ends_stay(s: Seq<char>)
    requires
        s.len() > 0,
        !is_white_space(s[0]),
        !is_white_space(s.last()),
    ensures
        trimmed(s) == s,
{
}

proof fn segment_grows(s: Seq<char>, tail: Seq<char>)
    requires
        forall|k: int| 0 <= k < tail.len() ==> !separator(#[trigger] tail[k]) && tail[k] != ':',
    ensures
        last_segment(s + tail) == last_segment(s) + tail,
    decreases tail.len(),
{
    if tail.len() == 0 {
        assert(s + tail =~= s);
        assert(last_segment(s) + tail =~= last_segment(s));
    } else {
        assert((s + tail).drop_last() =~= s + tail.drop_last());
        assert((s + tail).last() == tail.last());
        assert forall|k: int| 0 <= k < tail.drop_last().len() implies !separator(
            #[trigger] tail.drop_last()[k],
        ) && tail.drop_last()[k] != ':' by {
            assert(tail.drop_last()[k] == tail[k]);
        }
        segment_grows(s, tail.drop_last());
        assert(last_segment(s) + tail.drop_last().push(tail.last()) =~= (last_segment(s)
            + tail.drop_last()).push(tail.last()));
        assert(tail.drop_last().push(tail.last()) =~= tail);
    }
}

/// Refuses a value that begins with `-`, which git would take for an option.
pub fn reject_leading_dash(key: &'static str, value: &str) -> (r: Result<(), RemoteConfigError>)
    ensures
        r is Ok <==> !(value@.len() > 0 && value@[0] == '-'),
        r matches Err(e) ==> e@ == (RemoteFault::LeadingDash { key: key@, value: value@ }),
{
    let chars: Vec<char> = chars_of(value);
    if chars.len() > 0 && chars[0] == '-' {
        return Err(RemoteConfigError::LeadingDash { key, value: value.to_owned() });
    }
    Ok(())
}

/// The seconds in a unit of time.
pub open spec fn unit_seconds(unit: char) -> Option<int> {
    if unit == 's' {
        Some(1)
    } else if unit == 'm' {
        Some(60)
    } else if unit == 'h' {
        Some(3600)
    } else if unit == 'd' {
        Some(86400)
    } else {
        None
    }
}

/// The seconds that a duration stands for: a row of digits and a unit, whose
/// product a `u64` can hold.
pub open spec fn duration_seconds(value: Seq<char>) -> Option<int> {
    let t = trimmed(value);
    if t.len() < 2 || !all_digits(t.drop_last()) {
        None
    } else {
        match unit_seconds(t.last()) {
            None => None,
            Some(per_unit) => if digits_value(t.drop_last()) * per_unit <= u64::MAX {
                Some(digits_value(t.drop_last()) * per_unit)
            } else {
                None
            },
        }
    }
}

fn seconds_in(unit: char) -> (r: Option<u64>)
    ensures
        match unit_seconds(unit) {
            Some(n) => r == Some(n as u64) && n <= 86400,
            None => r is None,
        },
{
    match unit {
        's' => Some(1),
        'm' => Some(60),
        'h' => Some(3600),
        'd' => Some(86400),
        _ => None,
    }
}

fn read_duration(value: &str) -> (r: Option<u64>)
    ensures
        match duration_seconds(value@) {
            Some(n) => r == Some(n as u64) && 0 <= n <= u64::MAX,
            None => r is None,
        },
{
    let text: String = trim(value);
    let mut digits: Vec<char> = chars_of(text.as_str());
    let ghost t = text@;
    if digits.len() < 2 {
        return None;
    }
    let unit: char = match digits.pop() {
        Some(unit) => unit,
        None => return None,
    };
    assert(digits@ =~= t.drop_last());
    assert(unit == t.last());
    if !only_digits(&digits) {
        return None;
    }
    let per_unit: u64 = match seconds_in(unit) {
        Some(n) => n,
        None => return None,
    };
    proof {
        digits_are_not_negative(digits@);
    }
    match parse_digits(&digits) {
        None => {
            proof {
                let n = digits_value(digits@);
                assert(n * (per_unit as int) >= n) by (nonlinear_arith)
                    requires
                        n >= 0,
                        per_unit >= 1,
                ;
            }
            None
        },
        Some(count) => {
            proof {
                assert(0 <= count * per_unit) by (nonlinear_arith)
                    requires
                        count >= 0,
                        per_unit >= 0,
                ;
            }
            count.checked_mul(per_unit)
        },
    }
}

/// Reads a duration: a whole number and one of the units `s`, `m`, `h` and `d`.
/// A fraction, a sign, a row of several units and a bare number are refused, and
/// so is a number of seconds that a `u64` cannot hold.
pub fn parse_duration(key: &'static str, value: &str) -> (r: Result<Duration, RemoteConfigError>)
    ensures
        match duration_seconds(value@) {
            Some(n) => r is Ok && r->Ok_0.secs == n,
            None => r is Err && r->Err_0@ == (RemoteFault::InvalidDuration {
                key: key@,
                value: value@,
            }),
        },
{
    match read_duration(value) {
        Some(secs) => Ok(Duration { secs }),
        None => Err(RemoteConfigError::InvalidDuration { key, value: value.to_owned() }),
    }
}

/// A written number of units stands for that many times the seconds of the unit,
/// as long as a `u64` can hold them.
pub proof fn duration_reads_back(count: nat, unit: char, per_unit: int)
    requires
        unit_seconds(unit) == Some(per_unit),
        count * per_unit <= u64::MAX,
    ensures
        duration_seconds(decimal(count).push(unit)) == Some(count * per_unit),
{
    let t = decimal(count).push(unit);
    decimal_reads_back(count);
    assert(t.drop_last() =~= decimal(count));
    assert(is_digit(t[0])) by {
        assert(t[0] == decimal(count)[0]);
    }
    assert(trimmed_start(t) == t);
    assert(trimmed_end(t) == t);
}

/// A `[[remote]]` table as it was written.
#[derive(Debug, Clone, PartialEq, Eq)]
pub struct RawRemote {
    /// The name; without one it is taken from the URL.
    pub name: Option<String>,
    /// The git URL.
    pub url: String,
    /// The branch or tag to follow.
    pub git_ref: Option<String>,
    /// The floor for the age of updates.
    pub min_age: Option<String>,
}

/// A validated remote.
#[derive(Debug, Clone, PartialEq, Eq)]
pub struct RemoteSpec {
    /// The name by which entries, the lockfile and commands address it.
    pub name: RemoteName,
    /// The git URL.
    pub url: String,
    /// The branch or tag to follow; without one, the default branch.
    pub git_ref: Option<String>,
    /// The floor for the age of updates; without one, that of the root manifest,
    /// and otherwise [`DEFAULT_MIN_AGE`].
    pub min_age: Option<Duration>,
}

/// A validated remote with its texts as sequences of characters.
#[verifier::ext_equal]
pub ghost struct SpecModel {
    /// The name.
    pub name: Seq<char>,
    /// The git URL.
    pub url: Seq<char>,
    /// The branch or tag to follow.
    pub git_ref: Option<Seq<char>>,
    /// The floor for the age of updates.
    pub min_age: Option<Duration>,
}

impl View for RemoteSpec {
    type V = SpecModel;

    open spec fn view(&self) -> SpecModel {
        SpecModel {
            name: self.name@,
            url: self.url@,
            git_ref: opt_view(self.git_ref),
            min_age: self.min_age,
        }
    }
}

/// A ref without the white space around it; a blank one is none.
pub open spec fn given_ref(git_ref: Option<Seq<char>>) -> Option<Seq<char>> {
    match git_ref {
        Some(r) => if trimmed(r).len() == 0 {
            None
        } else {
            Some(trimmed(r))
        },
        None => None,
    }
}

/// Whether a text begins with `-`.
pub open spec fn dashed(text: Seq<char>) -> bool {
    text.len() > 0 && text[0] == '-'
}

/// The name of a remote: the one written, or the one taken from the URL.
pub open spec fn given_name(name: Option<Seq<char>>, url: Seq<char>) -> Result<
    Seq<char>,
    RemoteFault,
> {
    match name {
        Some(written) => match name_fault(trimmed(written)) {
            None => Ok(trimmed(written)),
            Some(fault) => Err(fault),
        },
        None => derived_name(url),
    }
}

/// What a `[[remote]]` table declares, or the first thing that is wrong with it:
/// its URL, its ref, its age and its name are looked at in this order.
pub open spec fn declared_remote(
    name: Option<Seq<char>>,
    raw_url: Seq<char>,
    raw_ref: Option<Seq<char>>,
    min_age: Option<Seq<char>>,
) -> Result<SpecModel, RemoteFault> {
    let url = trimmed(raw_url);
    let git_ref = given_ref(raw_ref);
    if url.len() == 0 {
        Err(RemoteFault::EmptyUrl)
    } else if dashed(url) {
        Err(RemoteFault::LeadingDash { key: "url"@, value: url })
    } else if git_ref is Some && dashed(git_ref->0) {
        Err(RemoteFault::LeadingDash { key: "ref"@, value: git_ref->0 })
    } else if min_age is Some && duration_seconds(min_age->0) is None {
        Err(RemoteFault::InvalidDuration { key: "min_age"@, value: min_age->0 })
    } else {
        match given_name(name, url) {
            Err(fault) => Err(fault),
            Ok(name) => Ok(
                SpecModel {
                    name,
                    url,
                    git_ref,
                    min_age: match min_age {
                        Some(age) => Some(Duration { secs: duration_seconds(age)->0 as u64 }),
                        None => None,
                    },
                },
            ),
        }
    }
}

impl RemoteSpec {
    /// Validates a `[[remote]]` table.
    pub fn from_raw(raw: RawRemote) -> (r: Result<Self, RemoteConfigError>)
        ensures
            match declared_remote(
                opt_view(raw.name),
                raw.url@,
                opt_view(raw.git_ref),
                opt_view(raw.min_age),
            ) {
                Ok(model) => r is Ok && r->Ok_0@ == model,
                Err(fault) => r is Err && r->Err_0@ == fault,
            },
    {
        let url: String = trim(raw.url.as_str());
        if is_empty(url.as_str()) {
            return Err(RemoteConfigError::EmptyUrl);
        }
        match reject_leading_dash("url", url.as_str()) {
            Ok(()) => {},
            Err(e) => return Err(e),
        }
        let git_ref: Option<String> = match &raw.git_ref {
            Some(written) => {
                let git_ref: String = trim(written.as_str());
                if is_empty(git_ref.as_str()) {
                    None
                } else {
                    Some(git_ref)
                }
            },
            None => None,
        };
        match &git_ref {
            Some(git_ref) => match reject_leading_dash("ref", git_ref.as_str()) {
                Ok(()) => {},
                Err(e) => return Err(e),
            },
            None => {},
        }
        let min_age: Option<Duration> = match &raw.min_age {
            Some(value) => match parse_duration("min_age", value.as_str()) {
                Ok(age) => Some(age),
                Err(e) => return Err(e),
            },
            None => None,
        };
        let name: RemoteName = match &raw.name {
            Some(written) => match RemoteName::parse(written.as_str()) {
                Ok(name) => name,
                Err(e) => return Err(e),
            },
            None => match derive_name(url.as_str()) {
                Ok(name) => name,
                Err(e) => return Err(e),
            },
        };
        Ok(RemoteSpec { name, url, git_ref, min_age })
    }
}

impl RawRemote {
    /// Validates the table.
    pub fn validate(self) -> (r: Result<RemoteSpec, RemoteConfigError>)
        ensures
            match declared_remote(
                opt_view(self.name),
                self.url@,
                opt_view(self.git_ref),
                opt_view(self.min_age),
            ) {
                Ok(model) => r is Ok && r->Ok_0@ == model,
                Err(fault) => r is Err && r->Err_0@ == fault,
            },
    {
        RemoteSpec::from_raw(self)
    }
}

} // verus!
