//! Remotes: their names, their ages, their pins and their checkouts.

use crate::apply::registry::CachePolicy;
use crate::apply::registry::CheckoutStep;
use crate::apply::registry::Lockfile;
use crate::apply::registry::Pin;
use crate::apply::registry::PinLookup;
use crate::apply::registry::RemoteError;
use crate::apply::registry::declared_pins;
use crate::apply::registry::find_remote;
use crate::apply::registry::materialize;
use crate::apply::registry::name_views;
use crate::apply::registry::pin_views;
use crate::apply::registry::pinned;
use crate::apply::registry::pins_of;
use crate::apply::registry::place_named;
use crate::caseless::ascii_lower;
use crate::caseless::ascii_lower_char;
use crate::caseless::ascii_text;
use crate::caseless::fold;
use crate::caseless::folded;
use crate::config::remote::Duration;
use crate::config::remote::RawRemote;
use crate::config::remote::RemoteConfigError;
use crate::config::remote::RemoteName;
use crate::config::remote::RemoteSpec;
use crate::config::remote::bare_host;
use crate::config::remote::derive_name;
use crate::config::remote::device_stem;
use crate::config::remote::duration_reads_back;
use crate::config::remote::last_segment;
use crate::config::remote::name_char;
use crate::config::remote::no_other_separator;
use crate::config::remote::parse_duration;
use crate::config::remote::reject_leading_dash;
use crate::config::remote::separator;
use crate::config::remote::url_name;
use crate::config::remote::usable_name;
use crate::config::remote::without_end_separators;
use crate::number::decimal;
use crate::text::before_first;
use crate::text::first_place;
use crate::text::first_place_is_first;
use crate::text::trimmed;
use crate::text::without_suffix;
use vstd::prelude::*;

verus! {

/// A whole number and a unit stand for that many seconds, minutes, hours or days.
pub proof fn durations_are_in_seconds(
    key: &'static str,
    value: &str,
    count: nat,
    r: Result<Duration, RemoteConfigError>,
)
    requires
        call_ensures(parse_duration, (key, value), r),
        count * 86400 <= u64::MAX,
    ensures
        value@ == decimal(count).push('s') ==> r is Ok && r->Ok_0.secs == count,
        value@ == decimal(count).push('m') ==> r is Ok && r->Ok_0.secs == 60 * count,
        value@ == decimal(count).push('h') ==> r is Ok && r->Ok_0.secs == 3600 * count,
        value@ == decimal(count).push('d') ==> r is Ok && r->Ok_0.secs == 86400 * count,
{
    duration_reads_back(count, 's', 1);
    duration_reads_back(count, 'm', 60);
    duration_reads_back(count, 'h', 3600);
    duration_reads_back(count, 'd', 86400);
}

/// A duration ends in its unit, and only digits stand before it.
pub proof fn durations_are_digits_and_a_unit(
    key: &'static str,
    value: &str,
    d: Duration,
    i: int,
)
    requires
        call_ensures(parse_duration, (key, value), Ok::<Duration, RemoteConfigError>(d)),
    ensures
        ({
            let t = trimmed(value@);
            &&& t.len() >= 2
            &&& t.last() == 's' || t.last() == 'm' || t.last() == 'h' || t.last() == 'd'
            &&& 0 <= i < t.len() - 1 ==> '0' as int <= t[i] as int <= '9' as int
        }),
{
    let t = trimmed(value@);
    if 0 <= i < t.len() - 1 {
        assert(t.drop_last()[i] == t[i]);
    }
}

/// A name that is accepted is the written one without the blanks around it. It holds only
/// letters, digits, `.`, `_` and `-`, is neither `.` nor `..`, and does not end in a dot.
pub proof fn accepted_names_are_plain(name: &str, n: RemoteName, i: int)
    requires
        call_ensures(RemoteName::parse, (name,), Ok::<RemoteName, RemoteConfigError>(n)),
    ensures
        n@ == trimmed(name@),
        n@.len() > 0,
        n@ != "."@ && n@ != ".."@,
        n@.last() != '.',
        0 <= i < n@.len() ==> ({
            let c = n@[i] as int;
            ||| 'a' as int <= c <= 'z' as int
            ||| 'A' as int <= c <= 'Z' as int
            ||| '0' as int <= c <= '9' as int
            ||| n@[i] == '.'
            ||| n@[i] == '_'
            ||| n@[i] == '-'
        }),
{
}

/// A name with any other character is refused as such, whatever else it holds.
pub proof fn other_names_are_refused(name: &str, r: Result<RemoteName, RemoteConfigError>, i: int)
    requires
        call_ensures(RemoteName::parse, (name,), r),
        0 <= i < trimmed(name@).len(),
        ({
            let c = trimmed(name@)[i];
            let n = c as int;
            &&& !('a' as int <= n <= 'z' as int)
            &&& !('A' as int <= n <= 'Z' as int)
            &&& !('0' as int <= n <= '9' as int)
            &&& c != '.' && c != '_' && c != '-'
        }),
    ensures
        r matches Err(RemoteConfigError::IllegalName { name: n }) && n@ == trimmed(name@),
{
    let c = trimmed(name@)[i];
    assert(!name_char(c));
}

/// Whether a text is a word, letters of either case taken as one.
pub open spec fn spells(text: Seq<char>, word: Seq<char>) -> bool {
    text.len() == word.len() && forall|i: int|
        0 <= i < text.len() ==> ascii_lower_char(#[trigger] text[i]) == word[i]
}

/// Whether a text is the name of a device of Windows.
pub open spec fn names_a_device(text: Seq<char>) -> bool {
    ||| spells(text, "con"@)
    ||| spells(text, "prn"@)
    ||| spells(text, "aux"@)
    ||| spells(text, "nul"@)
    ||| text.len() == 4 && '0' as int <= text[3] as int <= '9' as int && (spells(text.take(3), "com"@)
        || spells(text.take(3), "lpt"@))
}

pub(crate) proof fn spelling_is_lowering(text: Seq<char>, word: Seq<char>)
    ensures
        spells(text, word) <==> ascii_lower(text) == word,
{
    let lower = ascii_lower(text);
    assert(lower.len() == text.len());
    if spells(text, word) {
        assert(lower =~= word);
    }
    if lower == word {
        assert forall|i: int| 0 <= i < text.len() implies ascii_lower_char(#[trigger] text[i])
            == word[i] by {
            assert(lower[i] == word[i]);
        }
    }
}

/// A name is accepted exactly where it is not empty, holds only letters, digits, `.`, `_` and
/// `-`, does not end in a dot, is no device of Windows up to its first dot, and is none of
/// the library's own files.
pub proof fn names_are_accepted_for_what_they_say(
    name: &str,
    r: Result<RemoteName, RemoteConfigError>,
    dot: int,
)
    requires
        call_ensures(RemoteName::parse, (name,), r),
        0 <= dot <= trimmed(name@).len(),
        dot < trimmed(name@).len() ==> trimmed(name@)[dot] == '.',
        forall|i: int| 0 <= i < dot ==> #[trigger] trimmed(name@)[i] != '.',
    ensures
        r is Ok <==> {
            let t = trimmed(name@);
            &&& t.len() > 0
            &&& t.last() != '.'
            &&& forall|i: int|
                #![trigger t[i]]
                0 <= i < t.len() ==> {
                    ||| 'a' as int <= t[i] as int <= 'z' as int
                    ||| 'A' as int <= t[i] as int <= 'Z' as int
                    ||| '0' as int <= t[i] as int <= '9' as int
                    ||| t[i] == '.'
                    ||| t[i] == '_'
                    ||| t[i] == '-'
                }
            &&& !names_a_device(t.take(dot))
            &&& !spells(t, "notice"@)
            &&& !spells(t, "pending"@)
            &&& !spells(t, "last_check"@)
        },
{
    let t = trimmed(name@);
    reveal_strlit(".");
    reveal_strlit("..");
    reveal_strlit("com");
    reveal_strlit("lpt");
    first_place_is_first(t, '.');
    let place = first_place(t, '.');
    if dot < t.len() {
        assert(t.contains('.'));
    }
    assert(place == dot) by {
        if place < dot {
            assert(t[place] != '.');
        }
    }
    let stem = t.take(dot);
    assert(before_first(t, '.') =~= stem);
    let lower = ascii_lower(stem);
    spelling_is_lowering(stem, "con"@);
    spelling_is_lowering(stem, "prn"@);
    spelling_is_lowering(stem, "aux"@);
    spelling_is_lowering(stem, "nul"@);
    assert(names_a_device(stem) <==> device_stem(lower)) by {
        if stem.len() == 4 {
            assert(lower.drop_last() =~= ascii_lower(stem.take(3)));
            spelling_is_lowering(stem.take(3), "com"@);
            spelling_is_lowering(stem.take(3), "lpt"@);
            let c = stem[3];
            assert(lower.last() == ascii_lower_char(c));
            if 'A' as int <= c as int <= 'Z' as int {
                assert(ascii_lower_char(c) as int == c as int + 32);
            }
        } else {
            assert(lower.len() == stem.len());
            if lower.len() > 0 {
                assert(lower.drop_last().len() != 3);
            }
        }
    }
    spelling_is_lowering(t, "notice"@);
    spelling_is_lowering(t, "pending"@);
    spelling_is_lowering(t, "last_check"@);
    if usable_name(t) {
        assert forall|i: int| 0 <= i < t.len() implies (#[trigger] t[i] as int) < 128 by {
            assert(name_char(t[i]));
        }
        assert(ascii_text(t));
    }
    if t.len() > 0 && t.last() != '.' && forall|i: int|
        0 <= i < t.len() ==> name_char(#[trigger] t[i]) {
        assert(usable_name(t));
    }
}

/// The name of a device of Windows is refused in any case, with or without an extension.
pub proof fn device_names_are_refused(name: &str, r: Result<RemoteName, RemoteConfigError>, dot: int)
    requires
        call_ensures(RemoteName::parse, (name,), r),
        3 <= dot <= trimmed(name@).len(),
        dot < trimmed(name@).len() ==> trimmed(name@)[dot] == '.',
        forall|i: int| 0 <= i < dot ==> #[trigger] trimmed(name@)[i] != '.',
        ({
            let a = ascii_lower_char(trimmed(name@)[0]);
            let b = ascii_lower_char(trimmed(name@)[1]);
            let c = ascii_lower_char(trimmed(name@)[2]);
            ||| dot == 3 && a == 'c' && b == 'o' && c == 'n'
            ||| dot == 3 && a == 'p' && b == 'r' && c == 'n'
            ||| dot == 3 && a == 'a' && b == 'u' && c == 'x'
            ||| dot == 3 && a == 'n' && b == 'u' && c == 'l'
            ||| dot == 4 && a == 'c' && b == 'o' && c == 'm' && '0' as int <= trimmed(
                name@,
            )[3] as int <= '9' as int
            ||| dot == 4 && a == 'l' && b == 'p' && c == 't' && '0' as int <= trimmed(
                name@,
            )[3] as int <= '9' as int
        }),
    ensures
        r is Err,
{
    let t = trimmed(name@);
    reveal_strlit("con");
    reveal_strlit("prn");
    reveal_strlit("aux");
    reveal_strlit("nul");
    reveal_strlit("com");
    reveal_strlit("lpt");
    first_place_is_first(t, '.');
    let place = first_place(t, '.');
    if dot < t.len() {
        assert(t.contains('.'));
    }
    assert(place == dot) by {
        if place < dot {
            assert(t[place] != '.');
        }
    }
    let stem = before_first(t, '.');
    assert(stem =~= t.take(dot));
    let lower = ascii_lower(stem);
    assert(lower.len() == dot);
    assert(lower[0] == ascii_lower_char(t[0]));
    assert(lower[1] == ascii_lower_char(t[1]));
    assert(lower[2] == ascii_lower_char(t[2]));
    if dot == 3 {
        assert(lower =~= seq![lower[0], lower[1], lower[2]]);
        assert("con"@ =~= seq!['c', 'o', 'n']);
        assert("prn"@ =~= seq!['p', 'r', 'n']);
        assert("aux"@ =~= seq!['a', 'u', 'x']);
        assert("nul"@ =~= seq!['n', 'u', 'l']);
    } else {
        assert(lower[3] == ascii_lower_char(t[3]));
        assert(lower.drop_last() =~= seq![lower[0], lower[1], lower[2]]);
        assert("com"@ =~= seq!['c', 'o', 'm']);
        assert("lpt"@ =~= seq!['l', 'p', 't']);
    }
    assert(device_stem(lower));
}

/// Folding keeps an ASCII text but for the case of its letters, one character for one.
pub proof fn ascii_folds_letter_by_letter(value: &str, r: String, i: int)
    requires
        call_ensures(fold, (value,), r),
        forall|k: int| 0 <= k < value@.len() ==> (#[trigger] value@[k] as int) < 128,
        0 <= i < value@.len(),
    ensures
        r@.len() == value@.len(),
        'A' as int <= value@[i] as int <= 'Z' as int ==> r@[i] as int == value@[i] as int + 32,
        !('A' as int <= value@[i] as int <= 'Z' as int) ==> r@[i] == value@[i],
{
    assert(ascii_text(value@));
}

/// The name that a URL suggests, where it suggests one, is its last segment: what follows
/// the last separator or colon, without separators and without `.git` at its end.
pub proof fn derived_names_are_the_last_segment(
    url: &str,
    n: RemoteName,
    head: Seq<char>,
    segment: Seq<char>,
)
    requires
        call_ensures(derive_name, (url,), Ok::<RemoteName, RemoteConfigError>(n)),
        trimmed(url@) == head + segment,
        segment.len() > 0,
        head.len() > 0,
        head.last() == '/' || head.last() == '\\' || head.last() == ':',
        forall|i: int|
            0 <= i < segment.len() ==> #[trigger] segment[i] != '/' && segment[i] != '\\'
                && segment[i] != ':',
        without_suffix(segment, ".git"@) is None,
    ensures
        n@ == trimmed(segment),
{
    let whole = head + segment;
    assert(whole.last() == segment.last());
    assert(segment[segment.len() - 1] == segment.last());
    assert(without_end_separators(whole) == whole);
    segment_stands_alone(head, segment);
}

proof fn ends_are_stripped(core: Seq<char>, tail: Seq<char>)
    requires
        core.len() > 0,
        core.last() != '/' && core.last() != '\\',
        forall|i: int| 0 <= i < tail.len() ==> #[trigger] tail[i] == '/' || tail[i] == '\\',
    ensures
        without_end_separators(core + tail) == core,
    decreases tail.len(),
{
    if tail.len() == 0 {
        assert(core + tail =~= core);
    } else {
        let front = tail.drop_last();
        assert(forall|i: int| 0 <= i < front.len() ==> #[trigger] front[i] == tail[i]);
        ends_are_stripped(core, front);
        assert(tail[tail.len() - 1] == tail.last());
        assert((core + tail).drop_last() =~= core + front);
        assert((core + tail).last() == tail.last());
    }
}

/// Whether a URL is what stands in front of its last segment, that segment, and separators at
/// its end.
pub open spec fn is_parted(
    url: Seq<char>,
    head: Seq<char>,
    segment: Seq<char>,
    tail: Seq<char>,
) -> bool {
    &&& url == head + segment + tail
    &&& head.len() > 0
    &&& head.last() == '/' || head.last() == '\\' || head.last() == ':'
    &&& segment.len() > 0
    &&& forall|i: int|
        0 <= i < segment.len() ==> #[trigger] segment[i] != '/' && segment[i] != '\\' && segment[i]
            != ':'
    &&& forall|i: int| 0 <= i < tail.len() ==> #[trigger] tail[i] == '/' || tail[i] == '\\'
}

/// A URL that holds more than a host suggests its last segment, without the `.git` at its
/// end, exactly where that is accepted as a name.
pub proof fn last_segments_are_suggested(
    url: &str,
    head: Seq<char>,
    segment: Seq<char>,
    tail: Seq<char>,
    text: &str,
    r: Result<RemoteName, RemoteConfigError>,
    s: Result<RemoteName, RemoteConfigError>,
    places: (int, int, int),
)
    requires
        call_ensures(derive_name, (url,), r),
        call_ensures(RemoteName::parse, (text,), s),
        is_parted(trimmed(url@), head, segment, tail),
        segment == text@ + ".git"@ || (segment == text@ && !(segment.len() >= 4 && segment.skip(
            segment.len() - 4,
        ) == ".git"@)),
        ({
            let (a, b, c) = places;
            &&& 0 <= a < b < c < head.len()
            &&& head[a] == '/' || head[a] == '\\'
            &&& head[b] == '/' || head[b] == '\\'
            &&& head[c] == '/' || head[c] == '\\'
        }) || (forall|i: int|
            0 <= i < head.len() - 1 && #[trigger] head[i] == ':' ==> head[i + 1] != '/'),
    ensures
        r is Ok <==> s is Ok,
        r is Ok ==> r->Ok_0@ == s->Ok_0@,
{
    reveal_strlit(".git");
    let core = head + segment;
    assert(segment[segment.len() - 1] == segment.last());
    assert(core.last() == segment.last());
    ends_are_stripped(core, tail);
    segment_stands_alone(head, segment);
    if segment == text@ + ".git"@ {
        assert(segment.skip(segment.len() - 4) =~= ".git"@);
        assert(segment.take(segment.len() - 4) =~= text@);
    }
    assert(url_name(url@) == text@);
    if bare_host(core) {
        let i = choose|i: int|
            0 <= i && i + 2 < core.len() && core[i] == ':' && #[trigger] core[i + 1] == '/' && core[i
                + 2] == '/' && no_other_separator(core, i);
        assert(i + 2 < head.len()) by {
            if i + 2 >= head.len() {
                assert(core[i + 2] == segment[i + 2 - head.len()]);
            }
        }
        assert(head[i] == core[i] && head[i + 1] == core[i + 1]);
        if exists|i: int| 0 <= i < head.len() - 1 && #[trigger] head[i] == ':' && head[i + 1] == '/' {
            let (a, b, c) = places;
            assert(core[a] == head[a]);
            assert(core[b] == head[b]);
            assert(core[c] == head[c]);
            assert(separator(core[a]) && separator(core[b]) && separator(core[c]));
        }
    }
}

/// A URL that names a host and nothing on it suggests no name.
pub proof fn hosts_alone_suggest_no_name(
    url: &str,
    scheme: Seq<char>,
    host: Seq<char>,
    tail: Seq<char>,
    r: Result<RemoteName, RemoteConfigError>,
)
    requires
        call_ensures(derive_name, (url,), r),
        is_parted(trimmed(url@), scheme + seq![':', '/', '/'], host, tail),
        forall|i: int|
            0 <= i < scheme.len() ==> #[trigger] scheme[i] != '/' && scheme[i] != '\\',
    ensures
        r matches Err(RemoteConfigError::UnderivableName { url: u }) && u@ == trimmed(url@),
{
    let head = scheme + seq![':', '/', '/'];
    let core = head + host;
    assert(host[host.len() - 1] == host.last());
    assert(core.last() == host.last());
    ends_are_stripped(core, tail);
    let i = scheme.len() as int;
    assert(core[i] == ':' && core[i + 1] == '/' && core[i + 2] == '/');
    assert forall|k: int| 0 <= k < core.len() && k != i + 1 && k != i + 2 implies !separator(
        #[trigger] core[k],
    ) by {
        if k < i {
            assert(core[k] == scheme[k]);
        } else if k > i {
            assert(core[k] == host[k - head.len()]);
        }
    }
    assert(no_other_separator(core, i));
    assert(bare_host(core));
}

/// A spelling stands for a remote exactly where the two fold to one text.
pub proof fn spellings_select_by_their_folded_form(
    name: RemoteName,
    spelling: &str,
    r: bool,
    written: &str,
    a: String,
    b: String,
)
    requires
        call_ensures(RemoteName::matches, (&name, spelling), r),
        written@ == name@,
        call_ensures(fold, (spelling,), a),
        call_ensures(fold, (written,), b),
    ensures
        r <==> a@ == b@,
{
}

proof fn segment_stands_alone(head: Seq<char>, segment: Seq<char>)
    requires
        head.len() > 0,
        head.last() == '/' || head.last() == '\\' || head.last() == ':',
        forall|i: int|
            0 <= i < segment.len() ==> #[trigger] segment[i] != '/' && segment[i] != '\\'
                && segment[i] != ':',
    ensures
        last_segment(head + segment) == segment,
    decreases segment.len(),
{
    if segment.len() == 0 {
        assert(head + segment =~= head);
        assert(last_segment(head) =~= segment);
    } else {
        let front = segment.drop_last();
        assert((head + segment).drop_last() =~= head + front);
        assert(forall|i: int| 0 <= i < front.len() ==> #[trigger] front[i] == segment[i]);
        segment_stands_alone(head, front);
        assert(segment[segment.len() - 1] == segment.last());
        assert(front.push(segment.last()) =~= segment);
    }
}

/// A `[[remote]]` is refused where its URL is blank or begins with a dash, or its ref
/// begins with one. What is accepted holds what was written, without blanks around it.
pub proof fn remotes_hold_what_was_written(raw: RawRemote, r: Result<RemoteSpec, RemoteConfigError>)
    requires
        call_ensures(RemoteSpec::from_raw, (raw,), r),
    ensures
        trimmed(raw.url@).len() == 0 ==> r is Err && r->Err_0 is EmptyUrl,
        trimmed(raw.url@).len() > 0 && trimmed(raw.url@)[0] == '-' ==> r is Err
            && r->Err_0 is LeadingDash,
        raw.git_ref is Some && trimmed(raw.git_ref->0@).len() > 0 && trimmed(
            raw.git_ref->0@,
        )[0] == '-' ==> r is Err,
        r matches Ok(spec) ==> {
            &&& spec.url@ == trimmed(raw.url@)
            &&& raw.name is Some ==> spec.name@ == trimmed(raw.name->0@)
            &&& match raw.git_ref {
                Some(given) => if trimmed(given@).len() > 0 {
                    spec.git_ref is Some && spec.git_ref->0@ == trimmed(given@)
                } else {
                    spec.git_ref is None
                },
                None => spec.git_ref is None,
            }
            &&& spec.min_age is Some <==> raw.min_age is Some
        },
{
}

/// The age of a remote is the one that was written.
pub proof fn remotes_keep_their_age(
    raw: RawRemote,
    spec: RemoteSpec,
    key: &'static str,
    value: &str,
    age: Duration,
)
    requires
        call_ensures(RemoteSpec::from_raw, (raw,), Ok::<RemoteSpec, RemoteConfigError>(spec)),
        raw.min_age is Some,
        value@ == raw.min_age->0@,
        call_ensures(parse_duration, (key, value), Ok::<Duration, RemoteConfigError>(age)),
    ensures
        spec.min_age == Some(age),
{
}

/// A value is refused exactly where it begins with a dash.
pub proof fn dashes_are_refused(key: &'static str, value: &str, r: Result<(), RemoteConfigError>)
    requires
        call_ensures(reject_leading_dash, (key, value), r),
    ensures
        r is Err <==> value@.len() > 0 && value@[0] == '-',
{
}

/// A remote is found by its key, the first one that is declared. One that is not declared
/// is an error for an apply, and nothing for status.
pub proof fn remotes_are_found_by_their_key(
    declared: Vec<RemoteSpec>,
    name: &str,
    policy: CachePolicy,
    r: Result<Option<usize>, RemoteError>,
)
    requires
        call_ensures(find_remote, (&declared, name, policy), r),
    ensures
        r matches Ok(Some(i)) ==> i < declared@.len() && folded(declared@[i as int].name@) == folded(
            name@,
        ) && forall|j: int| 0 <= j < i ==> folded((#[trigger] declared@[j]).name@) != folded(name@),
        !(r matches Ok(Some(_))) ==> forall|j: int|
            0 <= j < declared@.len() ==> folded((#[trigger] declared@[j]).name@) != folded(name@),
        r is Err ==> policy is Fetch,
        r == Ok::<Option<usize>, RemoteError>(None) ==> policy is ReadOnly,
{
    place_is_the_first(declared@, name@);
}

proof fn place_is_the_first(declared: Seq<RemoteSpec>, name: Seq<char>)
    ensures
        place_named(declared, name) <= declared.len(),
        place_named(declared, name) < declared.len() ==> folded(
            declared[place_named(declared, name) as int].name@,
        ) == folded(name),
        forall|j: int|
            0 <= j < place_named(declared, name) ==> folded((#[trigger] declared[j]).name@)
                != folded(name),
    decreases declared.len(),
{
    if declared.len() > 0 && folded(declared[0].name@) != folded(name) {
        let rest = declared.drop_first();
        place_is_the_first(rest, name);
        let n = place_named(rest, name);
        assert forall|j: int| 0 <= j < n + 1 implies folded((#[trigger] declared[j]).name@)
            != folded(name) by {
            if j > 0 {
                assert(rest[j - 1] == declared[j]);
            }
        }
    }
}

/// A remote has the revision of the first pin with its key, and none where there is no
/// such pin.
pub proof fn pins_are_found_by_their_key(lockfile: Lockfile, name: RemoteName, r: Option<&String>)
    requires
        call_ensures(Lockfile::get, (&lockfile, &name), r),
    ensures
        match r {
            Some(rev) => exists|i: int|
                0 <= i < lockfile.pins@.len() && folded((#[trigger] lockfile.pins@[i]).name@)
                    == folded(name@) && lockfile.pins@[i].rev@ == rev@ && forall|j: int|
                    0 <= j < i ==> folded((#[trigger] lockfile.pins@[j]).name@) != folded(name@),
            None => forall|j: int|
                0 <= j < lockfile.pins@.len() ==> folded((#[trigger] lockfile.pins@[j]).name@)
                    != folded(name@),
        },
{
    pin_is_the_first(lockfile.pins@, name@);
}

proof fn pin_is_the_first(pins: Seq<Pin>, name: Seq<char>)
    ensures
        match pinned(pins, name) {
            Some(rev) => exists|i: int|
                0 <= i < pins.len() && folded((#[trigger] pins[i]).name@) == folded(name)
                    && pins[i].rev@ == rev && forall|j: int|
                    0 <= j < i ==> folded((#[trigger] pins[j]).name@) != folded(name),
            None => forall|j: int|
                0 <= j < pins.len() ==> folded((#[trigger] pins[j]).name@) != folded(name),
        },
    decreases pins.len(),
{
    if pins.len() > 0 {
        if folded(pins[0].name@) == folded(name) {
            assert(pins[0].rev@ == pinned(pins, name)->0);
        } else {
            let rest = pins.drop_first();
            pin_is_the_first(rest, name);
            assert(forall|j: int| 0 <= j < rest.len() ==> #[trigger] rest[j] == pins[j + 1]);
            match pinned(rest, name) {
                Some(rev) => {
                    let i = choose|i: int|
                        0 <= i < rest.len() && folded((#[trigger] rest[i]).name@) == folded(name)
                            && rest[i].rev@ == rev && forall|j: int|
                            0 <= j < i ==> folded((#[trigger] rest[j]).name@) != folded(name);
                    assert forall|j: int| 0 <= j < i + 1 implies folded(
                        (#[trigger] pins[j]).name@,
                    ) != folded(name) by {
                        if j > 0 {
                            assert(rest[j - 1] == pins[j]);
                        }
                    }
                    assert(folded(pins[i + 1].name@) == folded(name));
                },
                None => {
                    assert forall|j: int| 0 <= j < pins.len() implies folded(
                        (#[trigger] pins[j]).name@,
                    ) != folded(name) by {
                        if j > 0 {
                            assert(rest[j - 1] == pins[j]);
                        }
                    }
                },
            }
        }
    }
}

proof fn pins_members(names: Seq<Seq<char>>, pins: Seq<Pin>, name: Seq<char>, rev: Seq<char>)
    ensures
        pins_of(names, pins).contains((name, rev)) <==> names.contains(name) && pinned(pins, name)
            == Some(rev),
    decreases names.len(),
{
    if names.len() > 0 {
        let front = names.drop_last();
        let before = pins_of(front, pins);
        let all = pins_of(names, pins);
        let pair = (name, rev);
        pins_members(front, pins, name, rev);
        assert(names[names.len() - 1] == names.last());
        if front.contains(name) {
            let k = choose|k: int| 0 <= k < front.len() && front[k] == name;
            assert(names[k] == name);
        }
        if names.contains(name) && !front.contains(name) {
            let k = choose|k: int| 0 <= k < names.len() && names[k] == name;
            if k < front.len() {
                assert(front[k] == name);
            }
        }
        if before.contains(pair) {
            let k = choose|k: int| 0 <= k < before.len() && before[k] == pair;
            assert(all[k] == pair);
        }
        if all.contains(pair) && !before.contains(pair) {
            let k = choose|k: int| 0 <= k < all.len() && all[k] == pair;
            if k < before.len() {
                assert(before[k] == pair);
            }
        }
        if names.last() == name && pinned(pins, name) == Some(rev) {
            assert(all[before.len() as int] == pair);
        }
    }
}

/// Exactly the declared remotes that have a pin are listed, each with its revision.
pub proof fn declared_remotes_have_their_pins(
    declared: Vec<RemoteName>,
    lockfile: Lockfile,
    r: Vec<(RemoteName, String)>,
    d: int,
    rev: Option<&String>,
)
    requires
        call_ensures(declared_pins, (&declared, &lockfile), r),
        0 <= d < declared@.len(),
        call_ensures(Lockfile::get, (&lockfile, &declared@[d]), rev),
    ensures
        match rev {
            Some(found) => exists|k: int|
                0 <= k < r@.len() && (#[trigger] r@[k]).0@ == declared@[d]@ && r@[k].1@ == found@,
            None => forall|k: int| 0 <= k < r@.len() ==> (#[trigger] r@[k]).0@ != declared@[d]@,
        },
{
    let all = pin_views(r@);
    let names = name_views(declared@);
    let name = declared@[d]@;
    assert(names[d] == name);
    assert(all.len() == r@.len());
    match rev {
        Some(found) => {
            pins_members(names, lockfile.pins@, name, found@);
            let k = choose|k: int| 0 <= k < all.len() && all[k] == (name, found@);
            assert(r@[k].0@ == name);
        },
        None => {
            assert forall|k: int| 0 <= k < r@.len() implies (#[trigger] r@[k]).0@ != name by {
                pins_members(names, lockfile.pins@, name, r@[k].1@);
                assert(all[k] == (r@[k].0@, r@[k].1@));
                if r@[k].0@ == name {
                    assert(all.contains((name, r@[k].1@)));
                }
            }
        },
    }
}

/// Only an apply has a checkout made, of the pinned revision, and is refused without a
/// pin. Status uses the one that is here, if any, and is never refused.
pub proof fn only_applies_fetch(
    name: RemoteName,
    policy: CachePolicy,
    pin: PinLookup,
    r: Result<CheckoutStep, RemoteError>,
)
    requires
        call_ensures(materialize, (&name, policy, pin), r),
    ensures
        policy is ReadOnly ==> r is Ok && !(r->Ok_0 is Ensure),
        pin matches PinLookup::Pinned { rev } ==> r == Ok::<CheckoutStep, RemoteError>(
            if policy is ReadOnly {
                CheckoutStep::Probe { rev }
            } else {
                CheckoutStep::Ensure { rev }
            },
        ),
        !(pin is Pinned) && policy is ReadOnly ==> r == Ok::<CheckoutStep, RemoteError>(
            CheckoutStep::NoRoot,
        ),
        !(pin is Pinned) && policy is Fetch ==> r is Err,
{
}

} // verus!
