//! What a reader is shown, and what the names and envelopes of files say.

use crate::apply::collisions::Rung;
use crate::apply::collisions::RungModel;
use crate::apply::collisions::anchor;
use crate::apply::collisions::ladder;
use crate::apply::collisions::rung_models;
use crate::apply::managed::ancestors;
use crate::apply::managed::ancestors_of;
use crate::caseless::ascii_lower;
use crate::caseless::ascii_lower_char;
use crate::config::file_entry::first_control;
use crate::config::file_entry::first_control_character;
use crate::config::file_entry::is_control;
use crate::config::file_entry::is_template_name;
use crate::journal::disposition::Disposition;
use crate::journal::plan::OperationModel;
use crate::journal::plan::Plan;
use crate::journal::record::ApplyRecord;
use crate::journal::record::TargetModel;
use crate::journal::render::operation_blocks;
use crate::journal::render::reaped_lines;
use crate::journal::render::render_plan_at;
use crate::journal::render::render_record_at;
use crate::journal::render::target_blocks;
use crate::journal::render::timestamp_from_path;
use crate::number::decimal;
use crate::paths::location;
use crate::text::views;
use crate::utf8_path::last_dot;
use crate::utf8_path::path_components;
use crate::utf8_path::path_parent;
use crate::utf8_path::split_name;
use crate::version_envelope::EnvelopeError;
use crate::version_envelope::decode_envelope;
use crate::version_envelope::encode_with_envelope;
use crate::version_envelope::read_envelope_version;
use vstd::prelude::*;

verus! {

proof fn last_dot_is_last(name: Seq<char>)
    ensures
        last_dot(name) == -1 ==> forall|i: int| 0 < i < name.len() ==> #[trigger] name[i] != '.',
        last_dot(name) != -1 ==> 0 < last_dot(name) < name.len() && name[last_dot(name)] == '.',
        forall|i: int| last_dot(name) < i < name.len() && 0 < i ==> #[trigger] name[i] != '.',
    decreases name.len(),
{
    if name.len() > 1 && name.last() != '.' {
        let front = name.drop_last();
        last_dot_is_last(front);
        assert forall|i: int| last_dot(name) < i < name.len() && 0 < i implies #[trigger] name[i]
            != '.' by {
            if i < front.len() {
                assert(front[i] == name[i]);
            }
        }
    }
}

/// A name is parted at its last dot: into what comes before it, which is not empty, and what
/// follows, which has no dot. A name without such a dot is all stem, and so is `..`.
pub proof fn names_are_parted_at_their_last_dot(name: &str, stem: String, extension: Option<String>)
    requires
        call_ensures(split_name, (name,), (stem, extension)),
    ensures
        extension matches Some(e) ==> stem@.len() > 0 && name@ == stem@.push('.') + e@
            && !e@.contains('.'),
        extension is None ==> stem@ == name@,
        extension is None && name@ != ".."@ ==> forall|i: int|
            0 < i < name@.len() ==> #[trigger] name@[i] != '.',
        name@ == ".."@ ==> extension is None,
{
    let n = name@;
    last_dot_is_last(n);
    if let Some(e) = extension {
        let k = last_dot(n);
        assert(n =~= n.take(k).push('.') + n.skip(k + 1));
        if e@.contains('.') {
            let i = choose|i: int| 0 <= i < e@.len() && e@[i] == '.';
            assert(n[k + 1 + i] == '.');
        }
    }
}

/// A name is that of a template exactly where its last dot is followed by `tmpl` in any case.
pub proof fn templates_end_in_tmpl(
    name: Option<String>,
    r: bool,
    text: &str,
    stem: String,
    extension: Option<String>,
)
    requires
        call_ensures(is_template_name, (&name,), r),
        name is Some ==> text@ == name->0@,
        call_ensures(split_name, (text,), (stem, extension)),
    ensures
        r ==> name is Some,
        name is Some ==> (r <==> (extension matches Some(e) && e@.len() == 4 && ascii_lower_char(
            e@[0],
        ) == 't' && ascii_lower_char(e@[1]) == 'm' && ascii_lower_char(e@[2]) == 'p'
            && ascii_lower_char(e@[3]) == 'l')),
{
    reveal_strlit("tmpl");
    if let Some(e) = extension {
        let lower = ascii_lower(e@);
        assert(lower.len() == e@.len());
        if e@.len() == 4 {
            assert(lower[0] == ascii_lower_char(e@[0]));
            assert(lower[1] == ascii_lower_char(e@[1]));
            assert(lower[2] == ascii_lower_char(e@[2]));
            assert(lower[3] == ascii_lower_char(e@[3]));
            assert("tmpl"@ =~= seq!['t', 'm', 'p', 'l']);
            assert(lower =~= seq![lower[0], lower[1], lower[2], lower[3]]);
        }
    }
}

proof fn controls_are_found(text: Seq<char>)
    ensures
        first_control(text) is None <==> forall|i: int|
            0 <= i < text.len() ==> 32 <= #[trigger] text[i] as int && text[i] as int != 127,
        first_control(text) matches Some(c) ==> exists|i: int|
            0 <= i < text.len() && #[trigger] text[i] as int == c && (c < 32 || c == 127)
                && forall|j: int|
                0 <= j < i ==> 32 <= #[trigger] text[j] as int && text[j] as int != 127,
    decreases text.len(),
{
    if text.len() > 0 {
        let rest = text.drop_first();
        controls_are_found(rest);
        assert(forall|i: int| 0 <= i < rest.len() ==> #[trigger] rest[i] == text[i + 1]);
        if is_control(text[0]) {
            assert(text[0] as int == first_control(text)->0);
        } else {
            if first_control(rest) is None {
                assert forall|i: int| 0 <= i < text.len() implies 32 <= #[trigger] text[i] as int
                    && text[i] as int != 127 by {
                    if i > 0 {
                        assert(32 <= rest[i - 1] as int);
                    }
                }
            } else {
                let c = first_control(rest)->0;
                let i = choose|i: int|
                    0 <= i < rest.len() && #[trigger] rest[i] as int == c && (c < 32 || c == 127)
                        && forall|j: int|
                        0 <= j < i ==> 32 <= #[trigger] rest[j] as int && rest[j] as int != 127;
                assert(text[i + 1] as int == c);
                assert forall|j: int| 0 <= j < i + 1 implies 32 <= #[trigger] text[j] as int
                    && text[j] as int != 127 by {
                    if j > 0 {
                        assert(32 <= rest[j - 1] as int);
                    }
                }
            }
        }
    }
}

/// The first control character of a text is below the blank, or the one that deletes, and
/// none stands before it.
pub proof fn the_first_control_character_is_named(text: &str, r: Option<u32>)
    requires
        call_ensures(first_control_character, (text,), r),
    ensures
        r is None <==> forall|i: int|
            0 <= i < text@.len() ==> 32 <= #[trigger] text@[i] as int && text@[i] as int != 127,
        r matches Some(c) ==> exists|i: int|
            0 <= i < text@.len() && #[trigger] text@[i] as int == c && forall|j: int|
                0 <= j < i ==> 32 <= #[trigger] text@[j] as int && text@[j] as int != 127,
{
    controls_are_found(text@);
}

/// The ID of a journal file is its name without the suffix. Where the name has another
/// ending, or there is none, the whole path is shown.
pub proof fn ids_are_names_without_their_suffix(path: &str, suffix: &str, r: String, id: Seq<char>)
    requires
        call_ensures(timestamp_from_path, (path, suffix), r),
    ensures
        ({
            let parts = path_components(path@);
            let named = parts.len() > 0 && parts.last() is Normal;
            let name = parts.last()->Normal_text;
            &&& named && name == id + suffix@ ==> r@ == id
            &&& !named ==> r@ == path@
            &&& named && !(suffix@.len() <= name.len() && name.skip(name.len() - suffix@.len())
                == suffix@) ==> r@ == path@
        }),
{
    let parts = path_components(path@);
    if parts.len() > 0 && parts.last() is Normal {
        let name = parts.last()->Normal_text;
        if name == id + suffix@ {
            assert(name.skip(name.len() - suffix@.len()) =~= suffix@);
            assert(name.take(name.len() - suffix@.len()) =~= id);
        }
    }
}

/// A record is its version in two bytes, the low one first, and then its body. It opens to
/// that body for every reader that supports its version, and for no other.
pub proof fn records_open_for_their_version(
    major: u16,
    body: &[u8],
    bytes: Vec<u8>,
    file: &[u8],
    version: Result<u16, EnvelopeError>,
    supported: u16,
    opened: Result<&[u8], EnvelopeError>,
)
    requires
        call_ensures(encode_with_envelope, (major, body), bytes),
        file@ == bytes@,
        call_ensures(read_envelope_version, (file,), version),
        call_ensures(decode_envelope, (file, supported), opened),
    ensures
        version == Ok::<u16, EnvelopeError>(major),
        bytes@.len() == body@.len() + 2,
        bytes@[0] + 256 * bytes@[1] == major,
        major <= supported ==> (opened matches Ok(b) && b@ == body@),
        major > supported ==> opened == Err::<&[u8], EnvelopeError>(
            EnvelopeError::VersionMismatch { found: major, supported },
        ),
{
    assert(major == (major % 256) + 256 * (major / 256)) by (nonlinear_arith);
    assert(bytes@.skip(2) =~= body@);
}

/// A file that is too short for a version is refused as such.
pub proof fn short_records_are_refused(
    file: &[u8],
    version: Result<u16, EnvelopeError>,
    supported: u16,
    opened: Result<&[u8], EnvelopeError>,
)
    requires
        call_ensures(read_envelope_version, (file,), version),
        call_ensures(decode_envelope, (file, supported), opened),
        file@.len() < 2,
    ensures
        version is Err,
        opened is Err && opened->Err_0 is Truncated,
{
}

/// The head of a plan for a reader.
pub open spec fn plan_head(id: Seq<char>, time: Seq<char>, count: nat) -> Seq<char> {
    "plan "@ + id + " ("@ + time + "), "@ + decimal(count) + " operation(s)\n"@
}

/// The lines of an operation for a reader.
pub open spec fn operation_lines(index: nat, op: OperationModel) -> Seq<char> {
    match op {
        OperationModel::Symlink { source, target, .. } => "["@ + decimal(index) + "] "@
            + "symlink"@ + "\n"@ + ("    source: "@ + source + "\n"@) + ("    target: "@ + target
            + "\n"@),
        OperationModel::Render { source, target, .. } => "["@ + decimal(index) + "] "@
            + "template-render"@ + "\n"@ + ("    source: "@ + source + "\n"@) + ("    target: "@
            + target + "\n"@),
        OperationModel::Copy { source, target, .. } => "["@ + decimal(index) + "] "@ + "copy"@
            + "\n"@ + ("    source: "@ + source + "\n"@) + ("    target: "@ + target + "\n"@),
        OperationModel::Remove { target } => "["@ + decimal(index) + "] "@ + "remove"@ + "\n"@ + (
        "    target: "@ + target + "\n"@),
    }
}

/// A plan is shown as a head that counts its operations and then the lines of each of them,
/// in order: one more operation adds its lines at the end.
pub proof fn plans_are_shown_operation_by_operation(
    plan: Plan,
    longer: Plan,
    id: &str,
    time: &str,
    out: String,
    further: String,
)
    requires
        call_ensures(render_plan_at, (&plan, id, time), out),
        call_ensures(render_plan_at, (&longer, id, time), further),
        longer@.operations.len() > 0,
        longer@.operations.drop_last() == plan@.operations,
    ensures
        plan@.operations.len() == 0 ==> out@ == plan_head(id@, time@, 0),
        exists|lines: Seq<char>|
            {
                &&& out@ == #[trigger] (plan_head(id@, time@, plan@.operations.len()) + lines)
                &&& further@ == plan_head(id@, time@, longer@.operations.len()) + lines
                    + operation_lines(plan@.operations.len(), longer@.operations.last())
            },
{
    let lines = operation_blocks(plan@.operations);
    let block = operation_lines(plan@.operations.len(), longer@.operations.last());
    assert(operation_blocks(longer@.operations) == lines + block);
    let head = plan_head(id@, time@, longer@.operations.len());
    assert(head + (lines + block) =~= head + lines + block);
    assert(out@ == plan_head(id@, time@, plan@.operations.len()) + lines);
    if plan@.operations.len() == 0 {
        assert(out@ =~= plan_head(id@, time@, 0));
    }
}

/// The word for how a target stands.
pub open spec fn standing(disposition: Disposition) -> Seq<char> {
    match disposition {
        Disposition::Create => "create"@,
        Disposition::Update => "update"@,
        Disposition::Unchanged => "unchanged"@,
    }
}

/// The lines of a recorded target for a reader.
pub open spec fn target_lines(index: nat, t: TargetModel) -> Seq<char> {
    match t {
        TargetModel::Symlink { target, link_target, entry, disposition } => "["@ + decimal(index)
            + "] "@ + "symlink"@ + ", "@ + standing(disposition) + ", entry "@ + decimal(
            entry as nat,
        ) + "\n"@ + ("    source: "@ + link_target + "\n"@) + ("    target: "@ + target + "\n"@),
        TargetModel::Content { target, source, entry, disposition, .. } => "["@ + decimal(index)
            + "] "@ + "content"@ + ", "@ + standing(disposition) + ", entry "@ + decimal(
            entry as nat,
        ) + "\n"@ + ("    source: "@ + source + "\n"@) + ("    target: "@ + target + "\n"@),
    }
}

/// The head of a commit record for a reader.
pub open spec fn record_head(
    record: ApplyRecord,
    id: Seq<char>,
    time: Seq<char>,
) -> Seq<char> {
    "commit "@ + id + " ("@ + time + "), "@ + decimal(record@.targets.len()) + " target(s), "@
        + decimal(record@.reaped.len()) + " reaped\n"@ + "applied by "@ + record@.user + " on "@
        + record@.host + "\n"@
}

/// A record is shown as a head that counts its targets and then the lines of each of them,
/// in order: one more target adds its lines behind those of the others.
pub proof fn records_are_shown_target_by_target(
    record: ApplyRecord,
    longer: ApplyRecord,
    id: &str,
    time: &str,
    out: String,
    further: String,
)
    requires
        call_ensures(render_record_at, (&record, id, time), out),
        call_ensures(render_record_at, (&longer, id, time), further),
        record@.reaped.len() == 0,
        longer@.reaped.len() == 0,
        longer@.targets.len() > 0,
        longer@.targets.drop_last() == record@.targets,
    ensures
        record@.targets.len() == 0 ==> out@ == record_head(record, id@, time@),
        exists|lines: Seq<char>|
            {
                &&& out@ == #[trigger] (record_head(record, id@, time@) + lines)
                &&& further@ == record_head(longer, id@, time@) + lines + target_lines(
                    record@.targets.len(),
                    longer@.targets.last(),
                )
            },
{
    let lines = target_blocks(record@.targets);
    let block = target_lines(record@.targets.len(), longer@.targets.last());
    assert(target_blocks(longer@.targets) == lines + block);
    let head = record_head(longer, id@, time@);
    assert(head + (lines + block) =~= head + lines + block);
    assert(out@ == record_head(record, id@, time@) + lines);
    if record@.targets.len() == 0 {
        assert(out@ =~= record_head(record, id@, time@));
    }
}

/// What a run removed is shown at the end, one path on a line.
pub proof fn removed_targets_are_shown_line_by_line(
    record: ApplyRecord,
    longer: ApplyRecord,
    id: &str,
    time: &str,
    out: String,
    further: String,
)
    requires
        call_ensures(render_record_at, (&record, id, time), out),
        call_ensures(render_record_at, (&longer, id, time), further),
        record@.reaped.len() > 0,
        longer@.reaped.len() > 0,
        longer@.targets == record@.targets,
        longer@.reaped.drop_last() == record@.reaped,
    ensures
        exists|targets: Seq<char>, lines: Seq<char>|
            {
                &&& out@ == record_head(record, id@, time@) + targets + #[trigger] (
                "reaped:\n"@ + lines)
                &&& further@ == #[trigger] (record_head(longer, id@, time@) + targets) + (
                "reaped:\n"@ + lines) + ("    "@ + longer@.reaped.last() + "\n"@)
            },
{
    let targets = target_blocks(record@.targets);
    let lines = reaped_lines(record@.reaped);
    let last = "    "@ + longer@.reaped.last() + "\n"@;
    assert(reaped_lines(longer@.reaped) == lines + last);
    let a = record_head(record, id@, time@) + targets;
    let b = record_head(longer, id@, time@) + targets;
    assert(a + "reaped:\n"@ + lines =~= a + ("reaped:\n"@ + lines));
    assert(b + "reaped:\n"@ + (lines + last) =~= b + ("reaped:\n"@ + lines) + last);
}

proof fn ladders_climb(path: Seq<char>, below: Seq<Seq<char>>)
    ensures
        ladder(path, below).len() > 0,
        ladder(path, below)[0] == (RungModel { path, below }),
    decreases path.len(),
{
}

proof fn rungs_follow(path: Seq<char>, below: Seq<Seq<char>>, i: int)
    requires
        0 <= i,
        i + 1 < ladder(path, below).len(),
    ensures
        ({
            let a = ladder(path, below)[i];
            let b = ladder(path, below)[i + 1];
            &&& location(a.path) is Some
            &&& path_parent(a.path) == Some(b.path)
            &&& path_components(a.path).last() is Normal
            &&& b.below == seq![path_components(a.path).last()->Normal_text] + a.below
        }),
    decreases path.len(),
{
    if let Some((up, name)) = location(path) {
        let upper = seq![name] + below;
        ladders_climb(up, upper);
        if i > 0 {
            rungs_follow(up, upper, i - 1);
        }
    }
}

/// The rungs of a directory start at it with nothing below. Each next one is the parent of
/// the one before it, with the name of that one in front of what is below.
pub proof fn rungs_climb_one_by_one(parent: &str, rungs: Vec<Rung>, i: int)
    requires
        call_ensures(anchor, (parent,), rungs),
    ensures
        rungs@.len() > 0,
        rungs@[0].path@ == parent@,
        rungs@[0].below@.len() == 0,
        0 <= i && i + 1 < rungs@.len() ==> {
            &&& path_parent(rungs@[i].path@) == Some(rungs@[i + 1].path@)
            &&& path_components(rungs@[i].path@).last() is Normal
            &&& views(rungs@[i + 1].below@) == seq![
                path_components(rungs@[i].path@).last()->Normal_text,
            ] + views(rungs@[i].below@)
        },
{
    let models = rung_models(rungs@);
    assert(models.len() == rungs@.len());
    ladders_climb(parent@, Seq::empty());
    assert(models[0] == rungs@[0]@);
    assert(views(rungs@[0].below@).len() == rungs@[0].below@.len());
    if 0 <= i && i + 1 < rungs@.len() {
        rungs_follow(parent@, Seq::empty(), i);
        assert(models[i] == rungs@[i]@);
        assert(models[i + 1] == rungs@[i + 1]@);
    }
}

proof fn ancestors_follow(path: Seq<char>, i: int)
    requires
        0 <= i < ancestors(path).len(),
    ensures
        i == 0 ==> path_parent(path) == Some(ancestors(path)[0]),
        i > 0 ==> path_parent(ancestors(path)[i - 1]) == Some(ancestors(path)[i]),
    decreases path.len(),
{
    if i > 0 {
        let parent = path_parent(path)->0;
        ancestors_follow(parent, i - 1);
    }
}

/// The first ancestor of a path is its parent, and each next one the parent of the one
/// before it.
pub proof fn ancestors_climb_one_by_one(path: &str, r: Vec<String>, i: int)
    requires
        call_ensures(ancestors_of, (path,), r),
        0 <= i < r@.len(),
    ensures
        i == 0 ==> path_parent(path@) == Some(r@[0]@),
        i > 0 ==> path_parent(r@[i - 1]@) == Some(r@[i]@),
{
    let all = views(r@);
    assert(all.len() == r@.len());
    assert(forall|k: int| 0 <= k < r@.len() ==> #[trigger] all[k] == r@[k]@);
    ancestors_follow(path@, i);
}

} // verus!
