//! Hooks, and the shells that run them.

use crate::apply::hooks::ForceDeploy;
use crate::apply::hooks::HookError;
use crate::apply::hooks::HookOutcome;
use crate::apply::hooks::ResolvedHook;
use crate::apply::hooks::classify_exit;
use crate::apply::hooks::extended_names;
use crate::apply::hooks::in_directories;
use crate::apply::hooks::is_available;
use crate::apply::hooks::is_powershell;
use crate::apply::hooks::lookup_candidates;
use crate::apply::hooks::phase_after;
use crate::apply::hooks::program_names;
use crate::apply::hooks::resolve_shells;
use crate::apply::hooks::shell_arguments;
use crate::apply::hooks::should_run;
use crate::apply::hooks::warning_for;
use crate::config::HookEntry;
use crate::config::HookEvent;
use crate::host::HostOs;
use crate::laws::remotes::spelling_is_lowering;
use crate::laws::remotes::spells;
use crate::text::after_first;
use crate::text::before_first;
use crate::text::first_place;
use crate::text::first_place_is_first;
use crate::text::opt_view;
use crate::text::split_at;
use crate::text::views;
use crate::utf8_path::ComponentModel;
use crate::utf8_path::path_components;
use crate::utf8_path::path_joined;
use crate::utf8_path::path_name;
use crate::utf8_path::split_name;
use vstd::prelude::*;

verus! {

/// A hook that exits with success has succeeded. Any other has failed exactly where it
/// must succeed and the run is not forced, and is else only warned of.
pub proof fn exits_are_told_by_what_is_asked(
    success: bool,
    must_succeed: bool,
    force: ForceDeploy,
    r: HookOutcome,
)
    requires
        call_ensures(classify_exit, (success, must_succeed, force), r),
    ensures
        r == HookOutcome::Succeeded <==> success,
        r == HookOutcome::Failed <==> !success && must_succeed && force == ForceDeploy::No,
        r == HookOutcome::Warned <==> !success && (!must_succeed || force == ForceDeploy::Yes),
{
}

/// A hook without a condition runs; any other runs exactly where its condition holds.
pub proof fn hooks_run_by_their_condition(
    hook: ResolvedHook,
    evaluated: Result<bool, String>,
    r: Result<bool, HookError>,
)
    requires
        call_ensures(should_run, (&hook, &evaluated), r),
    ensures
        hook.entry.when is None ==> r == Ok::<bool, HookError>(true),
        hook.entry.when is Some && evaluated is Ok ==> r == Ok::<bool, HookError>(
            evaluated->Ok_0,
        ),
        hook.entry.when is Some && evaluated is Err ==> r is Err,
{
}

/// Every hook gets the shell that it declares, or else that of the platform: `pwsh` on
/// Windows and `bash` elsewhere. A declared shell that is not there is refused, and only
/// that.
pub proof fn hooks_get_their_shell(
    hooks: Vec<HookEntry>,
    host_os: HostOs,
    available: Vec<String>,
    r: Result<Vec<ResolvedHook>, HookError>,
    i: int,
)
    requires
        call_ensures(resolve_shells, (&hooks, host_os, &available), r),
        0 <= i < hooks@.len(),
    ensures
        r matches Ok(resolved) ==> {
            &&& resolved@.len() == hooks@.len()
            &&& *resolved@[i].entry == hooks@[i]
            &&& match hooks@[i].shell {
                Some(shell) => resolved@[i].shell@ == shell@ && exists|k: int|
                    0 <= k < available@.len() && (#[trigger] available@[k])@ == shell@,
                None => resolved@[i].shell@ == (if host_os == HostOs::Windows {
                    "pwsh"@
                } else {
                    "bash"@
                }),
            }
        },
        r is Err ==> exists|h: int|
            0 <= h < hooks@.len() && (#[trigger] hooks@[h]).shell is Some && !views(
                available@,
            ).contains(hooks@[h].shell->0@),
{
    if r is Ok {
        assert(is_available(hooks@[i], views(available@)));
        if let Some(shell) = hooks@[i].shell {
            let all = views(available@);
            let k = choose|k: int| 0 <= k < all.len() && all[k] == shell@;
            assert(available@[k]@ == shell@);
        }
    }
}

/// PowerShell takes a command behind `-Command`, and every other shell behind `-c`.
pub proof fn shells_take_their_command(shell: &str, command: &str, r: Vec<String>, power: bool)
    requires
        call_ensures(shell_arguments, (shell, command), r),
        call_ensures(is_powershell, (shell,), power),
    ensures
        r@.len() == 2,
        r@[0]@ == (if power {
            "-Command"@
        } else {
            "-c"@
        }),
        r@[1]@ == command@,
{
    assert(views(r@).len() == r@.len());
    assert(views(r@)[0] == r@[0]@);
    assert(views(r@)[1] == r@[1]@);
}

/// A shell is PowerShell exactly where the stem of its name is `pwsh` or `powershell` in any
/// case. A shell without a name counts as a whole.
pub proof fn powershell_is_told_by_its_name(
    shell: &str,
    power: bool,
    name: &str,
    stem: String,
    extension: Option<String>,
)
    requires
        call_ensures(is_powershell, (shell,), power),
        call_ensures(split_name, (name,), (stem, extension)),
        ({
            let parts = path_components(shell@);
            parts.len() > 0 && parts.last() is Normal && name@ == parts.last()->Normal_text
        }),
    ensures
        power <==> spells(stem@, "pwsh"@) || spells(stem@, "powershell"@),
{
    spelling_is_lowering(stem@, "pwsh"@);
    spelling_is_lowering(stem@, "powershell"@);
}

/// A program that is named by a path is looked for there alone. Any other is looked for
/// under its own name in every directory.
pub proof fn programs_are_looked_for_in_every_directory(
    binary: &str,
    dirs: Vec<String>,
    extensions: Option<String>,
    r: Vec<String>,
    d: int,
)
    requires
        call_ensures(lookup_candidates, (binary, &dirs, &extensions), r),
    ensures
        binary@.contains('/') || binary@.contains('\\') ==> r@.len() == 1 && r@[0]@ == binary@,
        !binary@.contains('/') && !binary@.contains('\\') && 0 <= d < dirs@.len() ==> exists|k: int|
            0 <= k < r@.len() && (#[trigger] r@[k])@ == path_joined(dirs@[d]@, binary@),
{
    let all = views(r@);
    assert(all.len() == r@.len());
    if binary@.contains('/') || binary@.contains('\\') {
        assert(all[0] == r@[0]@);
    } else if 0 <= d < dirs@.len() {
        let names = program_names(binary@, path_name(binary@), opt_view(extensions));
        assert(names[0] == binary@);
        assert(views(dirs@)[d] == dirs@[d]@);
        let k = candidate_is_there(views(dirs@), names, d, 0);
        assert(r@[k]@ == all[k]);
    }
}

proof fn candidate_is_there(
    dirs: Seq<Seq<char>>,
    names: Seq<Seq<char>>,
    d: int,
    n: int,
) -> (k: int)
    requires
        0 <= d < dirs.len(),
        0 <= n < names.len(),
    ensures
        0 <= k < in_directories(dirs, names).len(),
        in_directories(dirs, names)[k] == path_joined(dirs[d], names[n]),
    decreases dirs.len(),
{
    let front = dirs.drop_last();
    let before = in_directories(front, names);
    let here = names.map_values(|name: Seq<char>| path_joined(dirs.last(), name));
    if d < front.len() {
        assert(front[d] == dirs[d]);
        let k = candidate_is_there(front, names, d, n);
        assert((before + here)[k] == before[k]);
        k
    } else {
        assert((before + here)[before.len() + n] == here[n]);
        before.len() + n
    }
}

proof fn extended_name_is_there(binary: Seq<char>, extensions: Seq<Seq<char>>, p: int) -> (k: int)
    requires
        0 <= p < extensions.len(),
        extensions[p].len() > 0,
    ensures
        0 <= k < extended_names(binary, extensions).len(),
        extended_names(binary, extensions)[k] == binary + extensions[p],
    decreases extensions.len(),
{
    let front = extensions.drop_last();
    let before = extended_names(binary, front);
    if p < front.len() {
        assert(front[p] == extensions[p]);
        extended_name_is_there(binary, front, p)
    } else {
        before.len() as int
    }
}

/// A program without an extension is looked for with every extension of the list as well, and
/// one that has an extension only as it is named.
pub proof fn programs_are_looked_for_with_every_extension(
    binary: &str,
    dirs: Vec<String>,
    extensions: Option<String>,
    r: Vec<String>,
    list: &str,
    parts: Vec<String>,
    stem: String,
    extension: Option<String>,
    d: int,
    p: int,
)
    requires
        call_ensures(lookup_candidates, (binary, &dirs, &extensions), r),
        !binary@.contains('/') && !binary@.contains('\\'),
        path_components(binary@) == seq![ComponentModel::Normal { text: binary@ }],
        call_ensures(split_name, (binary,), (stem, extension)),
        extensions is Some,
        list@ == extensions->0@,
        call_ensures(split_at, (list, ';'), parts),
        0 <= d < dirs@.len(),
        0 <= p < parts@.len(),
        parts@[p]@.len() > 0,
    ensures
        extension is None ==> exists|k: int|
            0 <= k < r@.len() && (#[trigger] r@[k])@ == path_joined(
                dirs@[d]@,
                binary@ + parts@[p]@,
            ),
        extension is Some ==> r@.len() == dirs@.len() && r@[d]@ == path_joined(dirs@[d]@, binary@),
{
    let all = views(r@);
    assert(all.len() == r@.len());
    assert(path_components(binary@).last() == (ComponentModel::Normal { text: binary@ }));
    let names = program_names(binary@, path_name(binary@), opt_view(extensions));
    assert(views(dirs@)[d] == dirs@[d]@);
    if extension is None {
        let cut = views(parts@);
        assert(cut[p] == parts@[p]@);
        let n = extended_name_is_there(binary@, cut, p);
        assert(names[n + 1] == binary@ + parts@[p]@);
        let k = candidate_is_there(views(dirs@), names, d, n + 1);
        assert(r@[k]@ == all[k]);
    } else {
        assert(names =~= seq![binary@]);
        single_names_go_by_directory(views(dirs@), binary@);
        assert(all[d] == r@[d]@);
    }
}

proof fn single_names_go_by_directory(dirs: Seq<Seq<char>>, name: Seq<char>)
    ensures
        in_directories(dirs, seq![name]).len() == dirs.len(),
        forall|d: int|
            0 <= d < dirs.len() ==> #[trigger] in_directories(dirs, seq![name])[d] == path_joined(
                dirs[d],
                name,
            ),
    decreases dirs.len(),
{
    if dirs.len() > 0 {
        let front = dirs.drop_last();
        let before = in_directories(front, seq![name]);
        single_names_go_by_directory(front, name);
        let all = in_directories(dirs, seq![name]);
        assert forall|d: int| 0 <= d < dirs.len() implies #[trigger] all[d] == path_joined(
            dirs[d],
            name,
        ) by {
            if d < front.len() {
                assert(all[d] == before[d]);
                assert(front[d] == dirs[d]);
            }
        }
    }
}

/// A text is cut at every occurrence of a character: what comes before the first is the first
/// part, and the rest is cut in the same way. A text without it is one part.
pub proof fn texts_are_cut_at_a_character(
    text: &str,
    c: char,
    parts: Vec<String>,
    front: Seq<char>,
    rest: &str,
    others: Vec<String>,
)
    requires
        call_ensures(split_at, (text, c), parts),
        call_ensures(split_at, (rest, c), others),
        !front.contains(c),
    ensures
        text@ == front ==> parts@.len() == 1 && parts@[0]@ == front,
        text@ == front.push(c) + rest@ ==> views(parts@) == seq![front] + views(others@),
{
    assert(views(parts@).len() == parts@.len());
    if text@ == front {
        assert(views(parts@)[0] == parts@[0]@);
    }
    if text@ == front.push(c) + rest@ {
        let k = front.len() as int;
        assert(text@[k] == c);
        assert(text@.contains(c));
        first_place_is_first(text@, c);
        let place = first_place(text@, c);
        assert(place == k) by {
            if place < k {
                assert(front[place] == c);
                assert(front.contains(c));
            }
        }
        assert(before_first(text@, c) =~= front);
        assert(after_first(text@, c) =~= rest@);
    }
}

/// A hook of a round that fails and may is warned of by its command, and the round goes
/// on. Hooks of the other event, those that succeed and those whose condition does not
/// hold change nothing.
pub proof fn rounds_go_on_after_a_warning(
    hooks: Seq<HookEntry>,
    event: HookEvent,
    outcomes: Seq<Option<HookOutcome>>,
    i: nat,
)
    requires
        i < hooks.len(),
        phase_after(hooks, event, outcomes, i).1 is None,
    ensures
        ({
            let before = phase_after(hooks, event, outcomes, i);
            let after = phase_after(hooks, event, outcomes, i + 1);
            let hook = hooks[i as int];
            &&& hook.event == event && outcomes[i as int] == Some(HookOutcome::Warned) ==> after == (
                before.0.push(warning_for(hook.command@)),
                None::<Seq<char>>,
            )
            &&& hook.event == event && outcomes[i as int] == Some(HookOutcome::Failed) ==> after == (
                before.0,
                Some(hook.command@),
            )
            &&& hook.event != event || outcomes[i as int] is None || outcomes[i as int] == Some(
                HookOutcome::Succeeded,
            ) ==> after == before
        }),
{
}

} // verus!
