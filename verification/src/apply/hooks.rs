//! The hooks of an apply.
//!
//! The shell of every hook is settled before any hook runs, so that a shell that
//! is not there stops the apply before it has touched anything. A hook that exits
//! with a failure is classified, not acted upon: whether the apply stops, is
//! rolled back or goes on with a warning is for the run to decide.

use crate::caseless::ascii_lower;
use crate::caseless::lower_ascii;
use crate::config::HookEntry;
use crate::config::HookEvent;
use crate::host::HostOs;
use crate::paths::is_empty;
use crate::text::around;
use crate::text::contains_text;
use crate::text::joined;
use crate::text::opt_view;
use crate::text::parts_at;
use crate::text::put_around;
use crate::text::same_text;
use crate::text::split_at;
use crate::text::split_once;
use crate::text::views;
use crate::utf8_path::file_name;
use crate::utf8_path::join_path;
use crate::utf8_path::name_extension;
use crate::utf8_path::name_stem;
use crate::utf8_path::path_joined;
use crate::utf8_path::path_name;
use crate::utf8_path::split_name;
use vstd::prelude::*;

verus! {

/// Whether the hooks of a run may fail whatever they declare.
#[derive(Debug, Clone, Copy, PartialEq, Eq, Structural)]
pub enum ForceDeploy {
    /// Every hook is held to what it declares.
    No,
    /// The failure of a hook is never more than a warning.
    Yes,
}

/// Whether the failure of a hook must stop the apply.
pub open spec fn is_enforced(force: ForceDeploy, must_succeed: bool) -> bool {
    force is No && must_succeed
}

impl ForceDeploy {
    /// Whether the failure of a hook must stop the apply, by what it declares.
    pub fn enforces(self, must_succeed: bool) -> (r: bool)
        ensures
            r == is_enforced(self, must_succeed),
    {
        match self {
            ForceDeploy::Yes => false,
            ForceDeploy::No => must_succeed,
        }
    }
}

/// Errors of hooks.
#[derive(Debug, Clone, PartialEq, Eq)]
#[non_exhaustive]
pub enum HookError {
    /// A shell that a hook declares is not there.
    ShellNotFound {
        /// The shell.
        shell: String,
    },
    /// The condition of a hook could not be evaluated.
    When {
        /// What went wrong.
        message: String,
    },
    /// The shell of a hook could not be run.
    Spawn {
        /// The command of the hook.
        command: String,
        /// What went wrong.
        message: String,
    },
}

impl HookError {
    /// The error in words.
    pub open spec fn words(self) -> Seq<char> {
        match self {
            HookError::ShellNotFound { shell } => around(
                "hook shell `"@,
                shell@,
                "` was not found on PATH"@,
            ),
            HookError::When { message } => "hook `when` predicate failed: "@ + message@,
            HookError::Spawn { command, message } => around(
                "hook command `"@,
                command@,
                "` failed to execute: "@,
            ) + message@,
        }
    }

    /// The error in words.
    pub fn message(&self) -> (r: String)
        ensures
            r@ == self.words(),
    {
        match self {
            HookError::ShellNotFound { shell } => put_around(
                "hook shell `",
                shell.as_str(),
                "` was not found on PATH",
            ),
            HookError::When { message } => joined(
                "hook `when` predicate failed: ",
                message.as_str(),
            ),
            HookError::Spawn { command, message } => {
                let head: String = put_around(
                    "hook command `",
                    command.as_str(),
                    "` failed to execute: ",
                );
                joined(head.as_str(), message.as_str())
            },
        }
    }
}

/// A hook with the shell that runs it.
#[derive(Debug, Clone)]
pub struct ResolvedHook<'a> {
    /// The hook as declared.
    pub entry: &'a HookEntry,
    /// The shell.
    pub shell: String,
}

/// How a hook ended.
#[derive(Debug, Clone, Copy, PartialEq, Eq, Structural)]
pub enum HookOutcome {
    /// It exited with success.
    Succeeded,
    /// It failed, and may.
    Warned,
    /// It failed, and must not.
    Failed,
}

/// The shell of a platform.
pub open spec fn shell_of(host_os: HostOs) -> Seq<char> {
    match host_os {
        HostOs::Windows => "pwsh"@,
        HostOs::Linux | HostOs::MacOs => "bash"@,
    }
}

/// The shell of a platform: `pwsh` on Windows, and otherwise `bash`.
pub fn default_shell(host_os: HostOs) -> (r: &'static str)
    ensures
        r@ == shell_of(host_os),
{
    match host_os {
        HostOs::Windows => "pwsh",
        HostOs::Linux | HostOs::MacOs => "bash",
    }
}

/// Whether the shell of a hook is one of those that are there. The shell of the
/// platform is not looked for.
pub open spec fn is_available(entry: HookEntry, available: Seq<Seq<char>>) -> bool {
    match entry.shell {
        Some(shell) => available.contains(shell@),
        None => true,
    }
}

/// The shell of a hook.
pub open spec fn shell_for(entry: HookEntry, host_os: HostOs) -> Seq<char> {
    match entry.shell {
        Some(shell) => shell@,
        None => shell_of(host_os),
    }
}

/// The shell of every hook, before any hook runs. `available` are the declared
/// shells that are there. The first that is not is the error, whatever comes
/// before it.
pub fn resolve_shells<'a>(
    hooks: &'a Vec<HookEntry>,
    host_os: HostOs,
    available: &Vec<String>,
) -> (r: Result<Vec<ResolvedHook<'a>>, HookError>)
    ensures
        r is Ok <==> forall|i: int|
            0 <= i < hooks@.len() ==> is_available(#[trigger] hooks@[i], views(available@)),
        r matches Ok(resolved) ==> resolved@.len() == hooks@.len() && forall|i: int|
            0 <= i < hooks@.len() ==> *(#[trigger] resolved@[i]).entry == hooks@[i]
                && resolved@[i].shell@ == shell_for(hooks@[i], host_os),
        r matches Err(e) ==> exists|i: int|
            0 <= i < hooks@.len() && !is_available(#[trigger] hooks@[i], views(available@))
                && e is ShellNotFound && e->shell@ == hooks@[i].shell->0@ && forall|j: int|
                0 <= j < i ==> is_available(#[trigger] hooks@[j], views(available@)),
{
    let mut resolved: Vec<ResolvedHook<'a>> = Vec::new();
    let mut i: usize = 0;
    while i < hooks.len()
        invariant
            i <= hooks@.len(),
            resolved@.len() == i,
            forall|j: int|
                0 <= j < i ==> is_available(#[trigger] hooks@[j], views(available@)),
            forall|j: int|
                0 <= j < i ==> *(#[trigger] resolved@[j]).entry == hooks@[j]
                    && resolved@[j].shell@ == shell_for(hooks@[j], host_os),
        decreases hooks@.len() - i,
    {
        let entry: &'a HookEntry = &hooks[i];
        let shell: String = match &entry.shell {
            None => default_shell(host_os).to_owned(),
            Some(explicit) => {
                if !contains_text(available, explicit.as_str()) {
                    assert(!is_available(hooks@[i as int], views(available@)));
                    return Err(HookError::ShellNotFound { shell: explicit.clone() });
                }
                explicit.clone()
            },
        };
        resolved.push(ResolvedHook { entry, shell });
        i = i + 1;
    }
    Ok(resolved)
}

/// Whether a hook runs. One without a condition always does. `evaluated` is what
/// its condition evaluates to, and is not looked at where there is none.
pub fn should_run(hook: &ResolvedHook, evaluated: &Result<bool, String>) -> (r: Result<
    bool,
    HookError,
>)
    ensures
        hook.entry.when is None ==> r == Ok::<bool, HookError>(true),
        hook.entry.when is Some ==> match *evaluated {
            Ok(value) => r == Ok::<bool, HookError>(value),
            Err(message) => r matches Err(e) && e is When && e->When_message@ == message@,
        },
{
    match &hook.entry.when {
        None => Ok(true),
        Some(_) => match evaluated {
            Ok(value) => Ok(*value),
            Err(message) => Err(HookError::When { message: message.clone() }),
        },
    }
}

/// How a hook that exited ended.
pub open spec fn outcome_of(success: bool, must_succeed: bool, force: ForceDeploy) -> HookOutcome {
    if success {
        HookOutcome::Succeeded
    } else if is_enforced(force, must_succeed) {
        HookOutcome::Failed
    } else {
        HookOutcome::Warned
    }
}

/// How a hook that exited ended, by whether it exited with success.
pub fn classify_exit(success: bool, must_succeed: bool, force_deploy: ForceDeploy) -> (r:
    HookOutcome)
    ensures
        r == outcome_of(success, must_succeed, force_deploy),
{
    if success {
        HookOutcome::Succeeded
    } else if force_deploy.enforces(must_succeed) {
        HookOutcome::Failed
    } else {
        HookOutcome::Warned
    }
}

/// No hook of a forced run stops the apply.
pub proof fn forced_hooks_never_fail(success: bool, must_succeed: bool)
    ensures
        outcome_of(success, must_succeed, ForceDeploy::Yes) != HookOutcome::Failed,
{
}

/// The name of a shell without its directories and its extension.
pub open spec fn stem_of(shell: Seq<char>, name: Option<Seq<char>>) -> Seq<char> {
    match name {
        Some(n) => name_stem(n),
        None => shell,
    }
}

/// Whether a name is that of PowerShell, in any case.
pub open spec fn powershell_name(stem: Seq<char>) -> bool {
    ascii_lower(stem) == "pwsh"@ || ascii_lower(stem) == "powershell"@
}

/// Whether `stem` is the name of PowerShell, in any case.
pub fn is_powershell_name(stem: &str) -> (r: bool)
    ensures
        r == powershell_name(stem@),
{
    let lower: String = lower_ascii(stem);
    same_text(lower.as_str(), "pwsh") || same_text(lower.as_str(), "powershell")
}

/// Whether `shell` is PowerShell. Its directories and its extension do not matter.
pub fn is_powershell(shell: &str) -> (r: bool)
    ensures
        r == powershell_name(stem_of(shell@, path_name(shell@))),
{
    match file_name(shell) {
        Some(name) => {
            let (stem, _) = split_name(name.as_str());
            is_powershell_name(stem.as_str())
        },
        None => is_powershell_name(shell),
    }
}

/// The arguments of `shell` for `command`: PowerShell takes it behind `-Command`,
/// every other shell behind `-c`.
pub fn shell_arguments(shell: &str, command: &str) -> (r: Vec<String>)
    ensures
        views(r@) == seq![
            if powershell_name(stem_of(shell@, path_name(shell@))) {
                "-Command"@
            } else {
                "-c"@
            },
            command@,
        ],
{
    let flag: &str = if is_powershell(shell) {
        "-Command"
    } else {
        "-c"
    };
    let mut r: Vec<String> = Vec::new();
    r.push(flag.to_owned());
    r.push(command.to_owned());
    assert(views(r@) =~= seq![flag@, command@]);
    r
}

/// Whether the name of a program holds a separator, so that it is a path.
pub open spec fn names_a_path(binary: Seq<char>) -> bool {
    binary.contains('/') || binary.contains('\\')
}

/// Whether a name has an extension.
pub open spec fn has_extension(name: Option<Seq<char>>) -> bool {
    match name {
        Some(n) => name_extension(n) is Some,
        None => false,
    }
}

/// The file names that a program may have behind its own: with each of a row of
/// extensions, empty ones left out.
pub open spec fn extended_names(binary: Seq<char>, extensions: Seq<Seq<char>>) -> Seq<Seq<char>>
    decreases extensions.len(),
{
    if extensions.len() == 0 {
        Seq::empty()
    } else {
        let before = extended_names(binary, extensions.drop_last());
        if extensions.last().len() == 0 {
            before
        } else {
            before.push(binary + extensions.last())
        }
    }
}

/// The file names of a program: its own and, where the platform has extensions of
/// programs and it has none, that with each of them.
pub open spec fn program_names(
    binary: Seq<char>,
    name: Option<Seq<char>>,
    extensions: Option<Seq<char>>,
) -> Seq<Seq<char>> {
    match extensions {
        Some(list) => if has_extension(name) {
            seq![binary]
        } else {
            seq![binary] + extended_names(binary, parts_at(list, ';'))
        },
        None => seq![binary],
    }
}

/// The paths of a row of names in a row of directories, directory by directory.
pub open spec fn in_directories(dirs: Seq<Seq<char>>, names: Seq<Seq<char>>) -> Seq<Seq<char>>
    decreases dirs.len(),
{
    if dirs.len() == 0 {
        Seq::empty()
    } else {
        in_directories(dirs.drop_last(), names) + names.map_values(
            |name: Seq<char>| path_joined(dirs.last(), name),
        )
    }
}

fn names_of(binary: &str, extensions: &Option<String>) -> (r: Vec<String>)
    ensures
        views(r@) == program_names(
            binary@,
            path_name(binary@),
            opt_view(*extensions),
        ),
{
    let mut r: Vec<String> = Vec::new();
    r.push(binary.to_owned());
    assert(views(r@) =~= seq![binary@]);
    let list: &String = match extensions {
        Some(list) => list,
        None => return r,
    };
    match file_name(binary) {
        Some(name) => {
            let (_, extension) = split_name(name.as_str());
            if extension.is_some() {
                return r;
            }
        },
        None => {},
    }
    let parts: Vec<String> = split_at(list.as_str(), ';');
    let ghost all = views(parts@);
    let mut i: usize = 0;
    assert(seq![binary@] + extended_names(binary@, all.take(0)) =~= seq![binary@]);
    while i < parts.len()
        invariant
            i <= parts@.len(),
            all == views(parts@),
            views(r@) == seq![binary@] + extended_names(binary@, all.take(i as int)),
        decreases parts@.len() - i,
    {
        let ghost before = views(r@);
        proof {
            assert(all.take(i + 1).drop_last() =~= all.take(i as int));
            assert(all.take(i + 1).last() == parts@[i as int]@);
        }
        if !is_empty(parts[i].as_str()) {
            r.push(joined(binary, parts[i].as_str()));
            assert(views(r@) =~= before.push(binary@ + parts@[i as int]@));
            assert(views(r@) =~= seq![binary@] + extended_names(binary@, all.take(i + 1)));
        }
        i = i + 1;
    }
    assert(all.take(i as int) =~= all);
    r
}

/// The places where a program is looked for, in order: the path itself if it is
/// one, and otherwise its names in each of `dirs`. `extensions` are those of
/// programs, separated by `;`, on a platform that has them.
pub fn lookup_candidates(binary: &str, dirs: &Vec<String>, extensions: &Option<String>) -> (r: Vec<
    String,
>)
    ensures
        views(r@) == if names_a_path(binary@) {
            seq![binary@]
        } else {
            in_directories(
                views(dirs@),
                program_names(binary@, path_name(binary@), opt_view(*extensions)),
            )
        },
{
    let mut r: Vec<String> = Vec::new();
    if split_once(binary, '/').is_some() || split_once(binary, '\\').is_some() {
        r.push(binary.to_owned());
        assert(views(r@) =~= seq![binary@]);
        return r;
    }
    let names: Vec<String> = names_of(binary, extensions);
    let ghost all = views(dirs@);
    let ghost called = views(names@);
    assert(views(r@) =~= Seq::<Seq<char>>::empty());
    let mut i: usize = 0;
    while i < dirs.len()
        invariant
            i <= dirs@.len(),
            all == views(dirs@),
            called == views(names@),
            views(r@) == in_directories(all.take(i as int), called),
        decreases dirs@.len() - i,
    {
        let ghost before = views(r@);
        let ghost here = |name: Seq<char>| path_joined(all.take(i + 1).last(), name);
        let mut j: usize = 0;
        assert(before + called.take(0).map_values(here) =~= before);
        while j < names.len()
            invariant
                i < dirs@.len(),
                j <= names@.len(),
                all == views(dirs@),
                called == views(names@),
                here == |name: Seq<char>| path_joined(all.take(i + 1).last(), name),
                views(r@) == before + called.take(j as int).map_values(here),
            decreases names@.len() - j,
        {
            let ghost now = views(r@);
            let path: String = join_path(dirs[i].as_str(), names[j].as_str());
            let ghost p = path@;
            r.push(path);
            proof {
                assert(all.take(i + 1).last() == dirs@[i as int]@);
                assert(views(r@) =~= now.push(p));
                assert(called.take(j + 1).map_values(here) =~= called.take(j as int).map_values(
                    here,
                ).push(p));
                assert(views(r@) =~= before + called.take(j + 1).map_values(here));
            }
            j = j + 1;
        }
        proof {
            assert(called.take(j as int) =~= called);
            assert(all.take(i + 1).drop_last() =~= all.take(i as int));
        }
        i = i + 1;
    }
    assert(all.take(i as int) =~= all);
    r
}

/// The warning about a hook that failed and may.
pub open spec fn warning_for(command: Seq<char>) -> Seq<char> {
    around("hook `"@, command, "` exited non-zero but was treated as non-fatal"@)
}

/// Where a round of hooks stands: the next hook to look at, the warnings so far and
/// the command of the hook that failed.
#[derive(Debug, Clone, PartialEq, Eq)]
pub struct HookPhase {
    /// When the hooks of the round run.
    pub event: HookEvent,
    /// The place of the next hook to look at.
    pub at: usize,
    /// The warnings so far.
    pub warnings: Vec<String>,
    /// The command of the hook that failed, which ends the round.
    pub failed: Option<String>,
}

/// The warnings and the failure of a round that has come behind its first `n`
/// hooks. `outcomes` says how each ended, or nothing of one whose condition did
/// not hold.
pub open spec fn phase_after(
    hooks: Seq<HookEntry>,
    event: HookEvent,
    outcomes: Seq<Option<HookOutcome>>,
    n: nat,
) -> (Seq<Seq<char>>, Option<Seq<char>>)
    decreases n,
{
    if n == 0 {
        (Seq::empty(), None)
    } else {
        let (warnings, failed) = phase_after(hooks, event, outcomes, (n - 1) as nat);
        let hook = hooks[n - 1];
        let outcome = outcomes[n - 1];
        if failed is Some || hook.event != event {
            (warnings, failed)
        } else if outcome == Some(HookOutcome::Warned) {
            (warnings.push(warning_for(hook.command@)), None)
        } else if outcome == Some(HookOutcome::Failed) {
            (warnings, Some(hook.command@))
        } else {
            (warnings, None)
        }
    }
}

/// The declared hooks of a row of hooks.
pub open spec fn entries_of(hooks: Seq<ResolvedHook>) -> Seq<HookEntry> {
    hooks.map_values(|h: ResolvedHook| *h.entry)
}

impl HookPhase {
    /// Whether this is where a round stands whose hooks ended as `outcomes` says.
    pub open spec fn follows(self, hooks: Seq<HookEntry>, outcomes: Seq<Option<HookOutcome>>) -> bool {
        &&& self.at <= hooks.len()
        &&& (views(self.warnings@), opt_view(self.failed)) == phase_after(
            hooks,
            self.event,
            outcomes,
            self.at as nat,
        )
    }

    /// The start of a round.
    pub fn start(event: HookEvent) -> (r: Self)
        ensures
            r.event == event,
            r.at == 0,
            r.warnings@.len() == 0,
            r.failed is None,
            forall|hooks: Seq<HookEntry>, outcomes: Seq<Option<HookOutcome>>|
                #[trigger] r.follows(hooks, outcomes),
    {
        let r: Self = HookPhase { event, at: 0, warnings: Vec::new(), failed: None };
        assert(views(r.warnings@) =~= Seq::<Seq<char>>::empty());
        r
    }

    /// The place of the hook to run next, or none at the end of the round. Hooks of
    /// the other event are passed over, and none runs after one that failed.
    pub fn next_hook(&self, hooks: &Vec<ResolvedHook>) -> (r: Option<usize>)
        ensures
            r is None <==> self.failed is Some || forall|i: int|
                self.at <= i < hooks@.len() ==> (#[trigger] hooks@[i]).entry.event != self.event,
            r matches Some(i) ==> self.at <= i < hooks@.len() && hooks@[i as int].entry.event
                == self.event && forall|j: int|
                self.at <= j < i ==> (#[trigger] hooks@[j]).entry.event != self.event,
    {
        if self.failed.is_some() {
            return None;
        }
        let mut i: usize = self.at;
        while i < hooks.len()
            invariant
                self.failed is None,
                self.at <= i,
                forall|j: int|
                    self.at <= j < i ==> (#[trigger] hooks@[j]).entry.event != self.event,
            decreases hooks@.len() - i,
        {
            if hooks[i].entry.event == self.event {
                return Some(i);
            }
            i = i + 1;
        }
        None
    }

    /// Takes down how the hook at `i` ended, or nothing if its condition does not
    /// hold.
    pub fn record(&mut self, hooks: &Vec<ResolvedHook>, i: usize, outcome: Option<HookOutcome>)
        requires
            old(self).at <= i < hooks@.len(),
            old(self).failed is None,
            hooks@[i as int].entry.event == old(self).event,
            forall|j: int|
                old(self).at <= j < i ==> (#[trigger] hooks@[j]).entry.event != old(self).event,
        ensures
            final(self).event == old(self).event,
            final(self).at == i + 1,
            views(final(self).warnings@) == if outcome == Some(HookOutcome::Warned) {
                views(old(self).warnings@).push(warning_for(hooks@[i as int].entry.command@))
            } else {
                views(old(self).warnings@)
            },
            opt_view(final(self).failed) == if outcome == Some(HookOutcome::Failed) {
                Some(hooks@[i as int].entry.command@)
            } else {
                None
            },
            forall|outcomes: Seq<Option<HookOutcome>>|
                outcomes[i as int] == outcome && #[trigger] old(self).follows(
                    entries_of(hooks@),
                    outcomes,
                ) ==> final(self).follows(entries_of(hooks@), outcomes),
    {
        let ghost before = views(self.warnings@);
        let count: usize = hooks.len();
        assert(i < count);
        match outcome {
            None => {},
            Some(HookOutcome::Succeeded) => {},
            Some(HookOutcome::Warned) => {
                self.warnings.push(
                    put_around(
                        "hook `",
                        hooks[i].entry.command.as_str(),
                        "` exited non-zero but was treated as non-fatal",
                    ),
                );
                assert(views(self.warnings@) =~= before.push(
                    warning_for(hooks@[i as int].entry.command@),
                ));
            },
            Some(HookOutcome::Failed) => {
                self.failed = Some(hooks[i].entry.command.clone());
            },
        }
        self.at = i + 1;
        proof {
            assert forall|outcomes: Seq<Option<HookOutcome>>|
                outcomes[i as int] == outcome && #[trigger] old(self).follows(
                    entries_of(hooks@),
                    outcomes,
                ) implies self.follows(entries_of(hooks@), outcomes) by {
                passed_over(
                    entries_of(hooks@),
                    self.event,
                    outcomes,
                    old(self).at as nat,
                    i as nat,
                );
            }
        }
    }
}

/// Hooks of the other event leave a round as it is.
proof fn passed_over(
    hooks: Seq<HookEntry>,
    event: HookEvent,
    outcomes: Seq<Option<HookOutcome>>,
    from: nat,
    to: nat,
)
    requires
        from <= to <= hooks.len(),
        forall|j: int| from <= j < to ==> (#[trigger] hooks[j]).event != event,
    ensures
        phase_after(hooks, event, outcomes, to) == phase_after(hooks, event, outcomes, from),
    decreases to,
{
    if from < to {
        passed_over(hooks, event, outcomes, from, (to - 1) as nat);
        assert(hooks[to - 1].event != event);
    }
}

/// A hook of the round that fails ends it: its command is the failure, and what
/// comes behind it changes neither the failure nor the warnings.
pub proof fn first_failure_ends_the_phase(
    hooks: Seq<HookEntry>,
    event: HookEvent,
    outcomes: Seq<Option<HookOutcome>>,
    i: nat,
    n: nat,
)
    requires
        i < n <= hooks.len(),
        phase_after(hooks, event, outcomes, i).1 is None,
        hooks[i as int].event == event,
        outcomes[i as int] == Some(HookOutcome::Failed),
    ensures
        phase_after(hooks, event, outcomes, n) == (
            phase_after(hooks, event, outcomes, i).0,
            Some(hooks[i as int].command@),
        ),
    decreases n,
{
    if i + 1 < n {
        first_failure_ends_the_phase(hooks, event, outcomes, i, (n - 1) as nat);
    }
}

/// A round in which no hook fails has no failure.
pub proof fn no_failure_without_a_failed_hook(
    hooks: Seq<HookEntry>,
    event: HookEvent,
    outcomes: Seq<Option<HookOutcome>>,
    n: nat,
)
    requires
        n <= hooks.len(),
        forall|i: int|
            0 <= i < n && (#[trigger] hooks[i]).event == event ==> outcomes[i] != Some(
                HookOutcome::Failed,
            ),
    ensures
        phase_after(hooks, event, outcomes, n).1 is None,
    decreases n,
{
    if n > 0 {
        no_failure_without_a_failed_hook(hooks, event, outcomes, (n - 1) as nat);
        assert(hooks[n - 1] == hooks[n - 1]);
    }
}

} // verus!
