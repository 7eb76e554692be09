//! Hooks: their shells, their conditions and what their exits come to.

use patina_core::apply::hooks::classify_exit;
use patina_core::apply::hooks::default_shell;
use patina_core::apply::hooks::is_powershell;
use patina_core::apply::hooks::lookup_candidates;
use patina_core::apply::hooks::resolve_shells;
use patina_core::apply::hooks::shell_arguments;
use patina_core::apply::hooks::should_run;
use patina_core::apply::hooks::ForceDeploy;
use patina_core::apply::hooks::HookError;
use patina_core::apply::hooks::HookOutcome;
use patina_core::apply::hooks::HookPhase;
use patina_core::config::HookEntry;
use patina_core::config::HookEvent;
use patina_core::host::HostOs;

fn hook(event: HookEvent, command: &str) -> HookEntry {
    HookEntry {
        event,
        command: command.to_owned(),
        shell: None,
        when: None,
        must_succeed: true,
    }
}

fn host_os() -> HostOs {
    HostOs::Linux
}

/// The evaluation of a condition that must not be looked at.
fn unused() -> Result<bool, String> {
    Err("the condition was evaluated".to_owned())
}

#[test]
fn omitted_shell_defaults_per_platform() {
    let hooks = vec![hook(HookEvent::PreApply, "echo hi")];
    let resolved = resolve_shells(&hooks, HostOs::Linux, &vec![]).expect("resolve");
    assert_eq!(resolved.first().expect("one resolved hook").shell, "bash");
    let resolved = resolve_shells(&hooks, HostOs::MacOs, &vec![]).expect("resolve");
    assert_eq!(resolved.first().expect("one resolved hook").shell, "bash");
    let resolved = resolve_shells(&hooks, HostOs::Windows, &vec![]).expect("resolve");
    assert_eq!(resolved.first().expect("one resolved hook").shell, "pwsh");
}

#[test]
fn explicit_unresolved_shell_errors_before_running() {
    let mut entry = hook(HookEvent::PreApply, "echo hi");
    entry.shell = Some("nonexistent-shell-xyz".to_owned());
    let hooks = vec![entry];
    let err = resolve_shells(&hooks, host_os(), &vec![]).expect_err("unresolved shell must error");
    assert!(
        matches!(&err, HookError::ShellNotFound { shell } if shell == "nonexistent-shell-xyz"),
        "expected ShellNotFound naming the binary, got {err:?}"
    );
    assert_eq!(
        err.message(),
        "hook shell `nonexistent-shell-xyz` was not found on PATH"
    );
}

#[test]
fn unresolved_shell_aborts_whole_set_before_any_resolution() {
    // The first hook resolves fine; the second names a missing shell. The error
    // must surface rather than a partial set.
    let mut bad = hook(HookEvent::PreApply, "echo hi");
    bad.shell = Some("definitely-not-a-real-shell-9000".to_owned());
    let hooks = vec![hook(HookEvent::PreApply, "echo ok"), bad];
    let err = resolve_shells(&hooks, host_os(), &vec![]).expect_err("must error on the bad shell");
    assert!(matches!(err, HookError::ShellNotFound { .. }));
}

#[test]
fn an_explicit_shell_that_is_there_is_kept() {
    let mut entry = hook(HookEvent::PreApply, "echo hi");
    entry.shell = Some("zsh".to_owned());
    let hooks = vec![entry];
    let resolved =
        resolve_shells(&hooks, host_os(), &vec!["zsh".to_owned()]).expect("the shell is there");
    assert_eq!(resolved[0].shell, "zsh");
    assert_eq!(resolved[0].entry.command, "echo hi");
}

#[test]
fn should_run_true_when_no_predicate() {
    let hooks = vec![hook(HookEvent::PreApply, "echo hi")];
    let resolved = resolve_shells(&hooks, host_os(), &vec![]).expect("resolve");
    assert!(should_run(resolved.first().expect("one resolved hook"), &unused()).expect("eval"));
}

#[test]
fn should_run_filters_on_false_predicate() {
    let mut entry = hook(HookEvent::PreApply, "echo hi");
    entry.when = Some("patina.os == 'macos'".to_owned());
    let hooks = vec![entry];
    let resolved = resolve_shells(&hooks, host_os(), &vec![]).expect("resolve");
    assert!(!should_run(resolved.first().expect("one resolved hook"), &Ok(false)).expect("eval"));
}

#[test]
fn should_run_true_when_predicate_matches_builtin() {
    let mut entry = hook(HookEvent::PreApply, "echo hi");
    entry.when = Some("patina.os == 'linux'".to_owned());
    let hooks = vec![entry];
    let resolved = resolve_shells(&hooks, host_os(), &vec![]).expect("resolve");
    assert!(should_run(resolved.first().expect("one resolved hook"), &Ok(true)).expect("eval"));
}

#[test]
fn should_run_surfaces_undefined_variable_error() {
    let mut entry = hook(HookEvent::PreApply, "echo hi");
    entry.when = Some("patina.os == 'linux' and missing_hook_var".to_owned());
    let hooks = vec![entry];
    let resolved = resolve_shells(&hooks, host_os(), &vec![]).expect("resolve");
    let err = should_run(
        resolved.first().expect("one resolved hook"),
        &Err("undefined value".to_owned()),
    )
    .expect_err("undefined must error");
    assert!(matches!(err, HookError::When { .. }));
    assert_eq!(
        err.message(),
        "hook `when` predicate failed: undefined value"
    );
}

#[test]
fn zero_exit_succeeds() {
    assert_eq!(
        classify_exit(true, true, ForceDeploy::No),
        HookOutcome::Succeeded
    );
}

#[test]
fn nonzero_exit_with_must_succeed_fails() {
    assert_eq!(
        classify_exit(false, true, ForceDeploy::No),
        HookOutcome::Failed
    );
}

#[test]
fn nonzero_exit_without_must_succeed_warns() {
    assert_eq!(
        classify_exit(false, false, ForceDeploy::No),
        HookOutcome::Warned
    );
}

#[test]
fn force_deploy_downgrades_must_succeed_failure_to_warning() {
    assert_eq!(
        classify_exit(false, true, ForceDeploy::Yes),
        HookOutcome::Warned
    );
}

#[test]
fn force_deploy_enforces_logic() {
    assert!(ForceDeploy::No.enforces(true));
    assert!(!ForceDeploy::No.enforces(false));
    assert!(!ForceDeploy::Yes.enforces(true));
    assert!(!ForceDeploy::Yes.enforces(false));
}

#[test]
fn powershell_detection_matches_stem_and_path() {
    assert!(is_powershell("pwsh"));
    assert!(is_powershell("PowerShell"));
    assert!(is_powershell("/usr/local/bin/pwsh"));
    assert!(!is_powershell("bash"));
    assert!(!is_powershell("/bin/sh"));
}

#[test]
fn shell_takes_the_command_behind_its_flag() {
    assert_eq!(shell_arguments("bash", "echo hi"), vec!["-c", "echo hi"]);
    assert_eq!(
        shell_arguments("/opt/pwsh.exe", "echo hi"),
        vec!["-Command", "echo hi"]
    );
}

#[test]
fn default_shell_is_that_of_the_platform() {
    assert_eq!(default_shell(HostOs::Linux), "bash");
    assert_eq!(default_shell(HostOs::MacOs), "bash");
    assert_eq!(default_shell(HostOs::Windows), "pwsh");
}

#[test]
fn spawn_error_names_the_command() {
    let err = HookError::Spawn {
        command: "make".to_owned(),
        message: "no such file".to_owned(),
    };
    assert_eq!(
        err.message(),
        "hook command `make` failed to execute: no such file"
    );
}

#[test]
fn a_path_is_not_looked_for_on_the_path() {
    let dirs = vec!["/bin".to_owned(), "/usr/bin".to_owned()];
    assert_eq!(
        lookup_candidates("./run.sh", &dirs, &None),
        vec!["./run.sh"]
    );
    assert_eq!(
        lookup_candidates("bash", &dirs, &None),
        vec!["/bin/bash", "/usr/bin/bash"]
    );
}

#[test]
fn program_extensions_are_tried_behind_the_bare_name() {
    let dirs = vec!["/bin".to_owned()];
    let extensions = Some(".EXE;;.CMD".to_owned());
    assert_eq!(
        lookup_candidates("pwsh", &dirs, &extensions),
        vec!["/bin/pwsh", "/bin/pwsh.EXE", "/bin/pwsh.CMD"]
    );
    assert_eq!(
        lookup_candidates("pwsh.exe", &dirs, &extensions),
        vec!["/bin/pwsh.exe"]
    );
}

#[test]
fn a_round_runs_its_event_and_ends_at_a_failure() {
    let hooks = vec![
        hook(HookEvent::PostApply, "other"),
        hook(HookEvent::PreApply, "first"),
        hook(HookEvent::PreApply, "second"),
        hook(HookEvent::PreApply, "third"),
        hook(HookEvent::PreApply, "fourth"),
    ];
    let resolved = resolve_shells(&hooks, host_os(), &vec![]).expect("resolve");
    let mut phase = HookPhase::start(HookEvent::PreApply);
    assert_eq!(phase.next_hook(&resolved), Some(1));
    phase.record(&resolved, 1, Some(HookOutcome::Warned));
    assert_eq!(phase.next_hook(&resolved), Some(2));
    phase.record(&resolved, 2, None);
    assert_eq!(phase.next_hook(&resolved), Some(3));
    phase.record(&resolved, 3, Some(HookOutcome::Failed));
    assert_eq!(phase.next_hook(&resolved), None);
    assert_eq!(phase.failed.as_deref(), Some("third"));
    assert_eq!(
        phase.warnings,
        vec!["hook `first` exited non-zero but was treated as non-fatal"]
    );
}
