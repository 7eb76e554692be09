//! The plan of a repository of modules.

use patina_core::apply::plan::gate_and_resolve_entry;
use patina_core::apply::plan::plan;
use patina_core::apply::plan::DeclaredEntry;
use patina_core::apply::plan::DeclaredModule;
use patina_core::apply::plan::FoundEntry;
use patina_core::apply::registry::EntryOrigin;
use patina_core::apply::registry::SourceFacts;
use patina_core::apply::resolve::EntryFacts;
use patina_core::apply::resolve::TargetFacts;
use patina_core::config::EntryKind;
use patina_core::config::FileMode;
use patina_core::config::HookEntry;
use patina_core::config::HookEvent;
use patina_core::config::ManagedEntry;
use patina_core::error::EngineError;
use patina_core::journal::pending_removal;
use patina_core::journal::Disposition;
use patina_core::journal::PlannedOperation;
use patina_core::paths::PathError;
use patina_core::status::LiveTarget;

fn declared(kind: EntryKind, source: &str, target: &str) -> DeclaredEntry {
    let (mode, state) = match kind {
        EntryKind::File => (FileMode::Symlink, SourceFacts::File),
        EntryKind::Directory => (FileMode::SymlinkDir, SourceFacts::Directory),
    };
    DeclaredEntry {
        entry: ManagedEntry {
            kind,
            mode,
            source: source.to_owned(),
            targets: vec![target.to_owned()],
            when: None,
            remote: None,
            ignore: Vec::new(),
        },
        evaluated: Ok(true),
        found: Ok(FoundEntry {
            origin: EntryOrigin { source_root: Some("/repo/m".to_owned()), remote: None },
            facts: EntryFacts {
                source: format!("/repo/m/{source}"),
                state,
                leaves: Vec::new(),
                rendered: None,
                targets: vec![TargetFacts {
                    resolved: target.rsplit_once('/').expect("a parent").0.to_owned(),
                    live: LiveTarget { present: false, link: None, content: None },
                    source_bytes: Ok(Vec::new()),
                    inputs: Vec::new(),
                }],
            },
        }),
    }
}

fn file(source: &str, target: &str) -> DeclaredEntry {
    declared(EntryKind::File, source, target)
}

fn directory(source: &str, target: &str) -> DeclaredEntry {
    declared(EntryKind::Directory, source, target)
}

fn hook(command: &str) -> HookEntry {
    HookEntry {
        event: HookEvent::PreApply,
        command: command.to_owned(),
        shell: None,
        when: None,
        must_succeed: true,
    }
}

fn module(
    name: &str,
    files: Vec<DeclaredEntry>,
    directories: Vec<DeclaredEntry>,
) -> DeclaredModule {
    DeclaredModule { name: name.to_owned(), files, directories, hooks: vec![hook(name)] }
}

fn walks(n: usize) -> Vec<Vec<String>> {
    vec![Vec::new(); n]
}

#[test]
fn every_file_of_every_module_comes_before_every_directory() {
    let modules = vec![
        module("a", vec![file("a1", "/h/a1")], vec![directory("a2", "/h/a2")]),
        module("b", vec![file("b1", "/h/b1")], vec![directory("b2", "/h/b2")]),
    ];
    let planned = plan(modules, "/h", "20260528T120000Z", &walks(2), &walks(2), &Vec::new()).expect("a plan");
    let link = |name: &str| {
        PlannedOperation::symlink(
            &format!("/repo/m/{name}"),
            &format!("/h/{name}"),
            Disposition::Create,
        )
    };
    assert_eq!(planned.plan.operations(), [link("a1"), link("b1"), link("a2"), link("b2")]);
    let indices: Vec<u32> = planned.operations.iter().map(|op| op.entry_index).collect();
    assert_eq!(indices, [0, 1, 2, 3]);
    assert_eq!(planned.hooks, [hook("a"), hook("b")]);
}

#[test]
fn an_inactive_entry_keeps_its_number() {
    let mut skipped = file("a1", "/h/a1");
    skipped.entry.when = Some("patina.os == 'windows'".to_owned());
    skipped.evaluated = Ok(false);
    skipped.found = Err(EngineError::DevModeRequired);
    let modules = vec![module("a", vec![skipped, file("a2", "/h/a2")], Vec::new())];
    let planned = plan(modules, "/h", "20260528T120000Z", &walks(2), &walks(0), &Vec::new()).expect("a plan");
    assert_eq!(planned.operations.len(), 1);
    assert_eq!(planned.operations[0].entry_index, 1);
}

#[test]
fn the_first_entry_that_cannot_be_planned_is_reported() {
    let lost = || {
        let mut entry = directory("a2", "/h/a2");
        if let Ok(found) = &mut entry.found {
            found.facts.state = SourceFacts::Missing;
        }
        entry
    };
    let refused = EngineError::Path(PathError::ResultNotUtf8 { path: "/h/b1".to_owned() });
    let mut broken = file("b1", "/h/b1");
    broken.found = Err(refused.clone());
    let modules =
        vec![module("a", Vec::new(), vec![lost()]), module("b", vec![broken], Vec::new())];
    assert_eq!(
        plan(modules, "/h", "20260528T120000Z", &walks(1), &walks(1), &Vec::new()),
        Err(EngineError::SourceNotFound { path: "/repo/m/a2".to_owned() })
    );
    let mut broken = file("b1", "/h/b1");
    broken.found = Err(refused.clone());
    let modules = vec![module("b", vec![broken], vec![lost()])];
    assert_eq!(plan(modules, "/h", "20260528T120000Z", &walks(1), &walks(1), &Vec::new()), Err(refused));
}

#[test]
fn a_condition_that_cannot_be_evaluated_is_an_error() {
    let mut entry = file("a1", "/h/a1");
    entry.entry.when = Some("nonsense".to_owned());
    entry.evaluated = Err("syntax error".to_owned());
    assert_eq!(
        gate_and_resolve_entry(entry, "a", "/h"),
        Err(EngineError::Template { message: "syntax error".to_owned() })
    );
}

#[test]
fn two_modules_that_claim_one_target_collide() {
    let modules = vec![
        module("a", vec![file("x", "/h/x")], Vec::new()),
        module("b", Vec::new(), vec![directory("x", "/h/x")]),
    ];
    let err = plan(modules, "/h", "20260528T120000Z", &walks(1), &walks(1), &Vec::new()).expect_err("a collision");
    assert!(matches!(err, EngineError::Collision(_)), "{err:?}");
}

#[test]
fn a_plan_carries_its_id_and_removes_nothing() {
    let mut modules = vec![module("a", vec![file("a1", "~/x/a1")], Vec::new())];
    if let Ok(found) = &mut modules[0].files[0].found {
        found.facts.targets[0].resolved = "/real/x".to_owned();
    }
    let planned = plan(modules, "/h", "20260528T120000Z", &walks(1), &walks(0), &Vec::new())
        .expect("a plan");
    assert_eq!(planned.timestamp, "20260528T120000Z");
    assert_eq!(planned.operations[0].targets, ["/real/x/a1"]);
    assert_eq!(planned.operations[0].dispositions.len(), 1);
    let plans = vec![planned.plan.encode().expect("bytes")];
    assert_eq!(pending_removal(&plans, "/real/x/a1"), Ok(false));
}
