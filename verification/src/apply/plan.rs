//! The plan of a repository.
//!
//! The modules are gone through in order, in each of them the `[[file]]` entries
//! before the `[[directory]]` entries, and the first entry that cannot be planned
//! ends it. The operations come in another order: those of every `[[file]]` of
//! every module, and then those of every `[[directory]]`.

use crate::config::HookEntry;
use crate::config::ManagedEntry;
use crate::error::EngineError;
use crate::journal::Plan;
use crate::text::views;
use super::collisions::CollisionError;
use super::collisions::TargetClaim;
use super::planning::ResolvedEntry;
use super::planning::ResolvedOperation;
use super::planning::are_claims;
use super::planning::planned_operations;
use super::planning::resolved_models;
use super::planning::resolved_operations;
use super::registry::EntryOrigin;
use super::resolve::EntryFacts;
use super::resolve::is_active;
use super::resolve::is_collision_verdict;
use super::resolve::is_entry_outcome;
use super::resolve::plan_entries;
use super::resolve::resolve_entry;
use vstd::prelude::*;

verus! {

/// Where the source of an entry is, and what was found there and at its targets.
#[derive(Debug, PartialEq, Eq)]
pub struct FoundEntry {
    /// The origin of the source.
    pub origin: EntryOrigin,
    /// What was found.
    pub facts: EntryFacts,
}

/// A declared entry with what is known of it.
#[derive(Debug, PartialEq, Eq)]
pub struct DeclaredEntry {
    /// The entry.
    pub entry: ManagedEntry,
    /// What its condition evaluates to. It is not looked at where there is none.
    pub evaluated: Result<bool, String>,
    /// What was found, or why nothing was. It is not looked at where the entry is
    /// not active.
    pub found: Result<FoundEntry, EngineError>,
}

/// A module with its entries in the order of its manifest.
#[derive(Debug, PartialEq, Eq)]
pub struct DeclaredModule {
    /// Its name.
    pub name: String,
    /// Its `[[file]]` entries.
    pub files: Vec<DeclaredEntry>,
    /// Its `[[directory]]` entries.
    pub directories: Vec<DeclaredEntry>,
    /// Its hooks.
    pub hooks: Vec<HookEntry>,
}

/// An entry together with the name of its module.
pub type NamedEntry = (DeclaredEntry, Seq<char>);

/// Whether the condition of an entry holds.
pub open spec fn is_open(declared: DeclaredEntry) -> bool {
    declared.entry.when is None || declared.evaluated == Ok::<bool, String>(true)
}

/// Whether something was found at each target of an entry, if it was looked at.
pub open spec fn is_covered(declared: DeclaredEntry) -> bool {
    is_open(declared) && declared.found is Ok ==> declared.found->Ok_0.facts.targets@.len()
        == declared.entry.targets@.len()
}

/// Whether something was found at each target of a row of entries.
pub open spec fn all_covered(entries: Seq<NamedEntry>) -> bool {
    forall|i: int| 0 <= i < entries.len() ==> is_covered((#[trigger] entries[i]).0)
}

/// Whether `r` is what a declared entry comes to: an error where its condition
/// cannot be evaluated, nothing where it does not hold, and otherwise what the
/// active entry comes to.
pub open spec fn is_gated_outcome(
    r: Result<Option<ResolvedEntry>, EngineError>,
    declared: DeclaredEntry,
    module: Seq<char>,
    home: Seq<char>,
) -> bool {
    if declared.entry.when is Some && declared.evaluated is Err {
        r matches Err(EngineError::Template { message }) && message@ == declared.evaluated->Err_0@
    } else if declared.entry.when is Some && declared.evaluated == Ok::<bool, String>(false) {
        r == Ok::<Option<ResolvedEntry>, EngineError>(None)
    } else {
        match declared.found {
            Err(e) => r == Err::<Option<ResolvedEntry>, EngineError>(e),
            Ok(found) => match r {
                Err(e) => is_entry_outcome(
                    Err(e),
                    declared.entry,
                    found.origin,
                    module,
                    home,
                    found.facts,
                ),
                Ok(Some(x)) => is_entry_outcome(
                    Ok(x),
                    declared.entry,
                    found.origin,
                    module,
                    home,
                    found.facts,
                ),
                Ok(None) => false,
            },
        }
    }
}

/// What a declared entry of `module` comes to: nothing where it is not active.
pub fn gate_and_resolve_entry(declared: DeclaredEntry, module: &str, home: &str) -> (r: Result<
    Option<ResolvedEntry>,
    EngineError,
>)
    requires
        is_covered(declared),
    ensures
        is_gated_outcome(r, declared, module@, home@),
{
    let DeclaredEntry { entry, evaluated, found } = declared;
    match is_active(&entry.when, &evaluated) {
        Err(e) => return Err(e),
        Ok(active) => {
            if !active {
                return Ok(None);
            }
        },
    }
    match found {
        Err(e) => Err(e),
        Ok(found) => match resolve_entry(&entry, &found.origin, module, home, &found.facts) {
            Ok(resolved) => Ok(Some(resolved)),
            Err(e) => Err(e),
        },
    }
}

/// A row of entries of one module.
pub open spec fn named(entries: Seq<DeclaredEntry>, module: Seq<char>) -> Seq<NamedEntry> {
    entries.map_values(|d: DeclaredEntry| (d, module))
}

/// The `[[file]]` entries of a row of modules.
pub open spec fn all_files(modules: Seq<DeclaredModule>) -> Seq<NamedEntry>
    decreases modules.len(),
{
    if modules.len() == 0 {
        Seq::empty()
    } else {
        named(modules[0].files@, modules[0].name@) + all_files(modules.drop_first())
    }
}

/// The `[[directory]]` entries of a row of modules.
pub open spec fn all_directories(modules: Seq<DeclaredModule>) -> Seq<NamedEntry>
    decreases modules.len(),
{
    if modules.len() == 0 {
        Seq::empty()
    } else {
        named(modules[0].directories@, modules[0].name@) + all_directories(modules.drop_first())
    }
}

/// The entries of a row of modules in the order in which they are gone through.
pub open spec fn all_entries(modules: Seq<DeclaredModule>) -> Seq<NamedEntry>
    decreases modules.len(),
{
    if modules.len() == 0 {
        Seq::empty()
    } else {
        named(modules[0].files@, modules[0].name@) + named(
            modules[0].directories@,
            modules[0].name@,
        ) + all_entries(modules.drop_first())
    }
}

/// The hooks of a row of modules.
pub open spec fn all_hooks(modules: Seq<DeclaredModule>) -> Seq<HookEntry>
    decreases modules.len(),
{
    if modules.len() == 0 {
        Seq::empty()
    } else {
        modules[0].hooks@ + all_hooks(modules.drop_first())
    }
}

/// Whether `slots` is what a row of entries comes to.
pub open spec fn are_slots(
    slots: Seq<Option<ResolvedEntry>>,
    entries: Seq<NamedEntry>,
    home: Seq<char>,
) -> bool {
    slots.len() == entries.len() && forall|i: int|
        0 <= i < entries.len() ==> #[trigger] is_slot(slots[i], entries[i], home)
}

/// Whether `slot` is what an entry comes to.
pub open spec fn is_slot(slot: Option<ResolvedEntry>, entry: NamedEntry, home: Seq<char>) -> bool {
    is_gated_outcome(Ok(slot), entry.0, entry.1, home)
}

/// Whether the first entry of a row that cannot be planned is refused with `e`.
pub open spec fn is_first_refusal(e: EngineError, entries: Seq<NamedEntry>, home: Seq<char>) -> bool {
    exists|n: int, slots: Seq<Option<ResolvedEntry>>|
        0 <= n < entries.len() && #[trigger] are_slots(slots, entries.take(n), home)
            && is_gated_outcome(Err(e), entries[n].0, entries[n].1, home)
}

proof fn more_slots(
    slots: Seq<Option<ResolvedEntry>>,
    entries: Seq<NamedEntry>,
    others: Seq<Option<ResolvedEntry>>,
    more: Seq<NamedEntry>,
    home: Seq<char>,
)
    requires
        are_slots(slots, entries, home),
        are_slots(others, more, home),
    ensures
        are_slots(slots + others, entries + more, home),
{
    let s = slots + others;
    let e = entries + more;
    assert forall|i: int| 0 <= i < e.len() implies #[trigger] is_slot(s[i], e[i], home) by {
        if i < entries.len() {
            assert(is_slot(slots[i], entries[i], home));
        } else {
            assert(is_slot(others[i - entries.len()], more[i - entries.len()], home));
        }
    }
}

/// A refusal behind a row of entries that can be planned, with more behind it.
proof fn refusal_in_the_middle(
    e: EngineError,
    slots: Seq<Option<ResolvedEntry>>,
    front: Seq<NamedEntry>,
    row: Seq<NamedEntry>,
    rest: Seq<NamedEntry>,
    home: Seq<char>,
)
    requires
        are_slots(slots, front, home),
        is_first_refusal(e, row, home),
    ensures
        is_first_refusal(e, front + row + rest, home),
{
    let (n, others) = choose|n: int, others: Seq<Option<ResolvedEntry>>|
        0 <= n < row.len() && #[trigger] are_slots(others, row.take(n), home)
            && is_gated_outcome(Err(e), row[n].0, row[n].1, home);
    let all = front + row + rest;
    more_slots(slots, front, others, row.take(n), home);
    assert(all.take(front.len() + n) =~= front + row.take(n));
    assert(all[front.len() + n] == row[n]);
    assert(are_slots(slots + others, all.take(front.len() + n), home));
}

/// Adds what a row of entries of `module` comes to to `slots`.
fn resolve_row(
    entries: Vec<DeclaredEntry>,
    module: &str,
    home: &str,
    slots: &mut Vec<Option<ResolvedEntry>>,
) -> (r: Result<(), EngineError>)
    requires
        all_covered(named(entries@, module@)),
    ensures
        match r {
            Ok(_) => exists|row: Seq<Option<ResolvedEntry>>|
                #[trigger] are_slots(row, named(entries@, module@), home@) && final(slots)@
                    == old(slots)@ + row,
            Err(e) => is_first_refusal(e, named(entries@, module@), home@),
        },
{
    let ghost all = named(entries@, module@);
    let ghost before = slots@;
    let ghost mut row = Seq::<Option<ResolvedEntry>>::empty();
    let ghost mut n: int = 0;
    let mut rest: Vec<DeclaredEntry> = entries;
    assert(slots@ =~= before + row);
    assert(all.skip(0) =~= all);
    while rest.len() > 0
        invariant
            all == named(entries@, module@),
            0 <= n <= all.len(),
            named(rest@, module@) == all.skip(n),
            all_covered(all),
            are_slots(row, all.take(n), home@),
            slots@ == before + row,
        decreases rest@.len(),
    {
        let ghost left = rest@;
        let declared: DeclaredEntry = rest.remove(0);
        proof {
            assert(named(left, module@)[0] == (left[0], module@));
            assert(all.skip(n).len() == left.len());
            assert(all.skip(n)[0] == all[n]);
            assert(rest@ =~= left.drop_first());
            assert(named(rest@, module@) =~= named(left, module@).drop_first());
            assert(all.skip(n).drop_first() =~= all.skip(n + 1));
        }
        assert(is_covered(all[n].0));
        match gate_and_resolve_entry(declared, module, home) {
            Err(e) => {
                assert(is_gated_outcome(Err(e), all[n].0, all[n].1, home@));
                return Err(e);
            },
            Ok(slot) => {
                slots.push(slot);
                proof {
                    let longer = row.push(slot);
                    assert forall|i: int| 0 <= i < n + 1 implies #[trigger] is_slot(
                        longer[i],
                        all.take(n + 1)[i],
                        home@,
                    ) by {
                        if i < n {
                            assert(is_slot(row[i], all.take(n)[i], home@));
                        }
                    }
                    assert(slots@ =~= before + longer);
                    row = longer;
                    n = n + 1;
                }
            },
        }
    }
    assert(all.take(n) =~= all) by {
        assert(named(rest@, module@).len() == 0);
    }
    Ok(())
}

/// The plan of a row of modules.
#[derive(Debug, PartialEq, Eq)]
pub struct PlannedModules {
    /// The plan.
    pub plan: Plan,
    /// What the executor needs of it.
    pub operations: Vec<ResolvedOperation>,
    /// The hooks.
    pub hooks: Vec<HookEntry>,
    /// The ID of the run.
    pub timestamp: String,
}

/// Plans what a row of modules declares. The walks hold the files of the sources of
/// trees, one for each `[[file]]` of the modules and one for each `[[directory]]`,
/// and `anchors` says how parent directories are respelled. Something was found at
/// each target of every active entry. The plan is that of the run `timestamp`.
pub fn plan(
    modules: Vec<DeclaredModule>,
    home: &str,
    timestamp: &str,
    file_walks: &Vec<Vec<String>>,
    directory_walks: &Vec<Vec<String>>,
    anchors: &Vec<(String, String)>,
) -> (r: Result<PlannedModules, EngineError>)
    requires
        file_walks@.len() == all_files(modules@).len(),
        directory_walks@.len() == all_directories(modules@).len(),
        all_covered(all_entries(modules@)),
    ensures
        (r matches Err(e) && is_first_refusal(e, all_entries(modules@), home@)) || exists|
            files: Seq<Option<ResolvedEntry>>,
            directories: Seq<Option<ResolvedEntry>>,
            claims: Seq<TargetClaim>,
            verdict: Result<(), CollisionError>,
        |
            #[trigger] are_slots(files, all_files(modules@), home@) && #[trigger] are_slots(
                directories,
                all_directories(modules@),
                home@,
            ) && are_claims(claims, files + directories, file_walks@ + directory_walks@)
                && #[trigger] is_collision_verdict(verdict, claims, anchors@) && match verdict {
                Err(e) => r == Err::<PlannedModules, EngineError>(EngineError::Collision(e)),
                Ok(_) => r matches Ok(planned) && planned.timestamp@ == timestamp@
                    && planned.plan@.removal is None && planned.plan@.operations
                    == planned_operations(files + directories) && resolved_models(planned.operations@) == resolved_operations(
                    files + directories,
                ) && planned.hooks@ == all_hooks(modules@),
            },
{
    let ghost all = modules@;
    let ghost entries = all_entries(all);
    let ghost mut front = Seq::<NamedEntry>::empty();
    let ghost mut done = Seq::<Option<ResolvedEntry>>::empty();
    let mut rest: Vec<DeclaredModule> = modules;
    let mut files: Vec<Option<ResolvedEntry>> = Vec::new();
    let mut directories: Vec<Option<ResolvedEntry>> = Vec::new();
    let mut hooks: Vec<HookEntry> = Vec::new();
    let ghost mut seen_files = Seq::<NamedEntry>::empty();
    let ghost mut seen_directories = Seq::<NamedEntry>::empty();
    proof {
        assert(front + all_entries(all) =~= entries);
        assert(seen_files + all_files(all) =~= all_files(all));
        assert(seen_directories + all_directories(all) =~= all_directories(all));
        assert(hooks@ + all_hooks(all) =~= all_hooks(all));
    }
    while rest.len() > 0
        invariant
            all == modules@,
            entries == all_entries(all),
            front + all_entries(rest@) == entries,
            all_covered(entries),
            are_slots(done, front, home@),
            seen_files + all_files(rest@) == all_files(all),
            are_slots(files@, seen_files, home@),
            seen_directories + all_directories(rest@) == all_directories(all),
            are_slots(directories@, seen_directories, home@),
            hooks@ + all_hooks(rest@) == all_hooks(all),
        decreases rest@.len(),
    {
        let ghost left = rest@;
        let module: DeclaredModule = rest.remove(0);
        let DeclaredModule { name, files: its_files, directories: its_directories, hooks: its_hooks } =
            module;
        let mut more_hooks: Vec<HookEntry> = its_hooks;
        let ghost f = named(its_files@, name@);
        let ghost d = named(its_directories@, name@);
        let ghost later = all_entries(rest@);
        let ghost files_before = files@;
        let ghost directories_before = directories@;
        proof {
            assert(rest@ =~= left.drop_first());
            assert(entries =~= front + f + (d + later));
            assert(entries =~= front + f + d + later);
            assert forall|i: int| 0 <= i < f.len() implies is_covered((#[trigger] f[i]).0) by {
                assert(entries[front.len() + i] == f[i]);
            }
            assert forall|i: int| 0 <= i < d.len() implies is_covered((#[trigger] d[i]).0) by {
                assert(entries[front.len() + f.len() + i] == d[i]);
            }
        }
        match resolve_row(its_files, name.as_str(), home, &mut files) {
            Err(e) => {
                proof {
                    refusal_in_the_middle(e, done, front, f, d + later, home@);
                }
                return Err(e);
            },
            Ok(_) => {},
        }
        let ghost file_slots = choose|row: Seq<Option<ResolvedEntry>>|
            #[trigger] are_slots(row, f, home@) && files@ == files_before + row;
        proof {
            more_slots(done, front, file_slots, f, home@);
        }
        match resolve_row(its_directories, name.as_str(), home, &mut directories) {
            Err(e) => {
                proof {
                    refusal_in_the_middle(e, done + file_slots, front + f, d, later, home@);
                }
                return Err(e);
            },
            Ok(_) => {},
        }
        let ghost directory_slots = choose|row: Seq<Option<ResolvedEntry>>|
            #[trigger] are_slots(row, d, home@) && directories@ == directories_before + row;
        let ghost hooks_before = hooks@;
        let ghost added = more_hooks@;
        hooks.append(&mut more_hooks);
        proof {
            more_slots(done + file_slots, front + f, directory_slots, d, home@);
            more_slots(files_before, seen_files, file_slots, f, home@);
            more_slots(directories_before, seen_directories, directory_slots, d, home@);
            assert(seen_files + f + all_files(rest@) =~= seen_files + (f + all_files(rest@)));
            assert(seen_directories + d + all_directories(rest@) =~= seen_directories + (d
                + all_directories(rest@)));
            assert(hooks_before + added + all_hooks(rest@) =~= hooks_before + (added + all_hooks(
                rest@,
            )));
            done = done + file_slots + directory_slots;
            front = front + f + d;
            seen_files = seen_files + f;
            seen_directories = seen_directories + d;
        }
    }
    proof {
        assert(seen_files + all_files(rest@) =~= seen_files);
        assert(seen_directories + all_directories(rest@) =~= seen_directories);
        assert(hooks@ + all_hooks(rest@) =~= hooks@);
    }
    let ghost file_slots = files@;
    let ghost directory_slots = directories@;
    assert(are_slots(file_slots, all_files(all), home@));
    assert(are_slots(directory_slots, all_directories(all), home@));
    match plan_entries(files, directories, file_walks, directory_walks, anchors) {
        Ok((plan, operations)) => Ok(
            PlannedModules { plan, operations, hooks, timestamp: timestamp.to_owned() },
        ),
        Err(e) => Err(e),
    }
}

/// Every operation of a plan has as many targets as its entry declares, and says of
/// each how it relates to what would be written to it.
pub proof fn operations_have_their_targets(
    slots: Seq<Option<ResolvedEntry>>,
    entries: Seq<NamedEntry>,
    home: Seq<char>,
    k: int,
)
    requires
        are_slots(slots, entries, home),
        all_covered(entries),
        forall|i: int| 0 <= i < entries.len() ==> (#[trigger] entries[i]).0.entry.targets@.len() > 0,
        0 <= k < resolved_operations(slots).len(),
    ensures
        resolved_operations(slots)[k].targets.len() > 0,
        resolved_operations(slots)[k].dispositions.len() == resolved_operations(
            slots,
        )[k].targets.len(),
    decreases slots.len(),
{
    let n = slots.len() - 1;
    assert(is_slot(slots[n], entries[n], home));
    let front = slots.drop_last();
    assert forall|i: int| 0 <= i < front.len() implies #[trigger] is_slot(
        front[i],
        entries.drop_last()[i],
        home,
    ) by {
        assert(is_slot(slots[i], entries[i], home));
    }
    assert forall|i: int| 0 <= i < front.len() implies is_covered(
        (#[trigger] entries.drop_last()[i]).0,
    ) && entries.drop_last()[i].0.entry.targets@.len() > 0 by {
        assert(is_covered(entries[i].0));
    }
    if k < resolved_operations(front).len() {
        operations_have_their_targets(front, entries.drop_last(), home, k);
    } else {
        let x = slots[n]->0;
        let declared = entries[n].0;
        assert(is_covered(declared));
        assert(views(x.targets@).len() == declared.entry.targets@.len());
    }
}

} // verus!
