//! Count-based retention: the newest cycles stay, the others go.

use crate::text::ascending;
use crate::text::sort_texts;
use crate::text::text_le;
use crate::text::views;
use vstd::prelude::*;

verus! {

/// Number of apply cycles whose backups are kept.
pub const RETENTION_COUNT: usize = 10;

/// How many of `total` cycles go when `keep` are kept.
pub open spec fn cut(total: nat, keep: nat) -> nat {
    if total > keep {
        (total - keep) as nat
    } else {
        0
    }
}

/// Part the cycles `names` into those that go and the newest `keep`, which
/// stay. Names sort in the order of time, so the newest are the last ones in
/// sorted order. Both parts are returned oldest first.
pub fn retain_newest(names: Vec<String>, keep: usize) -> (r: (Vec<String>, Vec<String>))
    ensures
        ascending(views(r.0@) + views(r.1@)),
        (views(r.0@) + views(r.1@)).to_multiset() == views(names@).to_multiset(),
        r.0@.len() == cut(names@.len(), keep as nat),
        r.0@.len() + r.1@.len() == names@.len(),
{
    let mut sorted: Vec<String> = names;
    sort_texts(&mut sorted);
    let gone: usize = if sorted.len() > keep {
        sorted.len() - keep
    } else {
        0
    };
    let ghost all = sorted@;
    let kept: Vec<String> = sorted.split_off(gone);
    assert(views(sorted@) + views(kept@) =~= views(all));
    (sorted, kept)
}

/// An entry of the directory of backups.
#[derive(Debug, Clone, PartialEq, Eq)]
pub struct BackupEntry {
    /// Its name, if that is text.
    pub name: Option<String>,
    /// Whether it is a directory.
    pub is_dir: bool,
}

/// The cycles among the entries of the directory of backups: those that are
/// directories and have a name.
pub open spec fn cycle_names(entries: Seq<BackupEntry>) -> Seq<Seq<char>>
    decreases entries.len(),
{
    if entries.len() == 0 {
        Seq::empty()
    } else {
        let before = cycle_names(entries.drop_last());
        let last = entries.last();
        if last.is_dir && last.name is Some {
            before.push(last.name->0@)
        } else {
            before
        }
    }
}

/// The cycles to remove, oldest first, where the newest `keep` stay. `entries` is
/// the directory of backups; one that is not there has none.
pub fn gc_retain(entries: &Vec<BackupEntry>, keep: usize) -> (gone: Vec<String>)
    ensures
        gone@.len() == cut(cycle_names(entries@).len(), keep as nat),
        exists|kept: Seq<Seq<char>>|
            #![trigger ascending(views(gone@) + kept)]
            ascending(views(gone@) + kept) && (views(gone@) + kept).to_multiset() == cycle_names(
                entries@,
            ).to_multiset(),
{
    let mut names: Vec<String> = Vec::new();
    assert(views(names@) =~= Seq::<Seq<char>>::empty());
    let mut i: usize = 0;
    while i < entries.len()
        invariant
            i <= entries@.len(),
            views(names@) == cycle_names(entries@.take(i as int)),
        decreases entries@.len() - i,
    {
        let ghost before = views(names@);
        proof {
            assert(entries@.take(i + 1).drop_last() =~= entries@.take(i as int));
            assert(entries@.take(i + 1).last() == entries@[i as int]);
        }
        if entries[i].is_dir {
            match &entries[i].name {
                Some(name) => {
                    names.push(name.clone());
                    assert(views(names@) =~= before.push(name@));
                },
                None => {},
            }
        }
        i = i + 1;
    }
    assert(entries@.take(i as int) =~= entries@);
    assert(names@.len() == views(names@).len());
    let (gone, kept) = retain_newest(names, keep);
    assert(ascending(views(gone@) + views(kept@)));
    gone
}

/// No kept cycle is older than one that goes.
pub proof fn kept_cycles_are_the_newest(gone: Seq<Seq<char>>, kept: Seq<Seq<char>>, i: int, j: int)
    requires
        ascending(gone + kept),
        0 <= i < gone.len(),
        0 <= j < kept.len(),
    ensures
        text_le(gone[i], kept[j]),
{
    let all = gone + kept;
    assert(all[i] == gone[i]);
    assert(all[gone.len() + j] == kept[j]);
}

} // verus!
