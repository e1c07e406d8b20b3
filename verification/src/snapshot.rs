//! A store laid out as plain lists of entries: the form in which it is handed
//! over to be written out, and taken back after reading.

use vstd::prelude::*;
use crate::entity::{Task, TaskView, User, UserView};

verus! {

/// Every entry of both collections, each as a key and the record under it.
#[derive(Debug)]
pub struct Snapshot {
    pub tasks: Vec<(u64, Task)>,
    pub users: Vec<(u64, User)>,
}

/// Why a store could not be saved.
#[derive(Debug, Clone, Copy, PartialEq, Eq)]
pub enum SaveError {
    /// The entries could not be put into text.
    Encode,
    /// The file could not be created or written.
    Write,
}

/// Why no store could be read back.
#[derive(Debug, Clone, Copy, PartialEq, Eq)]
pub enum LoadError {
    /// The file is not there or could not be read.
    Unreadable,
    /// The file does not hold a saved store.
    Malformed,
}

/// The entries of a `Snapshot` as sequences of mathematical values.
pub struct SnapshotView {
    pub tasks: Seq<(u64, TaskView)>,
    pub users: Seq<(u64, UserView)>,
}

impl View for Snapshot {
    type V = SnapshotView;

    open spec fn view(&self) -> SnapshotView {
        SnapshotView {
            tasks: self.tasks@.map_values(|e: (u64, Task)| (e.0, e.1@)),
            users: self.users@.map_values(|e: (u64, User)| (e.0, e.1@)),
        }
    }
}

/// `entries` holds each key of `m` once, beside the value that `m` has for it,
/// and nothing else.
pub open spec fn entries_of<V>(entries: Seq<(u64, V)>, m: Map<u64, V>) -> bool {
    &&& forall|i: int, j: int|
        0 <= i < j < entries.len() ==> (#[trigger] entries[i]).0 != (#[trigger] entries[j]).0
    &&& forall|i: int|
        0 <= i < entries.len() ==> m.contains_key((#[trigger] entries[i]).0) && m[entries[i].0]
            == entries[i].1
    &&& forall|k: u64| #[trigger]
        m.contains_key(k) ==> exists|i: int| 0 <= i < entries.len() && (#[trigger] entries[i]).0 == k
}

/// The map that results from inserting `entries` one after the other into an
/// empty map: of two entries with one key the later stays.
pub open spec fn collect<V>(entries: Seq<(u64, V)>) -> Map<u64, V>
    decreases entries.len(),
{
    if entries.len() == 0 {
        Map::empty()
    } else {
        collect(entries.drop_last()).insert(entries.last().0, entries.last().1)
    }
}

/// An entry whose key no later entry carries is found in the collected map as
/// it stands.
pub proof fn lemma_collect_last_wins<V>(entries: Seq<(u64, V)>, i: int)
    requires
        0 <= i < entries.len(),
        forall|j: int| i < j < entries.len() ==> (#[trigger] entries[j]).0 != entries[i].0,
    ensures
        collect(entries).contains_key(entries[i].0),
        collect(entries)[entries[i].0] == entries[i].1,
    decreases entries.len(),
{
    if i < entries.len() - 1 {
        let front = entries.drop_last();
        assert(entries.last() == entries[entries.len() - 1]);
        lemma_collect_last_wins(front, i);
    }
}

/// Every key of the collected map is the key of some entry.
pub proof fn lemma_collect_keys<V>(entries: Seq<(u64, V)>, k: u64)
    requires
        collect(entries).contains_key(k),
    ensures
        exists|i: int| 0 <= i < entries.len() && (#[trigger] entries[i]).0 == k,
    decreases entries.len(),
{
    if entries.len() > 0 {
        if entries.last().0 == k {
            assert(entries[entries.len() - 1].0 == k);
        } else {
            let front = entries.drop_last();
            lemma_collect_keys(front, k);
            let i = choose|i: int| 0 <= i < front.len() && (#[trigger] front[i]).0 == k;
            assert(entries[i].0 == k);
        }
    }
}

/// Writing a map out as its entries and collecting them again gives the map
/// back: nothing is lost and nothing is added, whatever the order of the
/// entries.
pub proof fn lemma_round_trip<V>(entries: Seq<(u64, V)>, m: Map<u64, V>)
    requires
        entries_of(entries, m),
    ensures
        collect(entries) == m,
{
    let back = collect(entries);
    assert forall|k: u64| back.contains_key(k) <==> m.contains_key(k) by {
        if back.contains_key(k) {
            lemma_collect_keys(entries, k);
        }
        if m.contains_key(k) {
            let i = choose|i: int| 0 <= i < entries.len() && (#[trigger] entries[i]).0 == k;
            lemma_collect_last_wins(entries, i);
        }
    }
    assert forall|k: u64| back.contains_key(k) implies back[k] == m[k] by {
        let i = choose|i: int| 0 <= i < entries.len() && (#[trigger] entries[i]).0 == k;
        lemma_collect_last_wins(entries, i);
    }
    assert(back =~= m);
}

/// A map has as many keys as it has entries, and so finitely many.
pub proof fn lemma_entries_count<V>(entries: Seq<(u64, V)>, m: Map<u64, V>)
    requires
        entries_of(entries, m),
    ensures
        m.dom().finite(),
        m.len() == entries.len(),
    decreases entries.len(),
{
    if entries.len() == 0 {
        assert(m.dom() =~= Set::<u64>::empty());
    } else {
        let front = entries.drop_last();
        let last = entries.last();
        let rest = m.remove(last.0);
        assert(last == entries[entries.len() - 1]);
        assert forall|i: int| 0 <= i < front.len() implies rest.contains_key(
            (#[trigger] front[i]).0,
        ) && rest[front[i].0] == front[i].1 by {
            assert(front[i] == entries[i]);
        }
        assert forall|k: u64| #[trigger] rest.contains_key(k) implies exists|i: int|
            0 <= i < front.len() && (#[trigger] front[i]).0 == k by {
            let i = choose|i: int| 0 <= i < entries.len() && (#[trigger] entries[i]).0 == k;
            assert(front[i] == entries[i]);
        }
        assert(entries_of(front, rest));
        lemma_entries_count(front, rest);
        assert(m.contains_key(last.0));
        assert(m.dom() =~= rest.dom().insert(last.0));
    }
}

} // verus!
