//! The store: tasks and users, each collection keyed by id.

use std::collections::HashMap;
use vstd::prelude::*;
use vstd::std_specs::hash::*;
use vstd::std_specs::iter::IteratorSpec;
use crate::entity::{Task, TaskView, User, UserView};
use crate::snapshot::{
    collect, entries_of, lemma_entries_count, lemma_round_trip, LoadError, Snapshot, SnapshotView,
};

verus! {

broadcast use vstd::std_specs::hash::group_hash_axioms;

/// The authoritative in-memory state.
#[derive(Debug)]
pub struct Database {
    tasks: HashMap<u64, Task>,
    users: HashMap<u64, User>,
}

/// The store as two finite maps from key to record.
pub struct DatabaseView {
    pub tasks: Map<u64, TaskView>,
    pub users: Map<u64, UserView>,
}

/// Some record under a key of `users` carries the username `name`.
pub open spec fn has_username(users: Map<u64, UserView>, name: Seq<char>) -> bool {
    exists|k: u64| #[trigger] users.contains_key(k) && users[k].username == name
}

/// `listed` holds the values of `m`, one for each key, in some order of the keys.
pub open spec fn lists_values<V>(listed: Seq<V>, m: Map<u64, V>) -> bool {
    exists|entries: Seq<(u64, V)>|
        {
            &&& #[trigger] entries_of(entries, m)
            &&& entries.len() == listed.len()
            &&& forall|i: int| 0 <= i < listed.len() ==> listed[i] == entries[i].1
        }
}

/// The pairs that a walk over a hash map yields, each value taken through `f`,
/// are the entries of the map with its values taken through `f`.
proof fn lemma_walk_entries<V, W>(
    pairs: Seq<(&u64, &V)>,
    m: Map<u64, V>,
    f: spec_fn(V) -> W,
    entries: Seq<(u64, W)>,
)
    requires
        pairs.no_duplicates(),
        forall|i: int|
            0 <= i < pairs.len() ==> m.contains_key(*(#[trigger] pairs[i]).0) && m[*pairs[i].0]
                == *pairs[i].1,
        forall|k: u64| #[trigger] m.contains_key(k) ==> pairs.contains((&k, &m[k])),
        entries.len() == pairs.len(),
        forall|i: int|
            0 <= i < pairs.len() ==> (#[trigger] entries[i]) == (*pairs[i].0, f(*pairs[i].1)),
    ensures
        entries_of(entries, m.map_values(f)),
{
    let mapped = m.map_values(f);
    assert forall|i: int, j: int| 0 <= i < j < entries.len() implies (#[trigger] entries[i]).0 != (
    #[trigger] entries[j]).0 by {
        if entries[i].0 == entries[j].0 {
            assert(*pairs[i].0 == *pairs[j].0);
            assert(*pairs[i].1 == *pairs[j].1);
            assert(pairs[i] == pairs[j]);
        }
    }
    assert forall|i: int| 0 <= i < entries.len() implies mapped.contains_key(
        (#[trigger] entries[i]).0,
    ) && mapped[entries[i].0] == entries[i].1 by {
        assert(m.contains_key(*pairs[i].0));
    }
    assert forall|k: u64| #[trigger] mapped.contains_key(k) implies exists|i: int|
        0 <= i < entries.len() && (#[trigger] entries[i]).0 == k by {
        assert(m.contains_key(k));
        let i = choose|i: int| 0 <= i < pairs.len() && pairs[i] == (&k, &m[k]);
        assert(entries[i].0 == k);
    }
}

impl View for Database {
    type V = DatabaseView;

    closed spec fn view(&self) -> DatabaseView {
        DatabaseView {
            tasks: self.tasks@.map_values(|t: Task| t@),
            users: self.users@.map_values(|u: User| u@),
        }
    }
}

impl Clone for Database {
    fn clone(&self) -> (copy: Self)
        ensures
            copy@ == self@,
    {
        Database { tasks: self.tasks.clone(), users: self.users.clone() }
    }
}

impl Database {
    /// Both collections are finite.
    pub proof fn lemma_finite(&self)
        ensures
            self@.tasks.dom().finite(),
            self@.users.dom().finite(),
    {
        assert(self@.tasks.dom() =~= self.tasks@.dom());
        assert(self@.users.dom() =~= self.users@.dom());
    }

    /// A store that holds nothing.
    pub fn new() -> (db: Self)
        ensures
            db@.tasks == Map::<u64, TaskView>::empty(),
            db@.users == Map::<u64, UserView>::empty(),
    {
        let db = Self { tasks: HashMap::new(), users: HashMap::new() };
        assert(db@.tasks =~= Map::<u64, TaskView>::empty());
        assert(db@.users =~= Map::<u64, UserView>::empty());
        db
    }

    /// Puts `task` under its own id, replacing whatever stood there.
    pub fn insert_task(&mut self, task: Task)
        ensures
            final(self)@.tasks == old(self)@.tasks.insert(task.id, task@),
            final(self)@.users == old(self)@.users,
    {
        self.tasks.insert(task.id, task);
        assert(self@.tasks =~= old(self)@.tasks.insert(task.id, task@));
    }

    /// Takes the task under `id` out; a store without it stays as it is.
    pub fn remove_task(&mut self, id: u64)
        ensures
            final(self)@.tasks == old(self)@.tasks.remove(id),
            final(self)@.users == old(self)@.users,
            !old(self)@.tasks.contains_key(id) ==> final(self)@ == old(self)@,
    {
        self.tasks.remove(&id);
        assert(self@.tasks =~= old(self)@.tasks.remove(id));
        assert(!old(self)@.tasks.contains_key(id) ==> old(self)@.tasks.remove(id) =~= old(
            self,
        )@.tasks);
    }

    /// The task under `id`, if there is one.
    pub fn get_task(&self, id: u64) -> (found: Option<&Task>)
        ensures
            match found {
                Some(task) => self@.tasks.contains_key(id) && task@ == self@.tasks[id],
                None => !self@.tasks.contains_key(id),
            },
    {
        self.tasks.get(&id)
    }

    /// Every task of the store, once each, in no particular order.
    pub fn get_all_tasks(&self) -> (found: Vec<&Task>)
        ensures
            lists_values(found@.map_values(|t: &Task| t@), self@.tasks),
            found.len() == self@.tasks.len(),
    {
        let mut found: Vec<&Task> = Vec::new();
        let ghost pairs = spec_hash_map_iter(&self.tasks).remaining();
        for (_, v) in it: self.tasks.iter()
            invariant
                it.seq() == pairs,
                pairs.no_duplicates(),
                found.len() == it.index(),
                forall|i: int| 0 <= i < found.len() ==> found[i] == pairs[i].1,
        {
            found.push(v);
        }
        proof {
            let listed = found@.map_values(|t: &Task| t@);
            let entries = pairs.map_values(|p: (&u64, &Task)| (*p.0, p.1@));
            lemma_walk_entries(pairs, self.tasks@, |t: Task| t@, entries);
            assert(entries_of(entries, self@.tasks));
            lemma_entries_count(entries, self@.tasks);
        }
        found
    }

    /// The same as `insert_task`: a task that is not there yet is created.
    pub fn update_task(&mut self, task: Task)
        ensures
            final(self)@.tasks == old(self)@.tasks.insert(task.id, task@),
            final(self)@.users == old(self)@.users,
    {
        self.insert_task(task);
    }

    /// Puts `user` under its own id, replacing whatever stood there. Usernames
    /// are not compared: two ids may carry the same one.
    pub fn insert_user(&mut self, user: User)
        ensures
            final(self)@.users == old(self)@.users.insert(user.id, user@),
            final(self)@.tasks == old(self)@.tasks,
    {
        self.users.insert(user.id, user);
        assert(self@.users =~= old(self)@.users.insert(user.id, user@));
    }

    /// A user whose username is `username`, if there is one. Where several
    /// carry it, which of them is found is left open.
    pub fn get_user_by_name(&self, username: &str) -> (found: Option<&User>)
        ensures
            match found {
                Some(user) => user@.username == username@ && exists|k: u64|
                    #[trigger] self@.users.contains_key(k) && self@.users[k] == user@,
                None => !has_username(self@.users, username@),
            },
    {
        let wanted = username.to_owned();
        let ghost pairs = spec_hash_map_iter(&self.users).remaining();
        for (k, v) in it: self.users.iter()
            invariant
                it.seq() == pairs,
                wanted@ == username@,
                forall|i: int| 0 <= i < it.index() ==> pairs[i].1.username@ != username@,
        {
            if v.username == wanted {
                assert(self@.users.contains_key(*k) && self@.users[*k] == v@);
                return Some(v);
            }
        }
        proof {
            assert forall|k: u64| #[trigger] self@.users.contains_key(k) implies self@.users[k].username
                != username@ by {
                let pair = (&k, &self.users@[k]);
                assert(pairs.contains(pair));
                let i = choose|i: int| 0 <= i < pairs.len() && pairs[i] == pair;
                assert(pairs[i].1.username@ != username@);
            }
        }
        None
    }

    /// Every entry of the store, copied out: each key once, beside its record.
    pub fn snapshot(&self) -> (snap: Snapshot)
        ensures
            entries_of(snap@.tasks, self@.tasks),
            entries_of(snap@.users, self@.users),
            collect(snap@.tasks) == self@.tasks,
            collect(snap@.users) == self@.users,
    {
        let mut tasks: Vec<(u64, Task)> = Vec::new();
        let ghost task_pairs = spec_hash_map_iter(&self.tasks).remaining();
        for (k, v) in it: self.tasks.iter()
            invariant
                it.seq() == task_pairs,
                task_pairs.no_duplicates(),
                tasks.len() == it.index(),
                forall|i: int| 0 <= i < tasks.len() ==> tasks[i] == (*task_pairs[i].0, *task_pairs[i].1),
        {
            tasks.push((*k, v.clone()));
        }
        let mut users: Vec<(u64, User)> = Vec::new();
        let ghost user_pairs = spec_hash_map_iter(&self.users).remaining();
        for (k, v) in it: self.users.iter()
            invariant
                it.seq() == user_pairs,
                user_pairs.no_duplicates(),
                users.len() == it.index(),
                forall|i: int| 0 <= i < users.len() ==> users[i] == (*user_pairs[i].0, *user_pairs[i].1),
        {
            users.push((*k, v.clone()));
        }
        let snap = Snapshot { tasks, users };
        proof {
            lemma_walk_entries(task_pairs, self.tasks@, |t: Task| t@, snap@.tasks);
            lemma_walk_entries(user_pairs, self.users@, |u: User| u@, snap@.users);
            lemma_round_trip(snap@.tasks, self@.tasks);
            lemma_round_trip(snap@.users, self@.users);
        }
        snap
    }

    /// The store that results from inserting the entries of `snap` in their
    /// order: of two entries with one key the later stays.
    pub fn from_snapshot(snap: Snapshot) -> (db: Self)
        ensures
            db@.tasks == collect(snap@.tasks),
            db@.users == collect(snap@.users),
    {
        let ghost task_entries = snap@.tasks;
        let ghost user_entries = snap@.users;
        let Snapshot { tasks, users } = snap;
        let mut db = Self::new();
        for entry in it: tasks.into_iter()
            invariant
                it.seq() == tasks@,
                task_entries == tasks@.map_values(|e: (u64, Task)| (e.0, e.1@)),
                db@.tasks == collect(task_entries.take(it.index())),
                db@.users == Map::<u64, UserView>::empty(),
        {
            proof {
                let n = it.index();
                assert(task_entries.take(n + 1).drop_last() =~= task_entries.take(n));
            }
            db.tasks.insert(entry.0, entry.1);
            assert(db@.tasks =~= collect(task_entries.take(it.index() + 1)));
        }
        assert(task_entries.take(task_entries.len() as int) =~= task_entries);
        for entry in it: users.into_iter()
            invariant
                it.seq() == users@,
                user_entries == users@.map_values(|e: (u64, User)| (e.0, e.1@)),
                db@.users == collect(user_entries.take(it.index())),
                db@.tasks == collect(task_entries),
        {
            proof {
                let n = it.index();
                assert(user_entries.take(n + 1).drop_last() =~= user_entries.take(n));
            }
            db.users.insert(entry.0, entry.1);
            assert(db@.users =~= collect(user_entries.take(it.index() + 1)));
        }
        assert(user_entries.take(user_entries.len() as int) =~= user_entries);
        db
    }

    /// The store to start from: the one that was read back, or an empty one
    /// where none could be read, whatever the reason was.
    pub fn restore(loaded: Result<Snapshot, LoadError>) -> (db: Self)
        ensures
            match loaded {
                Ok(snap) => db@.tasks == collect(snap@.tasks) && db@.users == collect(snap@.users),
                Err(_) => db@.tasks == Map::<u64, TaskView>::empty() && db@.users == Map::<
                    u64,
                    UserView,
                >::empty(),
            },
    {
        match loaded {
            Ok(snap) => Self::from_snapshot(snap),
            Err(_) => Self::new(),
        }
    }
}

/// A store that is built from the snapshot of another equals it: saving every
/// entry and reading every entry back loses nothing and adds nothing.
pub proof fn lemma_snapshot_round_trip(db: DatabaseView, snap: SnapshotView, back: DatabaseView)
    requires
        entries_of(snap.tasks, db.tasks),
        entries_of(snap.users, db.users),
        back.tasks == collect(snap.tasks),
        back.users == collect(snap.users),
    ensures
        back == db,
{
    lemma_round_trip(snap.tasks, db.tasks);
    lemma_round_trip(snap.users, db.users);
}

/// The tasks that result from inserting `tasks` into `m` one after the other,
/// each under its own id.
pub open spec fn with_tasks(m: Map<u64, TaskView>, tasks: Seq<TaskView>) -> Map<u64, TaskView>
    decreases tasks.len(),
{
    if tasks.len() == 0 {
        m
    } else {
        with_tasks(m, tasks.drop_last()).insert(tasks.last().id, tasks.last())
    }
}

/// A task that was inserted is found under its id as it was given, and a
/// second insert under the same id leaves nothing of the first.
pub proof fn lemma_insert_then_get(m: Map<u64, TaskView>, first: TaskView, second: TaskView)
    requires
        first.id == second.id,
    ensures
        m.insert(first.id, first).contains_key(first.id),
        m.insert(first.id, first)[first.id] == first,
        m.insert(first.id, first).insert(second.id, second) == m.insert(second.id, second),
{
    assert(m.insert(first.id, first).insert(second.id, second) =~= m.insert(second.id, second));
}

/// Removing an id that is not there changes nothing.
pub proof fn lemma_remove_absent(m: Map<u64, TaskView>, id: u64)
    requires
        !m.contains_key(id),
    ensures
        m.remove(id) == m,
{
    assert(m.remove(id) =~= m);
}

/// Inserting tasks with ids that differ from one another and from those in
/// the store loses none: whatever the order, each is found as it was given,
/// what was there stays, and the store has grown by their number.
pub proof fn lemma_distinct_inserts(m: Map<u64, TaskView>, tasks: Seq<TaskView>)
    requires
        m.dom().finite(),
        forall|i: int, j: int| 0 <= i < j < tasks.len() ==> tasks[i].id != tasks[j].id,
        forall|i: int| 0 <= i < tasks.len() ==> !m.contains_key(#[trigger] tasks[i].id),
    ensures
        with_tasks(m, tasks).dom().finite(),
        with_tasks(m, tasks).len() == m.len() + tasks.len(),
        forall|i: int|
            0 <= i < tasks.len() ==> with_tasks(m, tasks).contains_key(#[trigger] tasks[i].id)
                && with_tasks(m, tasks)[tasks[i].id] == tasks[i],
        forall|k: u64| #[trigger]
            m.contains_key(k) ==> with_tasks(m, tasks).contains_key(k) && with_tasks(m, tasks)[k]
                == m[k],
        forall|k: u64| #[trigger]
            with_tasks(m, tasks).contains_key(k) ==> m.contains_key(k) || exists|i: int|
                0 <= i < tasks.len() && #[trigger] tasks[i].id == k,
    decreases tasks.len(),
{
    if tasks.len() > 0 {
        let front = tasks.drop_last();
        let last = tasks.last();
        lemma_distinct_inserts(m, front);
        let before = with_tasks(m, front);
        let after = with_tasks(m, tasks);
        assert(after == before.insert(last.id, last));
        assert(!before.contains_key(last.id)) by {
            if before.contains_key(last.id) {
                assert(!m.contains_key(tasks[tasks.len() - 1].id));
                let i = choose|i: int| 0 <= i < front.len() && #[trigger] front[i].id == last.id;
                assert(tasks[i].id == tasks[tasks.len() - 1].id);
            }
        }
        assert forall|i: int| 0 <= i < tasks.len() implies after.contains_key(
            #[trigger] tasks[i].id,
        ) && after[tasks[i].id] == tasks[i] by {
            if i < front.len() {
                assert(front[i] == tasks[i]);
                assert(before.contains_key(front[i].id));
            }
        }
        assert forall|k: u64| #[trigger] after.contains_key(k) implies m.contains_key(k) || exists|
            i: int,
        |
            0 <= i < tasks.len() && #[trigger] tasks[i].id == k by {
            if k == last.id {
                assert(tasks[tasks.len() - 1].id == k);
            } else if !m.contains_key(k) {
                assert(before.contains_key(k));
                let i = choose|i: int| 0 <= i < front.len() && #[trigger] front[i].id == k;
                assert(tasks[i].id == k);
            }
        }
    }
}

} // verus!
