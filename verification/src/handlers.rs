//! What each request does to the store and what is answered: one store
//! operation per request, then one attempt to save the store, then the reply.

use vstd::prelude::*;
use crate::entity::{Task, User, UserView};
use crate::snapshot::SaveError;
use crate::store::{has_username, lists_values, Database};

verus! {

/// The status of a request that was carried out.
pub const STATUS_OK: u16 = 200;

/// The status of a login that was refused.
pub const STATUS_BAD_REQUEST: u16 = 400;

/// The status of a request for a task that is not there.
pub const STATUS_NOT_FOUND: u16 = 404;

/// What a reply carries besides its status.
#[derive(Debug)]
pub enum Body<'a> {
    Empty,
    Text(&'static str),
    Task(&'a Task),
    Tasks(Vec<&'a Task>),
}

/// The answer to one request. `persist` says that the store is to be saved
/// before the answer goes out: every request asks for it, whether or not it
/// changed the store.
#[derive(Debug)]
pub struct Reply<'a> {
    pub status: u16,
    pub body: Body<'a>,
    pub persist: bool,
}

/// The reply to a request that changed the store: success, nothing to say,
/// and the store to be saved.
pub open spec fn is_done(reply: Reply) -> bool {
    &&& reply.status == STATUS_OK
    &&& reply.body is Empty
    &&& reply.persist
}

/// The reply to a login that was accepted.
pub open spec fn is_logged_in(reply: Reply) -> bool {
    &&& reply.status == STATUS_OK
    &&& reply.body matches Body::Text(text) && text@ == "Logged in!"@
    &&& reply.persist
}

/// The reply to a login that was refused.
pub open spec fn is_refused(reply: Reply) -> bool {
    &&& reply.status == STATUS_BAD_REQUEST
    &&& reply.body matches Body::Text(text) && text@ == "Invalid password or username"@
    &&& reply.persist
}

/// Some user of `users` carries both `name` and `password`.
pub open spec fn may_log_in(users: Map<u64, UserView>, name: Seq<char>, password: Seq<char>) -> bool {
    exists|k: u64| #[trigger]
        users.contains_key(k) && users[k].username == name && users[k].password == password
}

/// No user of `users` carries `name`, or one who does has another password.
pub open spec fn may_be_refused(
    users: Map<u64, UserView>,
    name: Seq<char>,
    password: Seq<char>,
) -> bool {
    ||| !has_username(users, name)
    ||| exists|k: u64| #[trigger]
        users.contains_key(k) && users[k].username == name && users[k].password != password
}

impl<'a> Reply<'a> {
    /// The reply that goes out once the save was tried: the same whether or not
    /// the save went through. A failed save is not reported to the requester.
    pub fn after_save(self, saved: Result<(), SaveError>) -> (sent: Reply<'a>)
        ensures
            sent == self,
    {
        self
    }
}

fn done() -> (reply: Reply<'static>)
    ensures
        is_done(reply),
{
    Reply { status: STATUS_OK, body: Body::Empty, persist: true }
}

/// Stores `task` under its id, over whatever stood there.
pub fn create_task(db: &mut Database, task: Task) -> (reply: Reply<'static>)
    ensures
        final(db)@.tasks == old(db)@.tasks.insert(task.id, task@),
        final(db)@.users == old(db)@.users,
        is_done(reply),
{
    db.insert_task(task);
    done()
}

/// Stores `task` under its id, whether or not a task stood there.
pub fn update_tasks(db: &mut Database, task: Task) -> (reply: Reply<'static>)
    ensures
        final(db)@.tasks == old(db)@.tasks.insert(task.id, task@),
        final(db)@.users == old(db)@.users,
        is_done(reply),
{
    db.update_task(task);
    done()
}

/// Answers with the task under `id`, or with "not found". The store stays as
/// it is and is saved all the same.
pub fn get_task<'a>(db: &'a Database, id: u64) -> (reply: Reply<'a>)
    ensures
        reply.persist,
        db@.tasks.contains_key(id) ==> reply.status == STATUS_OK && (reply.body matches Body::Task(
            task,
        ) && task@ == db@.tasks[id]),
        !db@.tasks.contains_key(id) ==> reply.status == STATUS_NOT_FOUND && reply.body is Empty,
{
    match db.get_task(id) {
        Some(task) => Reply { status: STATUS_OK, body: Body::Task(task), persist: true },
        None => Reply { status: STATUS_NOT_FOUND, body: Body::Empty, persist: true },
    }
}

/// Answers with every task of the store, once each, in no particular order.
/// The store stays as it is and is saved all the same.
pub fn get_all_tasks<'a>(db: &'a Database) -> (reply: Reply<'a>)
    ensures
        reply.persist,
        reply.status == STATUS_OK,
        reply.body matches Body::Tasks(tasks) && lists_values(
            tasks@.map_values(|t: &Task| t@),
            db@.tasks,
        ),
{
    Reply { status: STATUS_OK, body: Body::Tasks(db.get_all_tasks()), persist: true }
}

/// Takes the task under `id` out of the store. Where there is none the store
/// stays as it is, and the request succeeds all the same.
pub fn delete_task(db: &mut Database, id: u64) -> (reply: Reply<'static>)
    ensures
        final(db)@.tasks == old(db)@.tasks.remove(id),
        final(db)@.users == old(db)@.users,
        !old(db)@.tasks.contains_key(id) ==> final(db)@ == old(db)@,
        is_done(reply),
{
    db.remove_task(id);
    done()
}

/// Stores `user` under its id, over whatever stood there. The username is not
/// compared with those already stored.
pub fn register(db: &mut Database, user: User) -> (reply: Reply<'static>)
    ensures
        final(db)@.users == old(db)@.users.insert(user.id, user@),
        final(db)@.tasks == old(db)@.tasks,
        is_done(reply),
{
    db.insert_user(user);
    done()
}

/// The reply to a login once the user was looked up: accepted exactly if one
/// was found and its password is `password`, letter for letter.
pub fn login_reply(found: Option<&User>, password: &str) -> (reply: Reply<'static>)
    ensures
        reply.persist,
        (found matches Some(user) && user@.password == password@) ==> is_logged_in(reply),
        !(found matches Some(user) && user@.password == password@) ==> is_refused(reply),
{
    let accepted = match found {
        Some(user) => {
            let given = password.to_owned();
            user.password == given
        },
        None => false,
    };
    if accepted {
        Reply { status: STATUS_OK, body: Body::Text("Logged in!"), persist: true }
    } else {
        Reply {
            status: STATUS_BAD_REQUEST,
            body: Body::Text("Invalid password or username"),
            persist: true,
        }
    }
}

/// Looks for a user named `username` and compares its password with
/// `password`. Where several users carry the name, the one that the store
/// finds decides.
pub fn login(db: &Database, username: &str, password: &str) -> (reply: Reply<'static>)
    ensures
        reply.persist,
        is_logged_in(reply) || is_refused(reply),
        is_logged_in(reply) ==> may_log_in(db@.users, username@, password@),
        is_refused(reply) ==> may_be_refused(db@.users, username@, password@),
{
    let found = db.get_user_by_name(username);
    login_reply(found, password)
}

/// A user who has registered is let in with the same name and password, as
/// long as no user of that name has another password.
pub proof fn lemma_login_after_register(users: Map<u64, UserView>, user: UserView)
    requires
        forall|k: u64| #[trigger]
            users.contains_key(k) && k != user.id && users[k].username == user.username
                ==> users[k].password == user.password,
    ensures
        may_log_in(users.insert(user.id, user), user.username, user.password),
        !may_be_refused(users.insert(user.id, user), user.username, user.password),
{
    let after = users.insert(user.id, user);
    assert(after.contains_key(user.id) && after[user.id] == user);
}

/// A name and password that no user carries together are never let in: the
/// login can only be refused.
pub proof fn lemma_login_needs_match(
    users: Map<u64, UserView>,
    name: Seq<char>,
    password: Seq<char>,
)
    requires
        !has_username(users, name) || forall|k: u64| #[trigger]
            users.contains_key(k) && users[k].username == name ==> users[k].password != password,
    ensures
        !may_log_in(users, name, password),
        may_be_refused(users, name, password),
{
    if has_username(users, name) {
        let k = choose|k: u64| #[trigger] users.contains_key(k) && users[k].username == name;
        assert(users.contains_key(k) && users[k].username == name && users[k].password != password);
    }
}

} // verus!
