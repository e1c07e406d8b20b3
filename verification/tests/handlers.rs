use task_store::handlers::{
    create_task, delete_task, get_all_tasks, get_task, login, login_reply, register, update_tasks,
    Body, Reply, STATUS_BAD_REQUEST, STATUS_NOT_FOUND, STATUS_OK,
};
use task_store::{Database, SaveError, Task, User};

fn task(id: u64, name: &str, complete: bool) -> Task {
    Task { id, name: name.to_string(), complete }
}

fn user(id: u64, username: &str, password: &str) -> User {
    User { id, username: username.to_string(), password: password.to_string() }
}

fn assert_done(reply: &Reply) {
    assert_eq!(reply.status, 200);
    assert!(matches!(reply.body, Body::Empty));
    assert!(reply.persist);
}

fn assert_logged_in(reply: &Reply) {
    assert_eq!(reply.status, 200);
    assert!(matches!(reply.body, Body::Text("Logged in!")));
    assert!(reply.persist);
}

fn assert_refused(reply: &Reply) {
    assert_eq!(reply.status, 400);
    assert!(matches!(reply.body, Body::Text("Invalid password or username")));
    assert!(reply.persist);
}

fn assert_task(reply: &Reply, expected: &Task) {
    assert_eq!(reply.status, 200);
    assert!(reply.persist);
    match &reply.body {
        Body::Task(found) => assert_eq!(*found, expected),
        other => panic!("expected a task, got {:?}", other),
    }
}

#[test]
fn status_codes() {
    assert_eq!(STATUS_OK, 200);
    assert_eq!(STATUS_BAD_REQUEST, 400);
    assert_eq!(STATUS_NOT_FOUND, 404);
}

#[test]
fn task_life_cycle() {
    let mut db = Database::new();
    assert_done(&create_task(&mut db, task(1, "a", false)));
    assert_task(&get_task(&db, 1), &task(1, "a", false));
    assert_done(&update_tasks(&mut db, task(1, "b", true)));
    assert_task(&get_task(&db, 1), &task(1, "b", true));
    assert_done(&delete_task(&mut db, 1));
    let gone = get_task(&db, 1);
    assert_eq!(gone.status, 404);
    assert!(matches!(gone.body, Body::Empty));
    assert!(gone.persist);
}

#[test]
fn get_of_missing_task_is_not_found() {
    let db = Database::new();
    let reply = get_task(&db, 42);
    assert_eq!(reply.status, 404);
    assert!(matches!(reply.body, Body::Empty));
    assert!(reply.persist);
}

#[test]
fn create_over_existing_id_overwrites() {
    let mut db = Database::new();
    assert_done(&create_task(&mut db, task(1, "a", false)));
    assert_done(&create_task(&mut db, task(1, "z", true)));
    assert_task(&get_task(&db, 1), &task(1, "z", true));
}

#[test]
fn update_of_missing_id_creates() {
    let mut db = Database::new();
    assert_done(&update_tasks(&mut db, task(9, "n", false)));
    assert_task(&get_task(&db, 9), &task(9, "n", false));
}

#[test]
fn delete_of_missing_id_succeeds() {
    let mut db = Database::new();
    assert_done(&create_task(&mut db, task(1, "a", false)));
    assert_done(&delete_task(&mut db, 2));
    assert_task(&get_task(&db, 1), &task(1, "a", false));
}

#[test]
fn list_replies_with_every_task() {
    let mut db = Database::new();
    let empty = get_all_tasks(&db);
    assert_eq!(empty.status, 200);
    assert!(empty.persist);
    assert!(matches!(&empty.body, Body::Tasks(tasks) if tasks.is_empty()));
    create_task(&mut db, task(1, "a", false));
    create_task(&mut db, task(2, "b", true));
    create_task(&mut db, task(3, "c", false));
    let reply = get_all_tasks(&db);
    assert_eq!(reply.status, 200);
    assert!(reply.persist);
    match reply.body {
        Body::Tasks(mut tasks) => {
            tasks.sort_by_key(|t| t.id);
            assert_eq!(tasks, vec![&task(1, "a", false), &task(2, "b", true), &task(3, "c", false)]);
        }
        other => panic!("expected tasks, got {:?}", other),
    }
}

#[test]
fn register_then_login_succeeds() {
    let mut db = Database::new();
    assert_done(&register(&mut db, user(1, "ann", "secret")));
    assert_logged_in(&login(&db, "ann", "secret"));
}

#[test]
fn login_with_wrong_password_is_refused() {
    let mut db = Database::new();
    register(&mut db, user(1, "ann", "secret"));
    assert_refused(&login(&db, "ann", "Secret"));
    assert_refused(&login(&db, "ann", ""));
    assert_refused(&login(&db, "ann", "secret "));
}

#[test]
fn login_with_unknown_name_is_refused() {
    let mut db = Database::new();
    assert_refused(&login(&db, "ann", "secret"));
    register(&mut db, user(1, "ann", "secret"));
    assert_refused(&login(&db, "bob", "secret"));
    assert_refused(&login(&db, "", "secret"));
}

#[test]
fn login_with_shared_name_and_password() {
    let mut db = Database::new();
    register(&mut db, user(1, "ann", "same"));
    register(&mut db, user(2, "ann", "same"));
    assert_logged_in(&login(&db, "ann", "same"));
    assert_refused(&login(&db, "ann", "other"));
}

#[test]
fn login_reply_for_each_lookup() {
    let stored = user(1, "ann", "secret");
    assert_logged_in(&login_reply(Some(&stored), "secret"));
    assert_refused(&login_reply(Some(&stored), "secre"));
    assert_refused(&login_reply(None, "secret"));
    assert_refused(&login_reply(None, ""));
}

#[test]
fn register_leaves_tasks_alone() {
    let mut db = Database::new();
    create_task(&mut db, task(1, "a", false));
    register(&mut db, user(1, "ann", "pw"));
    assert_task(&get_task(&db, 1), &task(1, "a", false));
}

#[test]
fn reply_is_the_same_after_a_failed_save() {
    let mut db = Database::new();
    let sent = create_task(&mut db, task(1, "a", false)).after_save(Err(SaveError::Write));
    assert_done(&sent);
    let sent = create_task(&mut db, task(2, "b", false)).after_save(Ok(()));
    assert_done(&sent);
    let sent = get_task(&db, 3).after_save(Err(SaveError::Encode));
    assert_eq!(sent.status, 404);
    assert!(sent.persist);
}

#[test]
fn every_reply_asks_for_a_save() {
    let mut db = Database::new();
    assert!(get_all_tasks(&db).persist);
    assert!(get_task(&db, 1).persist);
    assert!(login(&db, "ann", "pw").persist);
    assert!(login_reply(None, "pw").persist);
    assert!(create_task(&mut db, task(1, "a", false)).persist);
    assert!(update_tasks(&mut db, task(1, "b", true)).persist);
    assert!(get_task(&db, 1).persist);
    assert!(get_all_tasks(&db).persist);
    assert!(register(&mut db, user(1, "ann", "pw")).persist);
    assert!(login(&db, "ann", "pw").persist);
    assert!(login(&db, "ann", "no").persist);
    assert!(delete_task(&mut db, 1).persist);
    assert!(delete_task(&mut db, 1).persist);
}
