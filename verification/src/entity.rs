//! The records that the store holds.

use vstd::prelude::*;

verus! {

/// A unit of work, keyed by an id that the caller chooses.
#[derive(Debug, PartialEq, Eq)]
pub struct Task {
    pub id: u64,
    pub name: String,
    pub complete: bool,
}

/// What a `Task` holds, as mathematical values.
pub struct TaskView {
    pub id: u64,
    pub name: Seq<char>,
    pub complete: bool,
}

impl View for Task {
    type V = TaskView;

    open spec fn view(&self) -> TaskView {
        TaskView { id: self.id, name: self.name@, complete: self.complete }
    }
}

impl Clone for Task {
    fn clone(&self) -> (copy: Self)
        ensures
            copy == *self,
    {
        Task { id: self.id, name: self.name.clone(), complete: self.complete }
    }
}

/// An account. The password is kept as it was given and compared literally.
#[derive(Debug, PartialEq, Eq)]
pub struct User {
    pub id: u64,
    pub username: String,
    pub password: String,
}

/// What a `User` holds, as mathematical values.
pub struct UserView {
    pub id: u64,
    pub username: Seq<char>,
    pub password: Seq<char>,
}

impl View for User {
    type V = UserView;

    open spec fn view(&self) -> UserView {
        UserView { id: self.id, username: self.username@, password: self.password@ }
    }
}

impl Clone for User {
    fn clone(&self) -> (copy: Self)
        ensures
            copy == *self,
    {
        User { id: self.id, username: self.username.clone(), password: self.password.clone() }
    }
}

} // verus!
