//! An in-memory store of tasks and users, the rules by which requests act on
//! it, and the plain snapshot through which it is saved and restored.

pub mod entity;
pub mod handlers;
pub mod policy;
pub mod snapshot;
pub mod store;

pub use entity::{Task, TaskView, User, UserView};
pub use snapshot::{LoadError, SaveError, Snapshot, SnapshotView};
pub use store::{Database, DatabaseView};
