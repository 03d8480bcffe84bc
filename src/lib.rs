//! A small task tracker: an ordered collection of todos keyed by id, with
//! id allocation, compaction of ids into a dense range, and a snapshot of
//! the collection for persistence.

pub mod laws;
pub mod store;
pub mod todo;

pub use store::{TodoList, TodoListView};
pub use todo::{Todo, TodoView};
