//! A personal task-management backend: lists, tasks and subtasks held in an
//! in-memory store with create/read/update/delete and query operations, plus
//! an export/import merge. The surrounding application loads the store from
//! durable storage at startup and persists it after each mutation.

pub mod model;
pub mod text;
pub mod sorting;
mod runtime;
pub mod store;
pub mod subtasks;
pub mod porting;
pub mod about;
pub mod laws;
