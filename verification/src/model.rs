//! The entity model: lists, tasks and subtasks, the partial-update inputs
//! that mutate them, and the error kind that every store operation may
//! return.

use vstd::prelude::*;

verus! {

/// A named grouping of tasks. Exactly one list is seeded as the default
/// list; the default list cannot be deleted.
#[derive(Debug)]
pub struct List {
    pub id: String,
    pub name: String,
    pub color: Option<String>,
    pub icon: Option<String>,
    pub is_default: bool,
    pub created_at: String,
    pub order: i32,
}

/// A unit of work with scheduling metadata and completion/importance flags.
/// `list_id` references an existing `List`; `repeat_rule` is stored opaquely
/// and never interpreted.
#[derive(Debug)]
pub struct Task {
    pub id: String,
    pub title: String,
    pub content: Option<String>,
    pub is_completed: bool,
    pub is_important: bool,
    pub due_date: Option<String>,
    pub start_date: Option<String>,
    pub remind_time: Option<String>,
    pub repeat_rule: Option<String>,
    pub list_id: String,
    pub created_at: String,
    pub updated_at: String,
}

/// A checklist item owned by exactly one task.
#[derive(Debug)]
pub struct Subtask {
    pub id: String,
    pub task_id: String,
    pub title: String,
    pub is_completed: bool,
    pub created_at: String,
    pub updated_at: String,
}

/// Fields for a new task; flags default to false, id and timestamps are
/// generated by the store.
#[derive(Debug)]
pub struct CreateTaskInput {
    pub title: String,
    pub content: Option<String>,
    pub list_id: String,
    pub due_date: Option<String>,
    pub start_date: Option<String>,
    pub remind_time: Option<String>,
    pub repeat_rule: Option<String>,
}

/// A partial update of a task: a `None` field means "leave unchanged".
#[derive(Debug)]
pub struct UpdateTaskInput {
    pub id: String,
    pub title: Option<String>,
    pub content: Option<String>,
    pub is_completed: Option<bool>,
    pub is_important: Option<bool>,
    pub due_date: Option<String>,
    pub start_date: Option<String>,
    pub remind_time: Option<String>,
    pub repeat_rule: Option<String>,
    pub list_id: Option<String>,
}

/// Fields for a new list; id, timestamp and position are generated by the
/// store.
#[derive(Debug)]
pub struct CreateListInput {
    pub name: String,
    pub color: Option<String>,
    pub icon: Option<String>,
}

/// A partial update of a list: a `None` field means "leave unchanged".
#[derive(Debug)]
pub struct UpdateListInput {
    pub id: String,
    pub name: Option<String>,
    pub color: Option<String>,
    pub icon: Option<String>,
    pub order: Option<i32>,
}

/// Fields for a new subtask.
#[derive(Debug)]
pub struct CreateSubtaskInput {
    pub task_id: String,
    pub title: String,
}

/// A partial update of a subtask: a `None` field means "leave unchanged".
#[derive(Debug)]
pub struct UpdateSubtaskInput {
    pub id: String,
    pub title: Option<String>,
    pub is_completed: Option<bool>,
}

/// Why a store operation failed.
#[derive(Debug, Clone, Copy, PartialEq, Eq, Structural)]
pub enum StoreError {
    /// The operation referenced an id that is not present.
    NotFound,
    /// The operation is rejected outright, such as deleting the default list.
    InvalidOperation,
    /// A storage invariant would be broken: a duplicate id or a reference to
    /// a missing parent record.
    StorageFailure,
}

impl Clone for List {
    fn clone(&self) -> (r: Self)
        ensures
            r == *self,
    {
        List {
            id: self.id.clone(),
            name: self.name.clone(),
            color: self.color.clone(),
            icon: self.icon.clone(),
            is_default: self.is_default,
            created_at: self.created_at.clone(),
            order: self.order,
        }
    }
}

impl Clone for Task {
    fn clone(&self) -> (r: Self)
        ensures
            r == *self,
    {
        Task {
            id: self.id.clone(),
            title: self.title.clone(),
            content: self.content.clone(),
            is_completed: self.is_completed,
            is_important: self.is_important,
            due_date: self.due_date.clone(),
            start_date: self.start_date.clone(),
            remind_time: self.remind_time.clone(),
            repeat_rule: self.repeat_rule.clone(),
            list_id: self.list_id.clone(),
            created_at: self.created_at.clone(),
            updated_at: self.updated_at.clone(),
        }
    }
}

impl Clone for Subtask {
    fn clone(&self) -> (r: Self)
        ensures
            r == *self,
    {
        Subtask {
            id: self.id.clone(),
            task_id: self.task_id.clone(),
            title: self.title.clone(),
            is_completed: self.is_completed,
            created_at: self.created_at.clone(),
            updated_at: self.updated_at.clone(),
        }
    }
}

} // verus!
