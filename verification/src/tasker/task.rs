//! Tasks and the queries that select them.
use vstd::prelude::*;

verus! {

/// Where a task stands.
#[derive(Debug, Clone, Copy, PartialEq, Eq, Structural)]
pub enum Status {
    Todo,
    InProgress,
    Done,
}

/// An instant: seconds and nanoseconds after 1970-01-01T00:00:00Z.
#[derive(Debug, Clone, Copy, PartialEq, Eq, Structural)]
pub struct Timestamp {
    pub secs: i64,
    pub nanos: u32,
}

/// A task: its id (the 128-bit value of a UUID), title, status, and the
/// times it was created and last updated.
#[derive(Debug, Clone)]
pub struct Task {
    pub id: u128,
    pub title: String,
    pub status: Status,
    pub created_at: Timestamp,
    pub updated_at: Timestamp,
}

/// A task as plain values.
pub struct TaskView {
    pub id: u128,
    pub title: Seq<char>,
    pub status: Status,
    pub created_at: Timestamp,
    pub updated_at: Timestamp,
}

impl View for Task {
    type V = TaskView;

    open spec fn view(&self) -> TaskView {
        TaskView {
            id: self.id,
            title: self.title@,
            status: self.status,
            created_at: self.created_at,
            updated_at: self.updated_at,
        }
    }
}

/// Which tasks to list: those with this status, and those whose title holds
/// this text (ignoring case); `None` does not filter.
#[derive(Debug, Clone)]
pub struct Query {
    pub status: Option<Status>,
    pub search: Option<String>,
}

/// A new task: status to-do, created and updated at `now`.
pub fn new_task(id: u128, title: String, now: Timestamp) -> (t: Task)
    ensures
        t@ == (TaskView {
            id,
            title: title@,
            status: Status::Todo,
            created_at: now,
            updated_at: now,
        }),
{
    Task { id, title, status: Status::Todo, created_at: now, updated_at: now }
}

} // verus!
