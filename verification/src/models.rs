//! Data model: the stored assignee row, the request and response payloads,
//! and the storage failure value.

use vstd::prelude::*;

verus! {

/// Mathematical view of one stored assignee row.
pub ghost struct AssigneeRecord {
    /// Identifier of the task the row belongs to.
    pub task_id: u128,
    /// Current assignee text.
    pub assignee: Seq<char>,
    /// Timestamp of the first assignment, set once.
    pub created_at: int,
    /// Timestamp of the most recent write.
    pub updated_at: int,
}

/// One stored assignee row: the current assignee of one task.
///
/// The task identifier is an opaque 128-bit value; timestamps are plain
/// integer clock readings supplied by the caller.
#[derive(Debug, Clone)]
pub struct TaskAssignee {
    pub task_id: u128,
    pub assignee: String,
    pub created_at: i64,
    pub updated_at: i64,
}

impl View for TaskAssignee {
    type V = AssigneeRecord;

    open spec fn view(&self) -> AssigneeRecord {
        AssigneeRecord {
            task_id: self.task_id,
            assignee: self.assignee@,
            created_at: self.created_at as int,
            updated_at: self.updated_at as int,
        }
    }
}

/// Request payload to set or update a task's assignee.
#[derive(Debug, Clone)]
pub struct SetTaskAssignee {
    pub assignee: String,
}

/// Response payload: a task together with its current assignee, if any.
/// An absent assignee is a valid state, not an error.
#[derive(Debug, Clone)]
pub struct TaskAssigneeInfo {
    pub task_id: u128,
    pub assignee: Option<String>,
}

/// The one failure the store can signal: the underlying storage engine was
/// unreachable or a query failed.
#[derive(Debug, Clone)]
pub struct StorageError {
    pub message: String,
}

} // verus!
