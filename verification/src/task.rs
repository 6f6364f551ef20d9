//! Task records and the errors of the engine.

use vstd::prelude::*;

verus! {

/// The closed set of states a task can be in.
#[derive(Clone, Copy, Debug, PartialEq, Eq, Structural)]
pub enum TaskStatus {
    Pending,
    Completed,
    Deleted,
    Waiting,
    Recurring,
}

/// What can go wrong in the engine.
#[derive(Clone, Copy, Debug, PartialEq, Eq, Structural)]
pub enum Error {
    /// The identifier is absent from the cache or from the store's reply.
    NotFound,
    /// The store could not be reached or its reply could not be read.
    StoreError,
    /// The store's acknowledgement of a creation names no identifier.
    CreationFailed,
    /// The index and the tree disagree.
    DesyncError,
    /// The chain of parents leads back into itself.
    CycleDetected,
}

/// A mutation of one record that the store is asked to perform.
#[derive(Clone, Copy, Debug, PartialEq, Eq, Structural)]
pub enum Mutation {
    Done,
    Pending,
    Delete,
}

/// A dated note on a task. The engine carries it along and never reads it.
#[derive(Clone, Debug)]
pub struct Annotation {
    /// Seconds since the Unix epoch.
    pub entry: i64,
    pub description: String,
}

/// One unit of work. Times are seconds since the Unix epoch.
#[derive(Clone, Debug)]
pub struct Task {
    pub status: TaskStatus,
    pub uuid: u128,
    pub entry: i64,
    pub description: String,
    pub partof: Option<u128>,
    pub annotations: Option<Vec<Annotation>>,
    pub due: Option<i64>,
    pub modified: Option<i64>,
    pub project: Option<String>,
    pub tags: Option<Vec<String>>,
    pub wait: Option<i64>,
}

/// The label under which a status is displayed.
pub open spec fn status_label(status: TaskStatus) -> Seq<char> {
    match status {
        TaskStatus::Pending => "PENDING"@,
        TaskStatus::Deleted => "DELETED"@,
        TaskStatus::Completed => "COMPLETED"@,
        TaskStatus::Waiting => "WAITING"@,
        TaskStatus::Recurring => "RECURRING"@,
    }
}

/// The label under which a status is displayed.
pub fn status_name(status: TaskStatus) -> (label: &'static str)
    ensures
        label@ == status_label(status),
{
    match status {
        TaskStatus::Pending => "PENDING",
        TaskStatus::Deleted => "DELETED",
        TaskStatus::Completed => "COMPLETED",
        TaskStatus::Waiting => "WAITING",
        TaskStatus::Recurring => "RECURRING",
    }
}

/// What toggling the "done" mark of a task in the given status asks of the
/// store: a completed task becomes pending again, a deleted one is left alone,
/// every other one is marked done.
pub open spec fn done_toggle_spec(status: TaskStatus) -> Option<Mutation> {
    match status {
        TaskStatus::Completed => Some(Mutation::Pending),
        TaskStatus::Deleted => None,
        _ => Some(Mutation::Done),
    }
}

/// The mutation to send when the "done" mark of a task is toggled, if any.
pub fn done_toggle(status: TaskStatus) -> (m: Option<Mutation>)
    ensures
        m == done_toggle_spec(status),
{
    match status {
        TaskStatus::Completed => Some(Mutation::Pending),
        TaskStatus::Pending => Some(Mutation::Done),
        TaskStatus::Recurring => Some(Mutation::Done),
        TaskStatus::Waiting => Some(Mutation::Done),
        TaskStatus::Deleted => None,
    }
}

/// What toggling the "deleted" mark asks of the store: a deleted task is
/// restored to pending, every other one is deleted.
pub open spec fn delete_toggle_spec(status: TaskStatus) -> Mutation {
    if status == TaskStatus::Deleted {
        Mutation::Pending
    } else {
        Mutation::Delete
    }
}

/// The mutation to send when the "deleted" mark of a task is toggled.
pub fn delete_toggle(status: TaskStatus) -> (m: Mutation)
    ensures
        m == delete_toggle_spec(status),
{
    match status {
        TaskStatus::Deleted => Mutation::Pending,
        _ => Mutation::Delete,
    }
}

} // verus!
