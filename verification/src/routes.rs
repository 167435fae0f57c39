//! Response shaping for the HTTP handlers: given what storage returned,
//! build the payload or the failure status the handler answers with.

use vstd::prelude::*;

use crate::models::{SetTaskAssignee, StorageError, TaskAssignee, TaskAssigneeInfo};

verus! {

/// HTTP status answered on any storage failure.
pub const STATUS_INTERNAL_SERVER_ERROR: u16 = 500;

/// HTTP status answered on a successful delete: success with no payload.
pub const STATUS_NO_CONTENT: u16 = 204;

/// Payload of the demo hello endpoint.
#[derive(Debug, Clone)]
pub struct HelloResponse {
    pub message: String,
    pub feature_enabled: bool,
}

/// Builds the demo hello payload.
pub fn hello() -> (r: HelloResponse)
    ensures
        r.message@ == "Hola desde JPBot Extensions!"@,
        r.feature_enabled,
{
    HelloResponse { message: String::from_str("Hola desde JPBot Extensions!"), feature_enabled: true }
}

/// Shapes the read handler's answer from what storage returned: the fetched
/// record's assignee, or an explicit absent assignee when no record exists;
/// a storage failure maps to the generic server error status, the only
/// failure this endpoint can answer with.
pub fn get_task_assignee(
    task_id: u128,
    fetched: Result<Option<TaskAssignee>, StorageError>,
) -> (r: Result<TaskAssigneeInfo, u16>)
    ensures
        fetched matches Ok(found) ==> ({
            &&& r matches Ok(info)
            &&& info.task_id == task_id
            &&& match found {
                Some(rec) => info.assignee matches Some(a) && a@ == rec.assignee@,
                None => info.assignee is None,
            }
        }),
        fetched is Err ==> r == Err::<TaskAssigneeInfo, u16>(STATUS_INTERNAL_SERVER_ERROR),
{
    match fetched {
        Ok(found) => Ok(
            TaskAssigneeInfo {
                task_id,
                assignee: match found {
                    Some(rec) => Some(rec.assignee),
                    None => None,
                },
            },
        ),
        Err(_) => Err(STATUS_INTERNAL_SERVER_ERROR),
    }
}

/// Shapes the write handler's answer: a committed upsert echoes the
/// assignee that was written; a storage failure maps to the generic server
/// error status.
pub fn set_task_assignee(
    task_id: u128,
    payload: SetTaskAssignee,
    executed: Result<(), StorageError>,
) -> (r: Result<TaskAssigneeInfo, u16>)
    ensures
        executed is Ok ==> ({
            &&& r matches Ok(info)
            &&& info.task_id == task_id
            &&& info.assignee matches Some(a)
            &&& a@ == payload.assignee@
        }),
        executed is Err ==> r == Err::<TaskAssigneeInfo, u16>(STATUS_INTERNAL_SERVER_ERROR),
{
    match executed {
        Ok(()) => Ok(TaskAssigneeInfo { task_id, assignee: Some(payload.assignee) }),
        Err(_) => Err(STATUS_INTERNAL_SERVER_ERROR),
    }
}

/// Shapes the delete handler's answer: a committed delete answers the
/// no-content status, whether or not a record existed; a storage failure
/// maps to the generic server error status.
pub fn delete_task_assignee(executed: Result<(), StorageError>) -> (r: Result<u16, u16>)
    ensures
        executed is Ok ==> r == Ok::<u16, u16>(STATUS_NO_CONTENT),
        executed is Err ==> r == Err::<u16, u16>(STATUS_INTERNAL_SERVER_ERROR),
{
    match executed {
        Ok(()) => Ok(STATUS_NO_CONTENT),
        Err(_) => Err(STATUS_INTERNAL_SERVER_ERROR),
    }
}

} // verus!
