//! Tests of the response shaping the HTTP handlers rely on, including the
//! end-to-end assign / read / unassign scenario.

use jpbot_extensions::models::{SetTaskAssignee, StorageError, TaskAssignee};
use jpbot_extensions::routes::{
    delete_task_assignee, get_task_assignee, hello, set_task_assignee,
    STATUS_INTERNAL_SERVER_ERROR, STATUS_NO_CONTENT,
};
use jpbot_extensions::store::AssigneeStore;

fn storage_down() -> StorageError {
    StorageError {
        message: "connection refused".to_string(),
    }
}

#[test]
fn hello_payload() {
    let r = hello();
    assert_eq!(r.message, "Hola desde JPBot Extensions!");
    assert!(r.feature_enabled);
}

#[test]
fn get_shapes_found_record() {
    let rec = TaskAssignee {
        task_id: 7u128,
        assignee: "alice".to_string(),
        created_at: 100,
        updated_at: 200,
    };
    let r = get_task_assignee(7u128, Ok(Some(rec))).expect("success expected");
    assert_eq!(r.task_id, 7u128);
    assert_eq!(r.assignee.as_deref(), Some("alice"));
}

#[test]
fn get_shapes_absent_record_as_null() {
    let r = get_task_assignee(7u128, Ok(None)).expect("success expected");
    assert_eq!(r.task_id, 7u128);
    assert!(r.assignee.is_none());
}

#[test]
fn get_storage_error_maps_to_500() {
    let r = get_task_assignee(7u128, Err(storage_down()));
    assert_eq!(r.err(), Some(STATUS_INTERNAL_SERVER_ERROR));
}

#[test]
fn set_echoes_written_assignee() {
    let payload = SetTaskAssignee {
        assignee: "alice".to_string(),
    };
    let r = set_task_assignee(7u128, payload, Ok(())).expect("success expected");
    assert_eq!(r.task_id, 7u128);
    assert_eq!(r.assignee.as_deref(), Some("alice"));
}

#[test]
fn set_storage_error_maps_to_500() {
    let payload = SetTaskAssignee {
        assignee: "alice".to_string(),
    };
    let r = set_task_assignee(7u128, payload, Err(storage_down()));
    assert_eq!(r.err(), Some(STATUS_INTERNAL_SERVER_ERROR));
}

#[test]
fn delete_success_answers_no_content() {
    assert_eq!(delete_task_assignee(Ok(())), Ok(STATUS_NO_CONTENT));
    assert_eq!(STATUS_NO_CONTENT, 204);
}

#[test]
fn delete_storage_error_maps_to_500() {
    let r = delete_task_assignee(Err(storage_down()));
    assert_eq!(r, Err(STATUS_INTERNAL_SERVER_ERROR));
    assert_eq!(STATUS_INTERNAL_SERVER_ERROR, 500);
}

#[test]
fn end_to_end_scenario() {
    // The task identifier 11111111-1111-1111-1111-111111111111 as its
    // 128-bit value.
    let task_id: u128 = 0x11111111_1111_1111_1111_111111111111;
    let mut store = AssigneeStore::new();

    // PUT /tasks/{task_id}/assignee {"assignee":"alice"} -> 200, alice
    let payload = SetTaskAssignee {
        assignee: "alice".to_string(),
    };
    store.upsert(task_id, payload.assignee.clone(), 1_000);
    let put = set_task_assignee(task_id, payload, Ok(())).expect("200 expected");
    assert_eq!(put.task_id, task_id);
    assert_eq!(put.assignee.as_deref(), Some("alice"));

    // GET same path -> 200, same body
    let got = get_task_assignee(task_id, Ok(store.get(task_id))).expect("200 expected");
    assert_eq!(got.task_id, task_id);
    assert_eq!(got.assignee.as_deref(), Some("alice"));

    // DELETE same path -> 204, empty body
    store.delete(task_id);
    assert_eq!(delete_task_assignee(Ok(())), Ok(204));

    // GET same path -> 200, null assignee
    let after = get_task_assignee(task_id, Ok(store.get(task_id))).expect("200 expected");
    assert_eq!(after.task_id, task_id);
    assert!(after.assignee.is_none());
}
