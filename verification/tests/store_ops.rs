//! Tests of the assignee store: read, upsert and delete semantics.

use jpbot_extensions::store::AssigneeStore;

#[test]
fn get_unassigned_returns_none() {
    let store = AssigneeStore::new();
    assert!(store.get(42u128).is_none());
}

#[test]
fn upsert_then_get_returns_assignee() {
    let mut store = AssigneeStore::new();
    store.upsert(7u128, "alice".to_string(), 100);
    let rec = store.get(7u128).expect("record must exist after upsert");
    assert_eq!(rec.task_id, 7u128);
    assert_eq!(rec.assignee, "alice");
    assert_eq!(rec.created_at, 100);
    assert_eq!(rec.updated_at, 100);
}

#[test]
fn upsert_returns_record_as_stored() {
    let mut store = AssigneeStore::new();
    let written = store.upsert(9u128, "bob".to_string(), 50);
    let read = store.get(9u128).expect("record must exist after upsert");
    assert_eq!(written.task_id, read.task_id);
    assert_eq!(written.assignee, read.assignee);
    assert_eq!(written.created_at, read.created_at);
    assert_eq!(written.updated_at, read.updated_at);
}

#[test]
fn upsert_twice_keeps_created_at() {
    let mut store = AssigneeStore::new();
    store.upsert(7u128, "alice".to_string(), 100);
    store.upsert(7u128, "alice".to_string(), 250);
    let rec = store.get(7u128).expect("record must exist after upsert");
    assert_eq!(rec.assignee, "alice");
    assert_eq!(rec.created_at, 100);
    assert_eq!(rec.updated_at, 250);
}

#[test]
fn last_writer_wins_either_order() {
    let mut first_then_second = AssigneeStore::new();
    first_then_second.upsert(7u128, "A".to_string(), 100);
    first_then_second.upsert(7u128, "B".to_string(), 200);
    let rec = first_then_second.get(7u128).expect("record must exist");
    assert_eq!(rec.assignee, "B");
    assert_eq!(rec.updated_at, 200);

    let mut second_then_first = AssigneeStore::new();
    second_then_first.upsert(7u128, "B".to_string(), 200);
    second_then_first.upsert(7u128, "A".to_string(), 300);
    let rec = second_then_first.get(7u128).expect("record must exist");
    assert_eq!(rec.assignee, "A");
    assert_eq!(rec.updated_at, 300);
}

#[test]
fn delete_unassigned_is_noop() {
    let mut store = AssigneeStore::new();
    store.upsert(1u128, "alice".to_string(), 10);
    store.delete(2u128);
    assert!(store.get(2u128).is_none());
    let kept = store.get(1u128).expect("unrelated record must survive");
    assert_eq!(kept.assignee, "alice");
}

#[test]
fn delete_after_upsert_clears() {
    let mut store = AssigneeStore::new();
    store.upsert(7u128, "alice".to_string(), 100);
    store.delete(7u128);
    assert!(store.get(7u128).is_none());
}

#[test]
fn different_tasks_are_independent() {
    let mut store = AssigneeStore::new();
    store.upsert(1u128, "alice".to_string(), 10);
    store.upsert(2u128, "bob".to_string(), 20);
    store.upsert(1u128, "carol".to_string(), 30);
    let one = store.get(1u128).expect("record must exist");
    let two = store.get(2u128).expect("record must exist");
    assert_eq!(one.assignee, "carol");
    assert_eq!(one.created_at, 10);
    assert_eq!(two.assignee, "bob");
    assert_eq!(two.created_at, 20);
    store.delete(2u128);
    assert!(store.get(2u128).is_none());
    assert!(store.get(1u128).is_some());
}

#[test]
fn empty_assignee_is_accepted() {
    let mut store = AssigneeStore::new();
    store.upsert(5u128, String::new(), 1);
    let rec = store.get(5u128).expect("record must exist");
    assert_eq!(rec.assignee, "");
}
