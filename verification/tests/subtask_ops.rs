use itodo::model::{CreateListInput, CreateSubtaskInput, CreateTaskInput, StoreError, UpdateSubtaskInput};
use itodo::store::Store;

fn store_with_task(task_id: &str) -> Store {
    let mut s = Store::new();
    s.create_list_with(
        CreateListInput { name: "inbox".to_string(), color: None, icon: None },
        "l1".to_string(),
        "t0".to_string(),
    )
    .unwrap();
    s.create_task_with(
        CreateTaskInput {
            title: "parent".to_string(),
            content: None,
            list_id: "l1".to_string(),
            due_date: None,
            start_date: None,
            remind_time: None,
            repeat_rule: None,
        },
        task_id.to_string(),
        "t0".to_string(),
    )
    .unwrap();
    s
}

fn sub_input(task_id: &str, title: &str) -> CreateSubtaskInput {
    CreateSubtaskInput { task_id: task_id.to_string(), title: title.to_string() }
}

#[test]
fn create_subtask_fills_defaults() {
    let mut s = store_with_task("task-1");
    let st = s
        .create_subtask_with(sub_input("task-1", "step"), "sub-1".to_string(), "t1".to_string())
        .unwrap();
    assert_eq!(st.id, "sub-1");
    assert_eq!(st.task_id, "task-1");
    assert_eq!(st.title, "step");
    assert!(!st.is_completed);
    assert_eq!(st.created_at, "t1");
    assert_eq!(st.updated_at, "t1");
}

#[test]
fn create_subtask_requires_existing_task() {
    let mut s = store_with_task("task-1");
    let err = s
        .create_subtask_with(sub_input("missing", "step"), "sub-1".to_string(), "t1".to_string())
        .unwrap_err();
    assert_eq!(err, StoreError::StorageFailure);
    assert!(s.subtasks.is_empty());
}

#[test]
fn update_subtask_applies_only_supplied_fields() {
    let mut s = store_with_task("task-1");
    s.create_subtask_with(sub_input("task-1", "old"), "sub-1".to_string(), "t1".to_string())
        .unwrap();
    let st = s
        .update_subtask_with(
            UpdateSubtaskInput { id: "sub-1".to_string(), title: None, is_completed: Some(true) },
            "t2".to_string(),
        )
        .unwrap();
    assert_eq!(st.title, "old");
    assert!(st.is_completed);
    assert_eq!(st.updated_at, "t2");
    assert_eq!(st.created_at, "t1");
    let err = s
        .update_subtask_with(
            UpdateSubtaskInput { id: "missing".to_string(), title: None, is_completed: None },
            "t3".to_string(),
        )
        .unwrap_err();
    assert_eq!(err, StoreError::NotFound);
}

#[test]
fn toggle_subtask_flips_and_stamps() {
    let mut s = store_with_task("task-1");
    s.create_subtask_with(sub_input("task-1", "step"), "sub-1".to_string(), "t1".to_string())
        .unwrap();
    let once = s.toggle_subtask_completed_with("sub-1", "t2".to_string()).unwrap();
    assert!(once.is_completed);
    assert_eq!(once.updated_at, "t2");
    let twice = s.toggle_subtask_completed_with("sub-1", "t3".to_string()).unwrap();
    assert!(!twice.is_completed);
    assert_eq!(twice.updated_at, "t3");
}

#[test]
fn delete_subtask_removes_only_that_one() {
    let mut s = store_with_task("task-1");
    s.create_subtask_with(sub_input("task-1", "a"), "sub-1".to_string(), "t1".to_string())
        .unwrap();
    s.create_subtask_with(sub_input("task-1", "b"), "sub-2".to_string(), "t2".to_string())
        .unwrap();
    s.delete_subtask("sub-1").unwrap();
    assert_eq!(s.subtasks.len(), 1);
    assert_eq!(s.subtasks[0].id, "sub-2");
    s.delete_subtask("sub-1").unwrap();
    assert_eq!(s.subtasks.len(), 1);
}

#[test]
fn get_subtasks_filters_by_task_and_orders_by_creation() {
    let mut s = store_with_task("task-1");
    s.create_task_with(
        CreateTaskInput {
            title: "other".to_string(),
            content: None,
            list_id: "l1".to_string(),
            due_date: None,
            start_date: None,
            remind_time: None,
            repeat_rule: None,
        },
        "task-2".to_string(),
        "t0".to_string(),
    )
    .unwrap();
    s.create_subtask_with(sub_input("task-1", "second"), "sub-1".to_string(), "2024-02-01".to_string())
        .unwrap();
    s.create_subtask_with(sub_input("task-1", "first"), "sub-2".to_string(), "2024-01-01".to_string())
        .unwrap();
    s.create_subtask_with(sub_input("task-2", "elsewhere"), "sub-3".to_string(), "2024-01-15".to_string())
        .unwrap();
    let of_one = s.get_subtasks("task-1");
    let titles: Vec<&str> = of_one.iter().map(|st| st.title.as_str()).collect();
    assert_eq!(titles, vec!["first", "second"]);
    let all = s.get_all_subtasks();
    let all_titles: Vec<&str> = all.iter().map(|st| st.title.as_str()).collect();
    assert_eq!(all_titles, vec!["first", "elsewhere", "second"]);
}
