use itodo::model::{CreateListInput, CreateSubtaskInput, CreateTaskInput, StoreError, UpdateListInput};
use itodo::store::Store;

fn list_input(name: &str) -> CreateListInput {
    CreateListInput { name: name.to_string(), color: None, icon: None }
}

fn task_input(title: &str, list_id: &str) -> CreateTaskInput {
    CreateTaskInput {
        title: title.to_string(),
        content: None,
        list_id: list_id.to_string(),
        due_date: None,
        start_date: None,
        remind_time: None,
        repeat_rule: None,
    }
}

#[test]
fn seed_creates_default_list_once() {
    let mut s = Store::new();
    let created = s
        .seed_default_list_with("id-default".to_string(), "2024-01-01T00:00:00+00:00".to_string())
        .unwrap()
        .expect("first seeding must create the default list");
    assert_eq!(created.id, "id-default");
    assert_eq!(created.name, "我的一天");
    assert_eq!(created.color.as_deref(), Some("#0078D4"));
    assert_eq!(created.icon.as_deref(), Some("sun"));
    assert!(created.is_default);
    assert_eq!(created.order, 0);
    assert_eq!(s.lists.len(), 1);
}

#[test]
fn seed_is_idempotent() {
    let mut s = Store::new();
    s.seed_default_list_with("id-default".to_string(), "2024-01-01T00:00:00+00:00".to_string())
        .unwrap();
    let second = s
        .seed_default_list_with("id-other".to_string(), "2024-01-02T00:00:00+00:00".to_string())
        .unwrap();
    assert!(second.is_none(), "a second seeding must not create another default list");
    assert_eq!(s.lists.len(), 1);
    assert_eq!(s.lists[0].id, "id-default");
}

#[test]
fn create_list_appends_at_end_of_order() {
    let mut s = Store::new();
    let first = s
        .create_list_with(list_input("a"), "id-a".to_string(), "t1".to_string())
        .unwrap();
    assert_eq!(first.order, 0, "the first list of an empty store sits at position zero");
    let second = s
        .create_list_with(list_input("b"), "id-b".to_string(), "t2".to_string())
        .unwrap();
    assert_eq!(second.order, 1);
    assert!(!second.is_default);
    assert_eq!(second.name, "b");
    assert_eq!(second.created_at, "t2");
}

#[test]
fn create_list_rejects_duplicate_id() {
    let mut s = Store::new();
    s.create_list_with(list_input("a"), "id-a".to_string(), "t1".to_string()).unwrap();
    let err = s
        .create_list_with(list_input("b"), "id-a".to_string(), "t2".to_string())
        .unwrap_err();
    assert_eq!(err, StoreError::StorageFailure);
    assert_eq!(s.lists.len(), 1);
}

#[test]
fn update_list_applies_only_supplied_fields() {
    let mut s = Store::new();
    s.create_list_with(
        CreateListInput {
            name: "old".to_string(),
            color: Some("red".to_string()),
            icon: Some("dot".to_string()),
        },
        "id-a".to_string(),
        "t1".to_string(),
    )
    .unwrap();
    let updated = s
        .update_list(UpdateListInput {
            id: "id-a".to_string(),
            name: Some("new".to_string()),
            color: None,
            icon: None,
            order: Some(7),
        })
        .unwrap();
    assert_eq!(updated.name, "new");
    assert_eq!(updated.color.as_deref(), Some("red"));
    assert_eq!(updated.icon.as_deref(), Some("dot"));
    assert_eq!(updated.order, 7);
    assert_eq!(updated.created_at, "t1");
    assert_eq!(s.lists[0].name, "new");
}

#[test]
fn update_list_unknown_id_is_not_found() {
    let mut s = Store::new();
    let err = s
        .update_list(UpdateListInput {
            id: "missing".to_string(),
            name: None,
            color: None,
            icon: None,
            order: None,
        })
        .unwrap_err();
    assert_eq!(err, StoreError::NotFound);
}

#[test]
fn delete_default_list_is_invalid_and_changes_nothing() {
    let mut s = Store::new();
    s.seed_default_list_with("id-default".to_string(), "t0".to_string()).unwrap();
    s.create_list_with(list_input("side"), "id-side".to_string(), "t1".to_string()).unwrap();
    s.create_task_with(task_input("work", "id-default"), "task-1".to_string(), "t2".to_string())
        .unwrap();
    let err = s.delete_list("id-default").unwrap_err();
    assert_eq!(err, StoreError::InvalidOperation);
    assert_eq!(s.lists.len(), 2);
    assert_eq!(s.tasks.len(), 1);
}

#[test]
fn delete_unknown_list_is_not_found() {
    let mut s = Store::new();
    let err = s.delete_list("missing").unwrap_err();
    assert_eq!(err, StoreError::NotFound);
}

#[test]
fn delete_list_cascades_to_tasks_and_subtasks() {
    let mut s = Store::new();
    s.seed_default_list_with("id-default".to_string(), "t0".to_string()).unwrap();
    s.create_list_with(list_input("side"), "id-side".to_string(), "t1".to_string()).unwrap();
    s.create_task_with(task_input("keep", "id-default"), "task-keep".to_string(), "t2".to_string())
        .unwrap();
    s.create_task_with(task_input("drop", "id-side"), "task-drop".to_string(), "t3".to_string())
        .unwrap();
    s.create_subtask_with(
        CreateSubtaskInput { task_id: "task-keep".to_string(), title: "stays".to_string() },
        "sub-keep".to_string(),
        "t4".to_string(),
    )
    .unwrap();
    s.create_subtask_with(
        CreateSubtaskInput { task_id: "task-drop".to_string(), title: "goes".to_string() },
        "sub-drop".to_string(),
        "t5".to_string(),
    )
    .unwrap();

    s.delete_list("id-side").unwrap();

    assert_eq!(s.lists.len(), 1);
    assert_eq!(s.lists[0].id, "id-default");
    assert_eq!(s.tasks.len(), 1);
    assert_eq!(s.tasks[0].id, "task-keep");
    assert_eq!(s.subtasks.len(), 1);
    assert_eq!(s.subtasks[0].id, "sub-keep");
}

#[test]
fn get_lists_orders_by_position() {
    let mut s = Store::new();
    s.create_list_with(list_input("a"), "id-a".to_string(), "t1".to_string()).unwrap();
    s.create_list_with(list_input("b"), "id-b".to_string(), "t2".to_string()).unwrap();
    s.create_list_with(list_input("c"), "id-c".to_string(), "t3".to_string()).unwrap();
    s.update_list(UpdateListInput {
        id: "id-a".to_string(),
        name: None,
        color: None,
        icon: None,
        order: Some(10),
    })
    .unwrap();
    let lists = s.get_lists();
    let names: Vec<&str> = lists.iter().map(|l| l.name.as_str()).collect();
    assert_eq!(names, vec!["b", "c", "a"]);
}
