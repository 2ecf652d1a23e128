use itodo::model::{CreateListInput, CreateTaskInput, StoreError};
use itodo::porting::ExportData;
use itodo::store::Store;

fn seeded_store() -> Store {
    let mut s = Store::new();
    s.seed_default_list_with("id-default".to_string(), "t0".to_string()).unwrap();
    s
}

fn task_input(title: &str, list_id: &str) -> CreateTaskInput {
    CreateTaskInput {
        title: title.to_string(),
        content: Some(format!("about {}", title)),
        list_id: list_id.to_string(),
        due_date: Some("2024-06-01".to_string()),
        start_date: None,
        remind_time: None,
        repeat_rule: None,
    }
}

#[test]
fn export_carries_version_date_tasks_and_lists() {
    let mut s = seeded_store();
    s.create_task_with(task_input("a", "id-default"), "task-1".to_string(), "t1".to_string())
        .unwrap();
    let doc = s.export_tasks_with(None, "2024-06-02T00:00:00+00:00".to_string());
    assert_eq!(doc.version, "1.0");
    assert_eq!(doc.export_date, "2024-06-02T00:00:00+00:00");
    assert_eq!(doc.tasks.len(), 1);
    assert_eq!(doc.tasks[0].title, "a");
    assert_eq!(doc.lists.len(), 1);
    assert_eq!(doc.lists[0].id, "id-default");
}

#[test]
fn export_can_be_scoped_to_one_list() {
    let mut s = seeded_store();
    s.create_list_with(
        CreateListInput { name: "side".to_string(), color: None, icon: None },
        "id-side".to_string(),
        "t0".to_string(),
    )
    .unwrap();
    s.create_task_with(task_input("home", "id-default"), "task-1".to_string(), "t1".to_string())
        .unwrap();
    s.create_task_with(task_input("away", "id-side"), "task-2".to_string(), "t2".to_string())
        .unwrap();
    let doc = s.export_tasks_with(Some("id-side"), "t3".to_string());
    assert_eq!(doc.tasks.len(), 1);
    assert_eq!(doc.tasks[0].title, "away");
    assert_eq!(doc.lists.len(), 2, "every list is exported even when tasks are scoped");
}

#[test]
fn import_round_trip_renames_tasks_but_keeps_payload() {
    let mut s = seeded_store();
    s.create_task_with(task_input("a", "id-default"), "task-1".to_string(), "t1".to_string())
        .unwrap();
    let doc = s.export_tasks_with(None, "t2".to_string());
    let imported = s
        .import_tasks_with(
            &doc.tasks,
            &doc.lists,
            vec!["fresh-1".to_string()],
            "t3".to_string(),
        )
        .unwrap();
    assert_eq!(imported.len(), 1);
    let new_task = &imported[0];
    assert_eq!(new_task.id, "fresh-1");
    assert_ne!(new_task.id, "task-1", "an import always generates new identities");
    assert_eq!(new_task.title, "a");
    assert_eq!(new_task.content.as_deref(), Some("about a"));
    assert_eq!(new_task.due_date.as_deref(), Some("2024-06-01"));
    assert_eq!(new_task.list_id, "id-default");
    assert_eq!(new_task.created_at, "t3");
    assert_eq!(new_task.updated_at, "t3");
    assert_eq!(s.tasks.len(), 2);
}

#[test]
fn second_import_duplicates_tasks_but_not_lists() {
    let mut s = seeded_store();
    s.create_task_with(task_input("a", "id-default"), "task-1".to_string(), "t1".to_string())
        .unwrap();
    let doc = s.export_tasks_with(None, "t2".to_string());
    s.import_tasks_with(&doc.tasks, &doc.lists, vec!["fresh-1".to_string()], "t3".to_string())
        .unwrap();
    s.import_tasks_with(&doc.tasks, &doc.lists, vec!["fresh-2".to_string()], "t4".to_string())
        .unwrap();
    assert_eq!(s.lists.len(), 1, "lists matched by id are never re-inserted");
    assert_eq!(s.tasks.len(), 3, "tasks are re-inserted on every import");
}

#[test]
fn import_recreates_absent_lists_as_they_were() {
    let mut source = seeded_store();
    source
        .create_list_with(
            CreateListInput {
                name: "project".to_string(),
                color: Some("blue".to_string()),
                icon: None,
            },
            "id-project".to_string(),
            "t1".to_string(),
        )
        .unwrap();
    source
        .create_task_with(task_input("a", "id-project"), "task-1".to_string(), "t2".to_string())
        .unwrap();
    let doc = source.export_tasks_with(None, "t3".to_string());

    let mut target = Store::new();
    target.seed_default_list_with("other-default".to_string(), "t0".to_string()).unwrap();
    let imported = target
        .import_tasks_with(
            &doc.tasks,
            &doc.lists,
            vec!["fresh-1".to_string()],
            "t4".to_string(),
        )
        .unwrap();
    assert_eq!(imported.len(), 1);
    assert_eq!(target.lists.len(), 3, "both exported lists are new to the target");
    let project = target.lists.iter().find(|l| l.id == "id-project").unwrap();
    assert_eq!(project.name, "project");
    assert_eq!(project.color.as_deref(), Some("blue"));
    assert_eq!(target.tasks[0].list_id, "id-project");
}

#[test]
fn import_with_dangling_list_reference_fails_atomically() {
    let mut s = seeded_store();
    let stray = itodo::model::Task {
        id: "task-x".to_string(),
        title: "stray".to_string(),
        content: None,
        is_completed: false,
        is_important: false,
        due_date: None,
        start_date: None,
        remind_time: None,
        repeat_rule: None,
        list_id: "nowhere".to_string(),
        created_at: "t1".to_string(),
        updated_at: "t1".to_string(),
    };
    let err = s
        .import_tasks_with(&vec![stray], &Vec::new(), vec!["fresh-1".to_string()], "t2".to_string())
        .unwrap_err();
    assert_eq!(err, StoreError::StorageFailure);
    assert_eq!(s.lists.len(), 1, "a failed import leaves the store unchanged");
    assert!(s.tasks.is_empty());
}

#[test]
fn import_rejects_colliding_fresh_ids() {
    let mut s = seeded_store();
    s.create_task_with(task_input("a", "id-default"), "task-1".to_string(), "t1".to_string())
        .unwrap();
    let doc = s.export_tasks_with(None, "t2".to_string());
    let err = s
        .import_tasks_with(&doc.tasks, &doc.lists, vec!["task-1".to_string()], "t3".to_string())
        .unwrap_err();
    assert_eq!(err, StoreError::StorageFailure);
    assert_eq!(s.tasks.len(), 1);
}

#[test]
fn export_document_shape_survives_reimport_on_document_level() {
    let mut s = seeded_store();
    s.create_task_with(task_input("a", "id-default"), "task-1".to_string(), "t1".to_string())
        .unwrap();
    let doc = s.export_tasks_with(None, "t2".to_string());
    let rebuilt = ExportData {
        version: doc.version,
        export_date: doc.export_date,
        tasks: doc.tasks,
        lists: doc.lists,
    };
    let imported = s
        .import_tasks_with(
            &rebuilt.tasks,
            &rebuilt.lists,
            vec!["fresh-1".to_string()],
            "t3".to_string(),
        )
        .unwrap();
    assert_eq!(imported[0].title, "a");
}
