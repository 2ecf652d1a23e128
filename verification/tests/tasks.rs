use itodo::model::{CreateListInput, CreateSubtaskInput, CreateTaskInput, StoreError, UpdateTaskInput};
use itodo::store::Store;

fn store_with_list(list_id: &str) -> Store {
    let mut s = Store::new();
    s.create_list_with(
        CreateListInput { name: "inbox".to_string(), color: None, icon: None },
        list_id.to_string(),
        "t0".to_string(),
    )
    .unwrap();
    s
}

fn task_input(title: &str, list_id: &str) -> CreateTaskInput {
    CreateTaskInput {
        title: title.to_string(),
        content: None,
        list_id: list_id.to_string(),
        due_date: None,
        start_date: None,
        remind_time: None,
        repeat_rule: None,
    }
}

fn no_update(id: &str) -> UpdateTaskInput {
    UpdateTaskInput {
        id: id.to_string(),
        title: None,
        content: None,
        is_completed: None,
        is_important: None,
        due_date: None,
        start_date: None,
        remind_time: None,
        repeat_rule: None,
        list_id: None,
    }
}

#[test]
fn create_task_fills_defaults() {
    let mut s = store_with_list("l1");
    let t = s
        .create_task_with(
            CreateTaskInput {
                title: "write".to_string(),
                content: Some("body".to_string()),
                list_id: "l1".to_string(),
                due_date: Some("2024-06-01".to_string()),
                start_date: None,
                remind_time: None,
                repeat_rule: Some("weekly".to_string()),
            },
            "task-1".to_string(),
            "t1".to_string(),
        )
        .unwrap();
    assert_eq!(t.id, "task-1");
    assert_eq!(t.title, "write");
    assert_eq!(t.content.as_deref(), Some("body"));
    assert!(!t.is_completed);
    assert!(!t.is_important);
    assert_eq!(t.due_date.as_deref(), Some("2024-06-01"));
    assert_eq!(t.repeat_rule.as_deref(), Some("weekly"));
    assert_eq!(t.created_at, "t1");
    assert_eq!(t.updated_at, "t1");
    assert_eq!(s.tasks.len(), 1);
}

#[test]
fn create_task_requires_existing_list() {
    let mut s = store_with_list("l1");
    let err = s
        .create_task_with(task_input("x", "other"), "task-1".to_string(), "t1".to_string())
        .unwrap_err();
    assert_eq!(err, StoreError::StorageFailure);
    assert!(s.tasks.is_empty());
}

#[test]
fn create_task_rejects_duplicate_id() {
    let mut s = store_with_list("l1");
    s.create_task_with(task_input("a", "l1"), "task-1".to_string(), "t1".to_string()).unwrap();
    let err = s
        .create_task_with(task_input("b", "l1"), "task-1".to_string(), "t2".to_string())
        .unwrap_err();
    assert_eq!(err, StoreError::StorageFailure);
    assert_eq!(s.tasks.len(), 1);
}

#[test]
fn update_with_only_completion_leaves_other_fields() {
    let mut s = store_with_list("l1");
    s.create_task_with(
        CreateTaskInput {
            title: "write".to_string(),
            content: Some("body".to_string()),
            list_id: "l1".to_string(),
            due_date: Some("2024-06-01".to_string()),
            start_date: Some("2024-05-20".to_string()),
            remind_time: Some("09:00".to_string()),
            repeat_rule: Some("weekly".to_string()),
        },
        "task-1".to_string(),
        "t1".to_string(),
    )
    .unwrap();
    let mut input = no_update("task-1");
    input.is_completed = Some(true);
    let t = s.update_task_with(input, "t2".to_string()).unwrap();
    assert!(t.is_completed);
    assert_eq!(t.title, "write");
    assert_eq!(t.content.as_deref(), Some("body"));
    assert_eq!(t.due_date.as_deref(), Some("2024-06-01"));
    assert_eq!(t.start_date.as_deref(), Some("2024-05-20"));
    assert_eq!(t.remind_time.as_deref(), Some("09:00"));
    assert_eq!(t.repeat_rule.as_deref(), Some("weekly"));
    assert_eq!(t.list_id, "l1");
    assert!(!t.is_important);
    assert_eq!(t.created_at, "t1");
    assert_eq!(t.updated_at, "t2", "every update refreshes the update time");
    assert_eq!(s.tasks[0].updated_at, "t2");
}

#[test]
fn update_unknown_task_is_not_found() {
    let mut s = store_with_list("l1");
    let err = s.update_task_with(no_update("missing"), "t1".to_string()).unwrap_err();
    assert_eq!(err, StoreError::NotFound);
}

#[test]
fn update_task_to_missing_list_fails() {
    let mut s = store_with_list("l1");
    s.create_task_with(task_input("a", "l1"), "task-1".to_string(), "t1".to_string()).unwrap();
    let mut input = no_update("task-1");
    input.list_id = Some("nowhere".to_string());
    let err = s.update_task_with(input, "t2".to_string()).unwrap_err();
    assert_eq!(err, StoreError::StorageFailure);
    assert_eq!(s.tasks[0].list_id, "l1");
}

#[test]
fn delete_task_cascades_to_subtasks() {
    let mut s = store_with_list("l1");
    s.create_task_with(task_input("a", "l1"), "task-1".to_string(), "t1".to_string()).unwrap();
    s.create_task_with(task_input("b", "l1"), "task-2".to_string(), "t2".to_string()).unwrap();
    s.create_subtask_with(
        CreateSubtaskInput { task_id: "task-1".to_string(), title: "x".to_string() },
        "sub-1".to_string(),
        "t3".to_string(),
    )
    .unwrap();
    s.create_subtask_with(
        CreateSubtaskInput { task_id: "task-2".to_string(), title: "y".to_string() },
        "sub-2".to_string(),
        "t4".to_string(),
    )
    .unwrap();
    s.delete_task("task-1").unwrap();
    assert_eq!(s.tasks.len(), 1);
    assert_eq!(s.tasks[0].id, "task-2");
    assert_eq!(s.subtasks.len(), 1);
    assert_eq!(s.subtasks[0].id, "sub-2");
    s.delete_task("task-1").unwrap();
}

#[test]
fn toggle_important_twice_restores_flag_and_stamps_each_time() {
    let mut s = store_with_list("l1");
    s.create_task_with(task_input("a", "l1"), "task-1".to_string(), "t1".to_string()).unwrap();
    let once = s.toggle_task_important_with("task-1", "t2".to_string()).unwrap();
    assert!(once.is_important);
    assert_eq!(once.updated_at, "t2");
    let twice = s.toggle_task_important_with("task-1", "t3".to_string()).unwrap();
    assert!(!twice.is_important, "two toggles return the task to its original flag");
    assert_eq!(twice.updated_at, "t3", "each toggle leaves a newer update time");
    assert_eq!(twice.title, "a");
}

#[test]
fn toggle_completed_flips_flag() {
    let mut s = store_with_list("l1");
    s.create_task_with(task_input("a", "l1"), "task-1".to_string(), "t1".to_string()).unwrap();
    let once = s.toggle_task_completed_with("task-1", "t2".to_string()).unwrap();
    assert!(once.is_completed);
    let err = s.toggle_task_completed_with("missing", "t3".to_string()).unwrap_err();
    assert_eq!(err, StoreError::NotFound);
}

#[test]
fn get_tasks_orders_incomplete_first_then_newest() {
    let mut s = store_with_list("l1");
    s.create_task_with(task_input("older", "l1"), "task-1".to_string(), "2024-01-01T00:00:00+00:00".to_string())
        .unwrap();
    s.create_task_with(task_input("newer", "l1"), "task-2".to_string(), "2024-02-01T00:00:00+00:00".to_string())
        .unwrap();
    s.create_task_with(task_input("done", "l1"), "task-3".to_string(), "2024-03-01T00:00:00+00:00".to_string())
        .unwrap();
    s.toggle_task_completed_with("task-3", "2024-03-02T00:00:00+00:00".to_string()).unwrap();
    let all = s.get_tasks(None);
    let titles: Vec<&str> = all.iter().map(|t| t.title.as_str()).collect();
    assert_eq!(titles, vec!["newer", "older", "done"]);
}

#[test]
fn get_tasks_filters_by_list() {
    let mut s = store_with_list("l1");
    s.create_list_with(
        CreateListInput { name: "side".to_string(), color: None, icon: None },
        "l2".to_string(),
        "t0".to_string(),
    )
    .unwrap();
    s.create_task_with(task_input("a", "l1"), "task-1".to_string(), "t1".to_string()).unwrap();
    s.create_task_with(task_input("b", "l2"), "task-2".to_string(), "t2".to_string()).unwrap();
    let only = s.get_tasks(Some("l2"));
    assert_eq!(only.len(), 1);
    assert_eq!(only[0].title, "b");
}

#[test]
fn get_important_tasks_returns_flagged_only() {
    let mut s = store_with_list("l1");
    s.create_task_with(task_input("plain", "l1"), "task-1".to_string(), "t1".to_string()).unwrap();
    s.create_task_with(task_input("starred", "l1"), "task-2".to_string(), "t2".to_string())
        .unwrap();
    s.toggle_task_important_with("task-2", "t3".to_string()).unwrap();
    let important = s.get_important_tasks();
    assert_eq!(important.len(), 1);
    assert_eq!(important[0].title, "starred");
}

#[test]
fn get_completed_tasks_orders_by_update_time_descending() {
    let mut s = store_with_list("l1");
    s.create_task_with(task_input("a", "l1"), "task-1".to_string(), "t1".to_string()).unwrap();
    s.create_task_with(task_input("b", "l1"), "task-2".to_string(), "t2".to_string()).unwrap();
    s.toggle_task_completed_with("task-1", "2024-05-01T00:00:00+00:00".to_string()).unwrap();
    s.toggle_task_completed_with("task-2", "2024-04-01T00:00:00+00:00".to_string()).unwrap();
    let done = s.get_completed_tasks();
    let titles: Vec<&str> = done.iter().map(|t| t.title.as_str()).collect();
    assert_eq!(titles, vec!["a", "b"]);
}

#[test]
fn search_matches_content_substring_case_sensitively() {
    let mut s = store_with_list("l1");
    s.create_task_with(
        CreateTaskInput {
            title: "plain".to_string(),
            content: Some("has foo inside".to_string()),
            list_id: "l1".to_string(),
            due_date: None,
            start_date: None,
            remind_time: None,
            repeat_rule: None,
        },
        "task-1".to_string(),
        "t1".to_string(),
    )
    .unwrap();
    s.create_task_with(task_input("foo in title", "l1"), "task-2".to_string(), "t2".to_string())
        .unwrap();
    s.create_task_with(task_input("Foo capitalized", "l1"), "task-3".to_string(), "t3".to_string())
        .unwrap();
    let hits = s.search_tasks("foo");
    let mut ids: Vec<&str> = hits.iter().map(|t| t.id.as_str()).collect();
    ids.sort();
    assert_eq!(ids, vec!["task-1", "task-2"], "the match is a substring match and case-sensitive");
}

#[test]
fn today_view_matches_date_part_only() {
    let mut s = store_with_list("l1");
    let mut due = task_input("due plain", "l1");
    due.due_date = Some("2024-06-01".to_string());
    s.create_task_with(due, "task-1".to_string(), "t1".to_string()).unwrap();
    let mut due_time = task_input("due with time", "l1");
    due_time.due_date = Some("2024-06-01T15:30:00".to_string());
    s.create_task_with(due_time, "task-2".to_string(), "t2".to_string()).unwrap();
    let mut other = task_input("other day", "l1");
    other.due_date = Some("2024-06-02".to_string());
    s.create_task_with(other, "task-3".to_string(), "t3".to_string()).unwrap();
    s.create_task_with(task_input("no due", "l1"), "task-4".to_string(), "t4".to_string())
        .unwrap();

    let on_day = s.get_today_tasks_on("2024-06-01");
    let mut ids: Vec<&str> = on_day.iter().map(|t| t.id.as_str()).collect();
    ids.sort();
    assert_eq!(ids, vec!["task-1", "task-2"]);

    let other_day = s.get_today_tasks_on("2024-06-02");
    assert_eq!(other_day.len(), 1);
    assert_eq!(other_day[0].id, "task-3");
}

#[test]
fn planned_view_excludes_today_and_includes_future() {
    let mut s = store_with_list("l1");
    let mut today_due = task_input("due today", "l1");
    today_due.due_date = Some("2024-06-01".to_string());
    s.create_task_with(today_due, "task-1".to_string(), "t1".to_string()).unwrap();
    let mut future_due = task_input("due later", "l1");
    future_due.due_date = Some("2024-06-05".to_string());
    s.create_task_with(future_due, "task-2".to_string(), "t2".to_string()).unwrap();
    let mut future_start = task_input("starts later", "l1");
    future_start.start_date = Some("2024-06-03".to_string());
    s.create_task_with(future_start, "task-3".to_string(), "t3".to_string()).unwrap();
    let mut past_due = task_input("overdue", "l1");
    past_due.due_date = Some("2024-05-20".to_string());
    s.create_task_with(past_due, "task-4".to_string(), "t4".to_string()).unwrap();

    let planned = s.get_planned_tasks_on("2024-06-01");
    let mut ids: Vec<&str> = planned.iter().map(|t| t.id.as_str()).collect();
    ids.sort();
    assert_eq!(ids, vec!["task-2", "task-3"]);
}

#[test]
fn planned_view_orders_by_due_date_ascending() {
    let mut s = store_with_list("l1");
    let mut late = task_input("late", "l1");
    late.due_date = Some("2024-07-01".to_string());
    s.create_task_with(late, "task-1".to_string(), "t1".to_string()).unwrap();
    let mut soon = task_input("soon", "l1");
    soon.due_date = Some("2024-06-10".to_string());
    s.create_task_with(soon, "task-2".to_string(), "t2".to_string()).unwrap();
    let mut undated = task_input("undated start", "l1");
    undated.start_date = Some("2024-06-20".to_string());
    s.create_task_with(undated, "task-3".to_string(), "t3".to_string()).unwrap();

    let planned = s.get_planned_tasks_on("2024-06-01");
    let titles: Vec<&str> = planned.iter().map(|t| t.title.as_str()).collect();
    assert_eq!(titles, vec!["undated start", "soon", "late"]);
}
