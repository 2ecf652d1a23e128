use itodo::model::{CreateListInput, CreateTaskInput, UpdateListInput};
use itodo::store::Store;

fn task_input(title: &str, list_id: &str) -> CreateTaskInput {
    CreateTaskInput {
        title: title.to_string(),
        content: None,
        list_id: list_id.to_string(),
        due_date: None,
        start_date: None,
        remind_time: None,
        repeat_rule: None,
    }
}

#[test]
fn queries_on_an_empty_store_return_nothing() {
    let s = Store::new();
    assert!(s.get_lists().is_empty());
    assert!(s.get_tasks(None).is_empty());
    assert!(s.get_important_tasks().is_empty());
    assert!(s.get_completed_tasks().is_empty());
    assert!(s.search_tasks("anything").is_empty());
    assert!(s.get_today_tasks_on("2024-06-01").is_empty());
    assert!(s.get_planned_tasks_on("2024-06-01").is_empty());
    assert!(s.get_all_subtasks().is_empty());
    assert!(s.get_subtasks("none").is_empty());
}

#[test]
fn empty_search_query_matches_every_task() {
    let mut s = Store::new();
    s.create_list_with(
        CreateListInput { name: "inbox".to_string(), color: None, icon: None },
        "l1".to_string(),
        "t0".to_string(),
    )
    .unwrap();
    s.create_task_with(task_input("a", "l1"), "task-1".to_string(), "t1".to_string()).unwrap();
    s.create_task_with(task_input("b", "l1"), "task-2".to_string(), "t2".to_string()).unwrap();
    assert_eq!(s.search_tasks("").len(), 2);
}

#[test]
fn lists_with_equal_positions_are_all_returned() {
    let mut s = Store::new();
    s.create_list_with(
        CreateListInput { name: "a".to_string(), color: None, icon: None },
        "id-a".to_string(),
        "t1".to_string(),
    )
    .unwrap();
    s.create_list_with(
        CreateListInput { name: "b".to_string(), color: None, icon: None },
        "id-b".to_string(),
        "t2".to_string(),
    )
    .unwrap();
    s.update_list(UpdateListInput {
        id: "id-b".to_string(),
        name: None,
        color: None,
        icon: None,
        order: Some(0),
    })
    .unwrap();
    let lists = s.get_lists();
    assert_eq!(lists.len(), 2);
    let mut ids: Vec<&str> = lists.iter().map(|l| l.id.as_str()).collect();
    ids.sort();
    assert_eq!(ids, vec!["id-a", "id-b"]);
    assert!(lists.iter().all(|l| l.order == 0));
}

#[test]
fn titles_compare_by_whole_substring_not_prefix() {
    let mut s = Store::new();
    s.create_list_with(
        CreateListInput { name: "inbox".to_string(), color: None, icon: None },
        "l1".to_string(),
        "t0".to_string(),
    )
    .unwrap();
    s.create_task_with(task_input("abcde", "l1"), "task-1".to_string(), "t1".to_string())
        .unwrap();
    assert_eq!(s.search_tasks("bcd").len(), 1, "the needle may sit anywhere in the title");
    assert_eq!(s.search_tasks("abd").len(), 0);
    assert_eq!(s.search_tasks("abcdef").len(), 0, "a needle longer than the text never matches");
}

#[test]
fn unicode_titles_are_searchable() {
    let mut s = Store::new();
    s.create_list_with(
        CreateListInput { name: "inbox".to_string(), color: None, icon: None },
        "l1".to_string(),
        "t0".to_string(),
    )
    .unwrap();
    s.create_task_with(task_input("买牛奶和面包", "l1"), "task-1".to_string(), "t1".to_string())
        .unwrap();
    assert_eq!(s.search_tasks("牛奶").len(), 1);
    assert_eq!(s.search_tasks("面条").len(), 0);
}
