//! Exercises the operations that draw fresh identifiers and the current
//! time from the environment.

use itodo::model::{CreateListInput, CreateSubtaskInput, CreateTaskInput};
use itodo::porting::ExportData;
use itodo::store::Store;

#[test]
fn ensure_default_list_seeds_once_under_live_ids() {
    let mut s = Store::new();
    let first = s.ensure_default_list().unwrap();
    let created = first.expect("an empty store has no default list yet");
    assert!(created.is_default);
    assert_eq!(created.id.chars().count(), 36, "ids are hyphenated 36-character identifiers");
    let second = s.ensure_default_list().unwrap();
    assert!(second.is_none());
    assert_eq!(s.lists.len(), 1);
}

#[test]
fn live_creates_draw_distinct_36_char_ids() {
    let mut s = Store::new();
    let l = s
        .create_list(CreateListInput { name: "inbox".to_string(), color: None, icon: None })
        .unwrap();
    assert_eq!(l.id.chars().count(), 36);
    let t = s
        .create_task(CreateTaskInput {
            title: "a".to_string(),
            content: None,
            list_id: l.id.clone(),
            due_date: None,
            start_date: None,
            remind_time: None,
            repeat_rule: None,
        })
        .unwrap();
    assert_eq!(t.id.chars().count(), 36);
    assert_ne!(t.id, l.id);
    assert!(!t.created_at.is_empty(), "creation stamps come from the clock");
    let st = s
        .create_subtask(CreateSubtaskInput { task_id: t.id.clone(), title: "s".to_string() })
        .unwrap();
    assert_eq!(st.id.chars().count(), 36);
}

#[test]
fn live_import_draws_fresh_ids() {
    let mut s = Store::new();
    let l = s
        .create_list(CreateListInput { name: "inbox".to_string(), color: None, icon: None })
        .unwrap();
    let t = s
        .create_task(CreateTaskInput {
            title: "a".to_string(),
            content: None,
            list_id: l.id.clone(),
            due_date: None,
            start_date: None,
            remind_time: None,
            repeat_rule: None,
        })
        .unwrap();
    let doc = s.export_tasks(None);
    assert_eq!(doc.version, "1.0");
    let imported = s.import_tasks(&doc).unwrap();
    assert_eq!(imported.len(), 1);
    assert_ne!(imported[0].id, t.id);
    assert_eq!(imported[0].title, "a");
    assert_eq!(s.tasks.len(), 2);
}

#[test]
fn live_queries_run_against_the_clock() {
    let mut s = Store::new();
    let l = s
        .create_list(CreateListInput { name: "inbox".to_string(), color: None, icon: None })
        .unwrap();
    s.create_task(CreateTaskInput {
        title: "past".to_string(),
        content: None,
        list_id: l.id.clone(),
        due_date: Some("1999-01-01".to_string()),
        start_date: None,
        remind_time: None,
        repeat_rule: None,
    })
    .unwrap();
    s.create_task(CreateTaskInput {
        title: "far future".to_string(),
        content: None,
        list_id: l.id.clone(),
        due_date: Some("9999-12-31".to_string()),
        start_date: None,
        remind_time: None,
        repeat_rule: None,
    })
    .unwrap();
    let today = s.get_today_tasks();
    assert!(today.is_empty(), "neither 1999 nor 9999 is the current date");
    let planned = s.get_planned_tasks();
    assert_eq!(planned.len(), 1);
    assert_eq!(planned[0].title, "far future");
}

#[test]
fn export_document_can_be_assembled_by_hand() {
    let doc = ExportData {
        version: "1.0".to_string(),
        export_date: "2024-06-01T00:00:00+00:00".to_string(),
        tasks: Vec::new(),
        lists: Vec::new(),
    };
    let mut s = Store::new();
    let imported = s.import_tasks(&doc).unwrap();
    assert!(imported.is_empty());
    assert!(s.lists.is_empty());
}
