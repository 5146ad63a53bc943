use ldr::archive::generate_archive_file;
use ldr::engine::{
    add_entry_to_todo, archive_items, archive_items_on, prioritize_refs, remove_items, Limit,
    TodoError,
};
use ldr::model::{ArchiveFile, Task, TodoFile};
use ldr::todo::{generate_todo_file, parse_todo_file};

fn doc_of(tasks: &[&str]) -> TodoFile {
    let mut content = String::from("# TODOs\n\n");
    for task in tasks {
        content.push_str(&format!("- {}\n", task));
    }
    parse_todo_file(&content).unwrap()
}

fn doc_with_subtasks(tasks: &[(&str, &[&str])]) -> TodoFile {
    let mut doc = TodoFile::new("TODOs".to_string());
    for (text, subs) in tasks {
        let subs: Vec<String> = subs.iter().map(|s| s.to_string()).collect();
        doc.add_task(Task::with_subtasks(text.to_string(), subs));
    }
    doc
}

fn refs(list: &[&str]) -> Vec<String> {
    list.iter().map(|s| s.to_string()).collect()
}

fn texts(doc: &TodoFile) -> Vec<String> {
    doc.tasks.iter().map(|t| t.text.clone()).collect()
}

#[test]
fn prioritize_in_given_order() {
    let mut doc = doc_of(&["A", "B", "C", "D", "E"]);
    let moved = prioritize_refs(&mut doc, &refs(&["5", "2", "4"])).unwrap();
    assert_eq!(texts(&doc), vec!["E", "B", "D", "A", "C"]);
    assert_eq!(moved, vec!["E", "B", "D"]);
}

#[test]
fn prioritize_drops_repeats() {
    let mut doc = doc_of(&["A", "B", "C"]);
    let moved = prioritize_refs(&mut doc, &refs(&["3", "1", "3", "2", "1"])).unwrap();
    assert_eq!(texts(&doc), vec!["C", "A", "B"]);
    assert_eq!(moved, vec!["C", "A", "B"]);
}

#[test]
fn prioritize_subtask_moves_parent() {
    let mut doc = doc_with_subtasks(&[("A", &["a1"]), ("B", &["b1"])]);
    prioritize_refs(&mut doc, &refs(&["2a"])).unwrap();
    assert_eq!(texts(&doc), vec!["B", "A"]);
    assert_eq!(doc.tasks[0].subtasks, vec!["b1"]);
}

#[test]
fn prioritize_rejects_without_change() {
    let mut doc = doc_of(&["A", "B"]);
    let before = doc.clone();
    let err = prioritize_refs(&mut doc, &refs(&["1", "3"])).unwrap_err();
    assert_eq!(
        err,
        TodoError::OutOfRange { task_number: 3, subtask_index: None, available: 2 }
    );
    assert_eq!(doc, before);
    let err = prioritize_refs(&mut doc, &refs(&["1b"])).unwrap_err();
    assert_eq!(
        err,
        TodoError::OutOfRange { task_number: 1, subtask_index: Some(1), available: 0 }
    );
    match prioritize_refs(&mut doc, &refs(&["1", "x", "9"])).unwrap_err() {
        TodoError::InvalidReference { reference, .. } => assert_eq!(reference, "x"),
        other => panic!("unexpected error {:?}", other),
    }
    assert_eq!(doc, before);
}

#[test]
fn test_remove_single_item() {
    let mut doc = doc_of(&["First item", "Second item", "Third item"]);
    remove_items(&mut doc, &refs(&["2"])).unwrap();
    assert_eq!(generate_todo_file(&doc), "# TODOs\n\n- First item\n- Third item\n");
}

#[test]
fn test_remove_multiple_items() {
    let mut doc = doc_of(&["First item", "Second item", "Third item", "Fourth item"]);
    remove_items(&mut doc, &refs(&["1", "3"])).unwrap();
    assert_eq!(generate_todo_file(&doc), "# TODOs\n\n- Second item\n- Fourth item\n");
}

#[test]
fn test_remove_invalid_item_number() {
    let mut doc = doc_of(&["First item", "Second item"]);
    let original = generate_todo_file(&doc);
    assert!(remove_items(&mut doc, &refs(&["3"])).is_err());
    assert_eq!(generate_todo_file(&doc), original);
}

#[test]
fn test_remove_duplicate_item_numbers() {
    let mut doc = doc_of(&["First item", "Second item", "Third item"]);
    remove_items(&mut doc, &refs(&["2", "2", "1"])).unwrap();
    assert_eq!(generate_todo_file(&doc), "# TODOs\n\n- Third item\n");
}

#[test]
fn remove_all_leaves_header() {
    let mut doc = doc_of(&["First item", "Second item"]);
    remove_items(&mut doc, &refs(&["1", "2"])).unwrap();
    assert_eq!(generate_todo_file(&doc), "# TODOs\n");
}

#[test]
fn remove_subtask_keeps_parent_with_others() {
    let mut doc = doc_with_subtasks(&[("Main task", &["Keep this", "Remove this"])]);
    let removal = remove_items(&mut doc, &refs(&["1b", "1b"])).unwrap();
    assert_eq!(generate_todo_file(&doc), "# TODOs\n\n- Main task\n  - Keep this\n");
    assert_eq!(removal.archived.len(), 1);
    assert_eq!(removal.archived[0].text, "Remove this");
    assert!(removal.archived[0].subtasks.is_empty());
    assert!(removal.auto_completed.is_empty());
}

#[test]
fn whole_task_covers_its_subtasks() {
    let mut doc = doc_with_subtasks(&[("Project", &["code", "tests"]), ("Other", &[])]);
    let removal = remove_items(&mut doc, &refs(&["1a", "1"])).unwrap();
    assert_eq!(texts(&doc), vec!["Other"]);
    assert_eq!(removal.archived.len(), 1);
    assert_eq!(removal.archived[0].text, "Project");
    assert_eq!(removal.archived[0].subtasks, vec!["code", "tests"]);
    assert!(removal.auto_completed.is_empty());
}

#[test]
fn cascade_completes_parent() {
    let mut doc = doc_with_subtasks(&[("Main", &["S1", "S2"])]);
    let mut archive = ArchiveFile::new();
    let removal =
        archive_items_on(&mut doc, &mut archive, &refs(&["1a", "1b"]), "2024-05-06").unwrap();
    assert!(doc.tasks.is_empty());
    assert_eq!(removal.auto_completed.len(), 1);
    assert_eq!(archive.entries.len(), 1);
    assert_eq!(archive.entries[0].date, "2024-05-06");
    let list = &archive.entries[0].lists[0];
    assert_eq!(list.name, "Default");
    let names: Vec<&str> = list.tasks.iter().map(|t| t.text.as_str()).collect();
    assert_eq!(names, vec!["S1", "S2", "Main"]);
    assert_eq!(
        generate_archive_file(&archive),
        "# Archive\n\n## 2024-05-06\n- S1\n- S2\n- Main\n"
    );
}

#[test]
fn tests_test_auto_complete_parent_when_all_subtasks_done() {
    let mut doc = doc_with_subtasks(&[
        ("Task A", &[]),
        ("Task B", &["Subtask 1", "Subtask 2"]),
        ("Task C", &["Another subtask"]),
    ]);
    let mut archive = ArchiveFile::new();
    archive_items_on(&mut doc, &mut archive, &refs(&["2a", "2b"]), "2024-01-01").unwrap();
    assert_eq!(
        generate_todo_file(&doc),
        "# TODOs\n\n- Task A\n- Task C\n  - Another subtask\n"
    );
    let archive_content = generate_archive_file(&archive);
    assert!(archive_content.contains("- Subtask 1"));
    assert!(archive_content.contains("- Subtask 2"));
    assert!(archive_content.contains("- Task B"));
}

#[test]
fn archiving_merges_into_existing_entry() {
    let mut archive = ArchiveFile::new();
    archive.add_items_for_date("2024-01-01", "Default", vec![Task::new("old".to_string())]);
    archive.add_items_for_date("2024-01-02", "Default", vec![Task::new("mid".to_string())]);
    let mut doc = doc_of(&["new"]);
    archive_items_on(&mut doc, &mut archive, &refs(&["1"]), "2024-01-01").unwrap();
    assert_eq!(archive.entries.len(), 2);
    assert_eq!(archive.entries[0].date, "2024-01-02");
    let names: Vec<&str> =
        archive.entries[1].lists[0].tasks.iter().map(|t| t.text.as_str()).collect();
    assert_eq!(names, vec!["old", "new"]);
}

#[test]
fn archive_with_todays_date() {
    let mut doc = doc_of(&["done"]);
    let mut archive = ArchiveFile::new();
    archive_items(&mut doc, &mut archive, &refs(&["1"])).unwrap();
    assert_eq!(archive.entries.len(), 1);
    let date = &archive.entries[0].date;
    assert_eq!(date.len(), 10);
    assert_eq!(&date[4..5], "-");
    assert_eq!(&date[7..8], "-");
}

#[test]
fn archive_error_changes_nothing() {
    let mut doc = doc_of(&["A"]);
    let mut archive = ArchiveFile::new();
    let err = archive_items_on(&mut doc, &mut archive, &refs(&["1", "0"]), "d").unwrap_err();
    assert!(matches!(err, TodoError::InvalidReference { .. }));
    assert_eq!(doc.tasks.len(), 1);
    assert!(archive.entries.is_empty());
}

#[test]
fn add_prepends_and_appends_subtasks() {
    let mut doc = TodoFile::new("TODOs".to_string());
    add_entry_to_todo(&mut doc, "Old task", None).unwrap();
    add_entry_to_todo(&mut doc, "New task", None).unwrap();
    assert_eq!(texts(&doc), vec!["New task", "Old task"]);
    add_entry_to_todo(&mut doc, "Sub A", Some(1)).unwrap();
    add_entry_to_todo(&mut doc, "Sub B", Some(1)).unwrap();
    assert_eq!(doc.tasks[0].subtasks, vec!["Sub A", "Sub B"]);
}

#[test]
fn test_empty_task_rejected() {
    let mut doc = TodoFile::new("TODOs".to_string());
    assert_eq!(add_entry_to_todo(&mut doc, "", None), Err(TodoError::EmptyInput));
    assert_eq!(add_entry_to_todo(&mut doc, "   ", None), Err(TodoError::EmptyInput));
    assert!(doc.tasks.is_empty());
}

#[test]
fn test_task_length_limit() {
    let mut doc = TodoFile::new("TODOs".to_string());
    let long = "x".repeat(501);
    assert_eq!(
        add_entry_to_todo(&mut doc, &long, None),
        Err(TodoError::LimitExceeded(Limit::TextLength))
    );
    let fits = "x".repeat(500);
    assert!(add_entry_to_todo(&mut doc, &fits, None).is_ok());
}

#[test]
fn test_max_subtasks_limit() {
    let mut doc = TodoFile::new("TODOs".to_string());
    add_entry_to_todo(&mut doc, "Main task", None).unwrap();
    for i in 1..=26 {
        add_entry_to_todo(&mut doc, &format!("Subtask {}", i), Some(1)).unwrap();
    }
    assert_eq!(
        add_entry_to_todo(&mut doc, "One too many", Some(1)),
        Err(TodoError::LimitExceeded(Limit::SubtaskCount(1)))
    );
    assert_eq!(doc.tasks[0].subtasks.len(), 26);
}

#[test]
fn add_rejects_a_1001st_task() {
    let mut doc = TodoFile::new("TODOs".to_string());
    for i in 0..1000 {
        add_entry_to_todo(&mut doc, &format!("Task {}", i), None).unwrap();
    }
    assert_eq!(
        add_entry_to_todo(&mut doc, "one more", None),
        Err(TodoError::LimitExceeded(Limit::TaskCount))
    );
    assert_eq!(doc.tasks.len(), 1000);
}

#[test]
fn test_subtask_under_invalid_parent() {
    let mut doc = TodoFile::new("TODOs".to_string());
    assert_eq!(
        add_entry_to_todo(&mut doc, "Orphan subtask", Some(1)),
        Err(TodoError::OutOfRange { task_number: 1, subtask_index: None, available: 0 })
    );
    add_entry_to_todo(&mut doc, "Task", None).unwrap();
    assert_eq!(
        add_entry_to_todo(&mut doc, "x", Some(0)),
        Err(TodoError::OutOfRange { task_number: 0, subtask_index: None, available: 1 })
    );
}
