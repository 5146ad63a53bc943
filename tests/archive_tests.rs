use ldr::archive::{generate_archive_file, parse_archive_file};
use ldr::display::{decode_key, display_items, is_dark_terminal, rgb_to_256_color, shown_count, Key};
use ldr::migration::{
    archive_from_plain_text, archive_from_plain_text_on, create_empty_todo_file, needs_migration,
    todo_from_plain_text,
};
use ldr::model::{ArchiveFile, Task, TodoFile};

#[test]
fn archive_parse_and_generate() {
    let text = "# Archive\n\n## 2024-02-02\n- B\n  - b1\n\n### Work\n- W\n\n## 2024-02-01\n- A\n";
    let archive = parse_archive_file(text).unwrap();
    assert_eq!(archive.title, "Archive");
    assert_eq!(archive.entries.len(), 2);
    let first = &archive.entries[0];
    assert_eq!(first.date, "2024-02-02");
    assert_eq!(first.lists.len(), 2);
    assert_eq!(first.lists[0].name, "Default");
    assert_eq!(first.lists[0].tasks[0].text, "B");
    assert_eq!(first.lists[0].tasks[0].subtasks, vec!["b1"]);
    assert_eq!(first.lists[1].name, "Work");
    assert_eq!(generate_archive_file(&archive), text);
}

#[test]
fn archive_refuses_stray_lines() {
    let err = parse_archive_file("# Archive\n\n## 2024-01-01\nnot a task\n").unwrap_err();
    assert_eq!(err, "Invalid archive format at line 4: not a task");
    let err = parse_archive_file("# Archive\n## d\n  - orphan\n").unwrap_err();
    assert_eq!(err, "Subtask found without parent task at line 3: - orphan");
}

#[test]
fn empty_archive() {
    let archive = parse_archive_file("").unwrap();
    assert_eq!(archive.title, "Archive");
    assert!(archive.entries.is_empty());
    assert_eq!(generate_archive_file(&ArchiveFile::new()), "# Archive\n");
}

#[test]
fn new_date_goes_first_and_lists_merge() {
    let mut archive = ArchiveFile::new();
    archive.add_items_for_date("2024-01-01", "Default", vec![Task::new("a".to_string())]);
    archive.add_items_for_date("2024-01-02", "Default", vec![Task::new("b".to_string())]);
    archive.add_items_for_date("2024-01-02", "Home", vec![Task::new("c".to_string())]);
    archive.add_items_for_date("2024-01-02", "Default", vec![Task::new("d".to_string())]);
    assert_eq!(
        generate_archive_file(&archive),
        "# Archive\n\n## 2024-01-02\n- b\n- d\n\n### Home\n- c\n\n## 2024-01-01\n- a\n"
    );
    archive.add_items_for_today("Default", vec![Task::new("e".to_string())]);
    assert_eq!(archive.entries[0].date.len(), 10);
}

#[test]
fn listing_without_filter() {
    let mut doc = TodoFile::new("TODOs".to_string());
    doc.add_task(Task::with_subtasks("Main".to_string(), vec!["one".to_string(), "two".to_string()]));
    doc.add_task(Task::new("Second".to_string()));
    let items = display_items(&doc, None);
    let lines: Vec<&str> = items.iter().map(|i| i.line.as_str()).collect();
    assert_eq!(lines, vec!["  1. Main", "     a. one", "     b. two", "  2. Second"]);
    assert_eq!(items[2].task_number, 1);
    assert_eq!(items[2].subtask_index, Some(1));
}

#[test]
fn listing_with_filter() {
    let mut doc = TodoFile::new("TODOs".to_string());
    doc.add_task(Task::with_subtasks("READ: Book".to_string(), vec!["ch 1".to_string()]));
    doc.add_task(Task::with_subtasks(
        "Chores".to_string(),
        vec!["dishes".to_string(), "Read: mail".to_string()],
    ));
    doc.add_task(Task::new("write: Article".to_string()));
    let items = display_items(&doc, Some("read:"));
    let lines: Vec<&str> = items.iter().map(|i| i.line.as_str()).collect();
    assert_eq!(lines, vec!["  1. READ: Book", "     a. ch 1", "  2. Chores", "     b. Read: mail"]);
    assert!(display_items(&doc, Some("nonexistent")).is_empty());
}

#[test]
fn listing_counts() {
    assert_eq!(shown_count(10, 5, false), 5);
    assert_eq!(shown_count(10, 5, true), 10);
    assert_eq!(shown_count(3, 5, false), 3);
}

#[test]
fn palette_index() {
    assert_eq!(rgb_to_256_color(0, 0, 0), 16);
    assert_eq!(rgb_to_256_color(255, 255, 255), 231);
    assert_eq!(rgb_to_256_color(100, 200, 47), 16 + 36 + 6 * 3);
}

#[test]
fn terminal_background() {
    assert!(is_dark_terminal(None));
    assert!(is_dark_terminal(Some("15;0")));
    assert!(!is_dark_terminal(Some("0;15")));
    assert!(!is_dark_terminal(Some("0;+8;x")));
    assert!(is_dark_terminal(Some("0;300")));
    assert!(is_dark_terminal(Some("nothing")));
    assert!(is_dark_terminal(Some("0;")));
}

#[test]
fn keys() {
    assert_eq!(decode_key(27, Some((91, 65))), Key::Up);
    assert_eq!(decode_key(27, Some((91, 68))), Key::Left);
    assert_eq!(decode_key(27, Some((1, 65))), Key::Other);
    assert_eq!(decode_key(b'\r', None), Key::Enter);
    assert_eq!(decode_key(b'q', None), Key::Quit);
    assert_eq!(decode_key(b'z', None), Key::Other);
}

#[test]
fn test_needs_migration() {
    assert!(!needs_migration(false, false, false, false));
    assert!(needs_migration(true, false, false, false));
    assert!(!needs_migration(true, false, true, false));
}

#[test]
fn test_migrate_note_file() {
    let result = todo_from_plain_text("First task\nSecond task\nThird task\n");
    assert_eq!(result.title, "TODOs");
    assert_eq!(result.tasks.len(), 3);
    assert_eq!(result.tasks[0].text, "First task");
    assert_eq!(result.tasks[1].text, "Second task");
    assert_eq!(result.tasks[2].text, "Third task");
}

#[test]
fn test_migrate_empty_note_file() {
    let result = todo_from_plain_text("");
    assert_eq!(result.title, "TODOs");
    assert_eq!(result.tasks.len(), 0);
    assert!(create_empty_todo_file().is_empty());
}

#[test]
fn test_migrate_archive_file() {
    let result = archive_from_plain_text("Completed task 1\nCompleted task 2\n");
    assert_eq!(result.title, "Archive");
    assert_eq!(result.entries.len(), 1);
    let tasks = &result.entries[0].lists[0].tasks;
    assert_eq!(result.entries[0].lists[0].name, "Default");
    assert_eq!(tasks.len(), 2);
    assert_eq!(tasks[0].text, "Completed task 1");
    assert_eq!(tasks[1].text, "Completed task 2");
}

#[test]
fn plain_text_skips_blank_lines_and_trims() {
    let archive = archive_from_plain_text_on("  one  \n\n\ttwo\r\n", "2024-01-01");
    assert_eq!(archive.entries[0].date, "2024-01-01");
    let names: Vec<&str> = archive.entries[0].lists[0].tasks.iter().map(|t| t.text.as_str()).collect();
    assert_eq!(names, vec!["one", "two"]);
    assert!(archive_from_plain_text_on("\n \n", "2024-01-01").entries.is_empty());
}
