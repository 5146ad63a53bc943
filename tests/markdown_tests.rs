use ldr::model::{Task, TodoFile};
use ldr::reference::TaskRef;
use ldr::todo::{generate_todo_file, parse_todo_file, parse_todo_file_with_warning};

#[test]
fn test_task_ref_parsing() {
    assert_eq!(
        TaskRef::parse("1").unwrap(),
        TaskRef {
            task_index: 0,
            subtask_index: None
        }
    );

    assert_eq!(
        TaskRef::parse("5a").unwrap(),
        TaskRef {
            task_index: 4,
            subtask_index: Some(0)
        }
    );

    assert_eq!(
        TaskRef::parse("10z").unwrap(),
        TaskRef {
            task_index: 9,
            subtask_index: Some(25)
        }
    );

    assert!(TaskRef::parse("").is_err());
    assert!(TaskRef::parse("a").is_err());
    assert!(TaskRef::parse("1A").is_err());
    assert!(TaskRef::parse("1ab").is_err());
    assert!(TaskRef::parse("1-2").is_err());

    assert!(TaskRef::parse("0").is_err());
    assert!(TaskRef::parse("10001").is_err());
    assert!(TaskRef::parse("999999999999999999999").is_err());
}

#[test]
fn test_parse_simple_todo_file() {
    let content = r#"# TODOs

- First task
- Second task
  - Subtask A
  - Subtask B
- Third task
"#;

    let todo_file = parse_todo_file(content).unwrap();
    assert_eq!(todo_file.title, "TODOs");
    assert_eq!(todo_file.tasks.len(), 3);
    assert_eq!(todo_file.tasks[1].subtasks.len(), 2);
    assert_eq!(todo_file.tasks[1].subtasks[0], "Subtask A");
    assert_eq!(todo_file.tasks[1].subtasks[1], "Subtask B");
}

#[test]
fn test_generate_todo_file() {
    let mut todo_file = TodoFile::new("TODOs".to_string());

    let mut task = Task::new("Task with subtasks".to_string());
    task.add_subtask("Subtask 1".to_string());
    task.add_subtask("Subtask 2".to_string());
    todo_file.add_task(task);

    let generated = generate_todo_file(&todo_file);
    let expected = r#"# TODOs

- Task with subtasks
  - Subtask 1
  - Subtask 2
"#;
    assert_eq!(generated, expected);
}

#[test]
fn test_handle_deep_nesting_gracefully() {
    let content = r#"# TODOs

- Task
  - Subtask
    - Deep subtask
"#;

    let todo_file = parse_todo_file(content).unwrap();
    assert_eq!(todo_file.tasks.len(), 1);
    assert_eq!(todo_file.tasks[0].text, "Task");
    assert_eq!(todo_file.tasks[0].subtasks.len(), 2);
    assert_eq!(todo_file.tasks[0].subtasks[0], "Subtask");
    assert_eq!(todo_file.tasks[0].subtasks[1], "Deep subtask");
}

#[test]
fn test_resilient_parsing_various_formats() {
    let content = r#"# TODOs

- Task with dash
* Task with asterisk
+ Task with plus
  - Subtask with 2 spaces
   - Subtask with 3 spaces
    - Subtask with 4 spaces
	- Subtask with tab

Plain text task without bullet
- Normal task

<!-- This is a comment -->
```
This is a code block
```
"#;

    let todo_file = parse_todo_file(content).unwrap();
    assert_eq!(todo_file.title, "TODOs");

    assert_eq!(todo_file.tasks.len(), 6);

    assert_eq!(todo_file.tasks[0].text, "Task with dash");
    assert_eq!(todo_file.tasks[0].subtasks.len(), 0);

    assert_eq!(todo_file.tasks[1].text, "Task with asterisk");
    assert_eq!(todo_file.tasks[1].subtasks.len(), 0);

    assert_eq!(todo_file.tasks[2].text, "Task with plus");
    assert_eq!(todo_file.tasks[2].subtasks.len(), 4);

    assert_eq!(todo_file.tasks[3].text, "Plain text task without bullet");
    assert_eq!(todo_file.tasks[4].text, "Normal task");
    assert_eq!(todo_file.tasks[5].text, "This is a code block");
}

#[test]
fn deep_nesting_is_flattened_and_reported() {
    let content = "# Work\n- Task\n  - Sub\n      - Deeper\n\t\t- Tabbed\n";
    let (doc, warning) = parse_todo_file_with_warning(content);
    assert_eq!(doc.title, "Work");
    assert_eq!(doc.tasks.len(), 1);
    assert_eq!(doc.tasks[0].subtasks, vec!["Sub", "Deeper", "Tabbed"]);
    assert_eq!(warning, Some(4));
    let (_, none) = parse_todo_file_with_warning("# T\n- a\n  - b\n");
    assert_eq!(none, None);
}

#[test]
fn subtask_without_task_opens_one() {
    let doc = parse_todo_file("  - Orphan\n  - Child\n").unwrap();
    assert_eq!(doc.title, "TODOs");
    assert_eq!(doc.tasks.len(), 1);
    assert_eq!(doc.tasks[0].text, "Orphan");
    assert_eq!(doc.tasks[0].subtasks, vec!["Child"]);
}

#[test]
fn headers_titles_and_crlf() {
    let doc = parse_todo_file("#Inbox\r\n## Work\r\n-  spaced  \r\n").unwrap();
    assert_eq!(doc.title, "Inbox");
    assert_eq!(doc.tasks.len(), 1);
    assert_eq!(doc.tasks[0].text, "spaced");
}

#[test]
fn empty_input_gives_empty_document() {
    let doc = parse_todo_file("").unwrap();
    assert_eq!(doc.title, "TODOs");
    assert!(doc.is_empty());
    assert_eq!(doc.task_count(), 0);
}

#[test]
fn empty_document_has_one_trailing_newline() {
    let doc = TodoFile::new("TODOs".to_string());
    assert_eq!(generate_todo_file(&doc), "# TODOs\n");
    let untitled = TodoFile::new(String::new());
    assert_eq!(generate_todo_file(&untitled), "#\n");
}

#[test]
fn round_trip_of_a_canonical_document() {
    let mut doc = TodoFile::new("My list".to_string());
    doc.add_task(Task::with_subtasks(
        "Write report".to_string(),
        vec!["outline".to_string(), "draft # 2".to_string()],
    ));
    doc.add_task(Task::new("* starred".to_string()));
    doc.prepend_task(Task::new("<b>bold</b>".to_string()));
    let text = generate_todo_file(&doc);
    assert_eq!(
        text,
        "# My list\n\n- <b>bold</b>\n- Write report\n  - outline\n  - draft # 2\n- * starred\n"
    );
    let back = parse_todo_file(&text).unwrap();
    assert_eq!(back, doc);
    assert_eq!(generate_todo_file(&back), text);
}

#[test]
fn mixed_bullets_and_indents_attach_to_preceding_task() {
    let content = "# L\n- A\n  - a1\n* B\n   - b1\n\t- b2\n+ C\n    - c1\n";
    let doc = parse_todo_file(content).unwrap();
    assert_eq!(doc.tasks.len(), 3);
    assert_eq!(doc.tasks[0].subtasks, vec!["a1"]);
    assert_eq!(doc.tasks[1].text, "B");
    assert_eq!(doc.tasks[1].subtasks, vec!["b1", "b2"]);
    assert_eq!(doc.tasks[2].text, "C");
    assert_eq!(doc.tasks[2].subtasks, vec!["c1"]);
}

#[test]
fn task_accessors() {
    let mut t = Task::new("x".to_string());
    assert!(!t.has_subtasks());
    t.add_subtask("y".to_string());
    assert!(t.has_subtasks());
    assert_eq!(t.subtask_count(), 1);
    let r = TaskRef::parse("3b").unwrap();
    assert!(r.is_subtask());
    assert!(!TaskRef::parse("3").unwrap().is_subtask());
    assert_eq!(TaskRef::parse("007").unwrap().task_index, 6);
    assert!(TaskRef::parse("1a2").is_err());
    assert_eq!(TaskRef::parse("10000").unwrap().task_index, 9999);
}
