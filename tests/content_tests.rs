use ldr::content::{add_entry_to_content, archive_items_in_content, prioritize_items_in_content};
use ldr::display::matches_filter;

#[test]
fn test_add_entry_to_content_empty() {
    let result = add_entry_to_content("", "First item");
    assert_eq!(result, "First item\n");
}

#[test]
fn test_add_entry_to_content_existing() {
    let existing = "Second item\nThird item";
    let result = add_entry_to_content(existing, "First item");
    assert_eq!(result, "First item\nSecond item\nThird item");
}

#[test]
fn test_add_entry_to_content_with_trailing_newline() {
    let existing = "Second item\nThird item\n";
    let result = add_entry_to_content(existing, "First item");
    assert_eq!(result, "First item\nSecond item\nThird item");
}

#[test]
fn test_prioritize_items_in_content_single_item() {
    let lines = vec![
        "First item".to_string(),
        "Second item".to_string(),
        "Third item".to_string(),
    ];
    let result = prioritize_items_in_content(&lines, &[2]);

    assert!(result.is_ok());
    let (new_content, prioritized) = result.unwrap();
    assert_eq!(new_content, "Second item\nFirst item\nThird item\n");
    assert_eq!(prioritized, vec!["Second item"]);
}

#[test]
fn test_prioritize_items_in_content_multiple_items() {
    let lines = vec![
        "First item".to_string(),
        "Second item".to_string(),
        "Third item".to_string(),
        "Fourth item".to_string(),
    ];
    let result = prioritize_items_in_content(&lines, &[3, 1]);

    assert!(result.is_ok());
    let (new_content, prioritized) = result.unwrap();
    assert_eq!(
        new_content,
        "Third item\nFirst item\nSecond item\nFourth item\n"
    );
    assert_eq!(prioritized, vec!["Third item", "First item"]);
}

#[test]
fn test_prioritize_items_in_content_invalid_number() {
    let lines = vec!["First item".to_string(), "Second item".to_string()];
    let result = prioritize_items_in_content(&lines, &[3]);

    assert!(result.is_err());
    assert_eq!(
        result.unwrap_err(),
        "Invalid item number: 3. Valid range: 1-2"
    );
}

#[test]
fn test_prioritize_items_in_content_zero_number() {
    let lines = vec!["First item".to_string()];
    let result = prioritize_items_in_content(&lines, &[0]);

    assert!(result.is_err());
    assert_eq!(
        result.unwrap_err(),
        "Invalid item number: 0. Valid range: 1-1"
    );
}

#[test]
fn test_prioritize_items_in_content_duplicates() {
    let lines = vec![
        "First item".to_string(),
        "Second item".to_string(),
        "Third item".to_string(),
    ];
    let result = prioritize_items_in_content(&lines, &[2, 2, 1]);

    assert!(result.is_ok());
    let (new_content, prioritized) = result.unwrap();
    assert_eq!(new_content, "Second item\nFirst item\nThird item\n");
    assert_eq!(prioritized, vec!["Second item", "First item"]);
}

#[test]
fn test_archive_items_in_content_single_item() {
    let lines = vec![
        "First item".to_string(),
        "Second item".to_string(),
        "Third item".to_string(),
    ];
    let result = archive_items_in_content(&lines, &[2]);

    assert!(result.is_ok());
    let (new_content, archived) = result.unwrap();
    assert_eq!(new_content, "First item\nThird item\n");
    assert_eq!(archived, vec!["Second item"]);
}

#[test]
fn test_archive_items_in_content_multiple_items() {
    let lines = vec![
        "First item".to_string(),
        "Second item".to_string(),
        "Third item".to_string(),
        "Fourth item".to_string(),
    ];
    let result = archive_items_in_content(&lines, &[1, 3]);

    assert!(result.is_ok());
    let (new_content, archived) = result.unwrap();
    assert_eq!(new_content, "Second item\nFourth item\n");
    assert_eq!(archived, vec!["First item", "Third item"]);
}

#[test]
fn test_archive_items_in_content_all_items() {
    let lines = vec!["First item".to_string(), "Second item".to_string()];
    let result = archive_items_in_content(&lines, &[1, 2]);

    assert!(result.is_ok());
    let (new_content, archived) = result.unwrap();
    assert_eq!(new_content, "");
    assert_eq!(archived, vec!["First item", "Second item"]);
}

#[test]
fn test_archive_items_in_content_invalid_number() {
    let lines = vec!["First item".to_string()];
    let result = archive_items_in_content(&lines, &[2]);

    assert!(result.is_err());
    assert_eq!(
        result.unwrap_err(),
        "Invalid item number: 2. Valid range: 1-1"
    );
}

#[test]
fn test_archive_items_in_content_duplicates() {
    let lines = vec![
        "First item".to_string(),
        "Second item".to_string(),
        "Third item".to_string(),
    ];
    let result = archive_items_in_content(&lines, &[1, 1, 3]);

    assert!(result.is_ok());
    let (new_content, archived) = result.unwrap();
    assert_eq!(new_content, "Second item\n");
    assert_eq!(archived, vec!["First item", "Third item"]);
}

#[test]
fn test_filter_functionality() {
    let lines = vec![
        "Read: Book about Rust".to_string(),
        "Listen: Podcast episode".to_string(),
        "@work: Review PR".to_string(),
        "@home: Fix sink".to_string(),
        "Read: Another book".to_string(),
    ];

    let filtered: Vec<(usize, &String)> = lines
        .iter()
        .enumerate()
        .filter(|(_, line)| matches_filter(line, "read:"))
        .collect();

    assert_eq!(filtered.len(), 2);
    assert_eq!(filtered[0].0, 0);
    assert_eq!(filtered[0].1, "Read: Book about Rust");
    assert_eq!(filtered[1].0, 4);
    assert_eq!(filtered[1].1, "Read: Another book");

    let filtered: Vec<(usize, &String)> = lines
        .iter()
        .enumerate()
        .filter(|(_, line)| matches_filter(line, "@work"))
        .collect();

    assert_eq!(filtered.len(), 1);
    assert_eq!(filtered[0].0, 2);
    assert_eq!(filtered[0].1, "@work: Review PR");
}

#[test]
fn test_case_insensitive_filtering() {
    let lines = vec![
        "READ: Book about Rust".to_string(),
        "read: Another book".to_string(),
        "ReAd: Mixed case".to_string(),
    ];

    let filtered: Vec<(usize, &String)> = lines
        .iter()
        .enumerate()
        .filter(|(_, line)| matches_filter(line, "read:"))
        .collect();

    assert_eq!(filtered.len(), 3);
}

#[test]
fn test_review_prioritization_order() {
    let lines = vec![
        "First item".to_string(),
        "Second item".to_string(),
        "Third item".to_string(),
        "Fourth item".to_string(),
    ];

    // Items 2 and 4 are prioritized, in the order they were met.
    let (content, _) = prioritize_items_in_content(&lines, &[2, 4]).unwrap();
    let new_lines: Vec<String> = content.lines().map(|l| l.to_string()).collect();

    let expected = vec![
        "Second item".to_string(),
        "Fourth item".to_string(),
        "First item".to_string(),
        "Third item".to_string(),
    ];

    assert_eq!(new_lines, expected);
}

#[test]
fn test_review_quit_saves_changes() {
    let lines = vec![
        "First item".to_string(),
        "Second item".to_string(),
        "Third item".to_string(),
    ];

    // One item prioritized before quitting.
    let (content, _) = prioritize_items_in_content(&lines, &[2]).unwrap();
    let new_lines: Vec<String> = content.lines().map(|l| l.to_string()).collect();

    let expected = vec![
        "Second item".to_string(),
        "First item".to_string(),
        "Third item".to_string(),
    ];

    assert_eq!(new_lines, expected);
}

#[test]
fn test_prioritize_command_line_order() {
    let lines = vec![
        "Item A".to_string(),
        "Item B".to_string(),
        "Item C".to_string(),
        "Item D".to_string(),
        "Item E".to_string(),
    ];

    let result = prioritize_items_in_content(&lines, &[5, 2, 4]);

    assert!(result.is_ok());
    let (new_content, prioritized) = result.unwrap();

    let expected_content = "Item E\nItem B\nItem D\nItem A\nItem C\n";
    let expected_prioritized = vec!["Item E", "Item B", "Item D"];

    assert_eq!(new_content, expected_content);
    assert_eq!(prioritized, expected_prioritized);
}

#[test]
fn test_prioritize_command_line_order_with_duplicates() {
    let lines = vec![
        "Item A".to_string(),
        "Item B".to_string(),
        "Item C".to_string(),
    ];

    let result = prioritize_items_in_content(&lines, &[3, 1, 3, 2, 1]);

    assert!(result.is_ok());
    let (new_content, prioritized) = result.unwrap();

    let expected_content = "Item C\nItem A\nItem B\n";
    let expected_prioritized = vec!["Item C", "Item A", "Item B"];

    assert_eq!(new_content, expected_content);
    assert_eq!(prioritized, expected_prioritized);
}

#[test]
fn prepend_to_blank_content() {
    assert_eq!(add_entry_to_content("  \n\t", "New"), "New\n");
    assert_eq!(add_entry_to_content("  Old  \n\n", "New"), "New\n  Old");
}

#[test]
fn prioritize_nothing_keeps_order() {
    let lines = vec!["A".to_string(), "B".to_string()];
    let (content, moved) = prioritize_items_in_content(&lines, &[]).unwrap();
    assert_eq!(content, "A\nB\n");
    assert!(moved.is_empty());
    let empty: Vec<String> = Vec::new();
    let (content, _) = prioritize_items_in_content(&empty, &[]).unwrap();
    assert_eq!(content, "");
}

#[test]
fn first_invalid_number_is_reported() {
    let lines = vec!["A".to_string(), "B".to_string()];
    assert_eq!(
        archive_items_in_content(&lines, &[1, 7, 0]).unwrap_err(),
        "Invalid item number: 7. Valid range: 1-2"
    );
    assert_eq!(
        prioritize_items_in_content(&lines, &[12]).unwrap_err(),
        "Invalid item number: 12. Valid range: 1-2"
    );
}
