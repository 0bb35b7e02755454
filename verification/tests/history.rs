use commandbar_core::clipboard_history::entry::{ClipboardEntry, ContentType};
use commandbar_core::clipboard_history::ClipboardHistoryState;

fn entry(id: &str, content: &str) -> ClipboardEntry {
    ClipboardEntry::assemble(
        id.to_string(),
        1,
        content.to_string(),
        ContentType::Text,
        "app".to_string(),
    )
}

fn ids(history: &ClipboardHistoryState) -> Vec<String> {
    history.list().iter().map(|e| e.id.clone()).collect()
}

#[test]
fn record_puts_the_newest_first() {
    let mut history = ClipboardHistoryState::new(Vec::new());
    history.record(entry("a", "1"));
    history.record(entry("b", "2"));
    history.record(entry("c", "3"));
    assert_eq!(history.len(), 3);
    assert_eq!(ids(&history), vec!["c", "b", "a"]);
}

#[test]
fn delete_removes_the_entry_by_identifier() {
    let mut history =
        ClipboardHistoryState::new(vec![entry("a", "1"), entry("b", "2"), entry("c", "3")]);
    history.delete("b");
    assert_eq!(ids(&history), vec!["a", "c"]);
    history.delete("missing");
    assert_eq!(ids(&history), vec!["a", "c"]);
    history.delete("a");
    history.delete("c");
    assert_eq!(history.len(), 0);
}

#[test]
fn delete_removes_every_entry_of_that_identifier() {
    let mut history = ClipboardHistoryState::new(vec![
        entry("x", "1"),
        entry("a", "2"),
        entry("x", "3"),
        entry("x", "4"),
    ]);
    history.delete("x");
    assert_eq!(ids(&history), vec!["a"]);
}

#[test]
fn toggle_pin_flips_the_first_entry_of_that_identifier() {
    let mut history =
        ClipboardHistoryState::new(vec![entry("a", "1"), entry("b", "2"), entry("b", "3")]);
    assert!(history.toggle_pin("b"));
    let listed = history.list();
    assert!(!listed[0].pinned);
    assert!(listed[1].pinned);
    assert!(!listed[2].pinned);
    assert_eq!(listed[1].content, "2");
    assert!(history.toggle_pin("b"));
    assert!(history.list().iter().all(|e| !e.pinned));
    assert!(!history.toggle_pin("missing"));
    assert_eq!(ids(&history), vec!["a", "b", "b"]);
}

#[test]
fn clear_removes_everything() {
    let mut history = ClipboardHistoryState::new(vec![entry("a", "1"), entry("b", "2")]);
    history.clear();
    assert_eq!(history.len(), 0);
    assert!(history.list().is_empty());
}
