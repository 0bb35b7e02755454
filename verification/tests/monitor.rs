use commandbar_core::clipboard_history::entry::{ClipboardEntry, ContentType};
use commandbar_core::clipboard_history::monitor::{
    handle_clipboard_update, MonitorState, Verdict, DEBOUNCE_MS, MAX_CONTENT_BYTES,
};
use commandbar_core::clipboard_history::ClipboardHistoryState;

fn fresh() -> (MonitorState, ClipboardHistoryState) {
    (MonitorState::new(), ClipboardHistoryState::new(Vec::new()))
}

fn notify(
    state: &mut MonitorState,
    history: &mut ClipboardHistoryState,
    now_ms: u64,
    text: &str,
) -> Option<ClipboardEntry> {
    handle_clipboard_update(
        state,
        history,
        false,
        now_ms,
        Some(text.to_string()),
        "editor".to_string(),
    )
}

#[test]
fn limits_of_the_monitor() {
    assert_eq!(DEBOUNCE_MS, 100);
    assert_eq!(MAX_CONTENT_BYTES, 1_000_000);
}

#[test]
fn first_text_is_captured() {
    let (mut state, mut history) = fresh();
    let captured = notify(&mut state, &mut history, 5, "https://example.com").unwrap();
    assert_eq!(captured.content, "https://example.com");
    assert_eq!(captured.content_type, ContentType::Link);
    assert_eq!(captured.source_app, "editor");
    assert!(!captured.pinned);
    assert_eq!(history.len(), 1);
    let listed = history.list();
    assert_eq!(listed[0].id, captured.id);
    assert_eq!(listed[0].content, "https://example.com");
    assert_eq!(state.last_accepted_ms, Some(5));
    assert_eq!(
        state.last_hash,
        Some(ClipboardEntry::hash_content("https://example.com"))
    );
}

#[test]
fn identical_reads_give_one_entry() {
    let (mut state, mut history) = fresh();
    assert!(notify(&mut state, &mut history, 1_000, "same").is_some());
    assert!(notify(&mut state, &mut history, 2_000, "same").is_none());
    assert!(notify(&mut state, &mut history, 9_000, "same").is_none());
    assert_eq!(history.len(), 1);
    assert_eq!(state.last_accepted_ms, Some(1_000));
}

#[test]
fn only_the_last_capture_counts_as_a_duplicate() {
    let (mut state, mut history) = fresh();
    assert!(notify(&mut state, &mut history, 1_000, "a").is_some());
    assert!(notify(&mut state, &mut history, 2_000, "b").is_some());
    assert!(notify(&mut state, &mut history, 3_000, "a").is_some());
    let contents: Vec<String> = history.list().iter().map(|e| e.content.clone()).collect();
    assert_eq!(contents, vec!["a", "b", "a"]);
}

#[test]
fn changes_within_the_debounce_time_give_one_entry() {
    let (mut state, mut history) = fresh();
    assert!(notify(&mut state, &mut history, 1_000, "first").is_some());
    assert!(notify(&mut state, &mut history, 1_050, "second").is_none());
    assert!(notify(&mut state, &mut history, 1_099, "third").is_none());
    assert_eq!(history.len(), 1);
    assert!(notify(&mut state, &mut history, 1_100, "fourth").is_some());
    assert_eq!(history.len(), 2);
}

#[test]
fn debounce_counts_from_the_last_capture() {
    let (mut state, mut history) = fresh();
    assert!(notify(&mut state, &mut history, 1_000, "first").is_some());
    // An ignored notification does not move the time of the last capture.
    assert!(notify(&mut state, &mut history, 1_090, "second").is_none());
    assert!(notify(&mut state, &mut history, 1_120, "second").is_some());
}

#[test]
fn a_clock_that_went_back_counts_as_no_time_passed() {
    let (mut state, mut history) = fresh();
    assert!(notify(&mut state, &mut history, 1_000, "first").is_some());
    assert!(notify(&mut state, &mut history, 500, "second").is_none());
}

#[test]
fn suppressed_notifications_are_ignored() {
    let (mut state, mut history) = fresh();
    let captured = handle_clipboard_update(
        &mut state,
        &mut history,
        true,
        1_000,
        Some("text".to_string()),
        "editor".to_string(),
    );
    assert!(captured.is_none());
    assert_eq!(history.len(), 0);
    assert_eq!(state, MonitorState::new());
}

#[test]
fn absent_and_empty_text_is_ignored() {
    let (mut state, mut history) = fresh();
    assert!(handle_clipboard_update(
        &mut state,
        &mut history,
        false,
        1_000,
        None,
        "editor".to_string()
    )
    .is_none());
    assert!(notify(&mut state, &mut history, 2_000, "").is_none());
    assert_eq!(history.len(), 0);
    assert_eq!(state, MonitorState::new());
    assert!(notify(&mut state, &mut history, 2_001, " ").is_some());
}

#[test]
fn text_over_the_size_limit_is_ignored() {
    let (mut state, mut history) = fresh();
    let too_large = "a".repeat(1_000_001);
    assert_eq!(state.assess(false, 1_000, Some(&too_large)), Verdict::TooLarge);
    assert!(notify(&mut state, &mut history, 1_000, &too_large).is_none());
    assert_eq!(history.len(), 0);
    // The limit is in bytes: 500,001 characters of two bytes are too many.
    let wide = "é".repeat(500_001);
    assert_eq!(state.assess(false, 1_000, Some(&wide)), Verdict::TooLarge);
}

#[test]
fn text_at_the_size_limit_is_captured() {
    let (mut state, mut history) = fresh();
    let at_limit = "a".repeat(1_000_000);
    let captured = notify(&mut state, &mut history, 1_000, &at_limit).unwrap();
    assert_eq!(captured.char_count, 1_000_000);
    assert_eq!(captured.preview.len(), 203);
}

#[test]
fn verdicts_follow_the_order_of_the_checks() {
    let mut state = MonitorState::new();
    assert_eq!(state.assess(false, 0, Some("x")), Verdict::Accepted);
    assert_eq!(state.assess(true, 0, Some("x")), Verdict::Suppressed);
    assert_eq!(state.assess(false, 0, None), Verdict::Empty);
    state.last_accepted_ms = Some(1_000);
    state.last_hash = Some(ClipboardEntry::hash_content("x"));
    assert_eq!(state.assess(true, 1_010, None), Verdict::Suppressed);
    assert_eq!(state.assess(false, 1_010, None), Verdict::Debounced);
    assert_eq!(state.assess(false, 1_010, Some("x")), Verdict::Debounced);
    assert_eq!(state.assess(false, 2_000, Some("")), Verdict::Empty);
    assert_eq!(state.assess(false, 2_000, Some("x")), Verdict::Duplicate);
    assert_eq!(state.assess(false, 2_000, Some("y")), Verdict::Accepted);
    assert!(!state.admits(false, 1_099));
    assert!(state.admits(false, 1_100));
    assert!(!state.admits(true, 5_000));
}
