use commandbar_core::text_expansion::injector::{InjectAction, InjectEvent, Injection};

fn run(erase_count: usize, content: &str, held: Option<&str>, fail_at: Option<usize>) -> Vec<InjectAction> {
    let (mut injection, first) = Injection::begin(erase_count, content.to_string());
    let mut actions = vec![first];
    while !injection.is_finished() {
        assert!(actions.len() < 1_000);
        let last = actions.last().unwrap().clone();
        let event = if fail_at == Some(actions.len() - 1) {
            InjectEvent::Failed
        } else if last == InjectAction::ReadClipboard {
            InjectEvent::ClipboardRead(held.map(|s| s.to_string()))
        } else {
            InjectEvent::Done
        };
        actions.push(injection.advance(event));
    }
    actions
}

fn write(s: &str) -> InjectAction {
    InjectAction::WriteClipboard(s.to_string())
}

#[test]
fn injection_follows_the_protocol() {
    let actions = run(2, "snippet", Some("before"), None);
    assert_eq!(
        actions,
        vec![
            InjectAction::Wait(30),
            InjectAction::ReadClipboard,
            InjectAction::PressBackspace,
            InjectAction::Wait(5),
            InjectAction::PressBackspace,
            InjectAction::Wait(5),
            InjectAction::BeginSuppressedWrite,
            write("snippet"),
            InjectAction::Wait(50),
            InjectAction::PressModifier,
            InjectAction::ClickPasteKey,
            InjectAction::ReleaseModifier,
            InjectAction::Wait(150),
            write("before"),
            InjectAction::EndSuppressedWrite,
            InjectAction::Finish,
        ]
    );
}

#[test]
fn nothing_is_erased_where_nothing_was_typed() {
    let actions = run(0, "snippet", Some("before"), None);
    assert_eq!(actions[1], InjectAction::ReadClipboard);
    assert_eq!(actions[2], InjectAction::BeginSuppressedWrite);
    assert!(!actions.contains(&InjectAction::PressBackspace));
    assert_eq!(actions.len(), 12);
}

#[test]
fn empty_clipboard_is_not_restored() {
    let actions = run(1, "snippet", None, None);
    assert_eq!(
        actions[actions.len() - 4..],
        [
            InjectAction::ReleaseModifier,
            InjectAction::Wait(150),
            InjectAction::EndSuppressedWrite,
            InjectAction::Finish,
        ]
    );
    assert_eq!(actions.iter().filter(|a| matches!(a, InjectAction::WriteClipboard(_))).count(), 1);
}

#[test]
fn failed_backspace_ends_the_injection() {
    let actions = run(3, "snippet", Some("before"), Some(4));
    assert_eq!(
        actions,
        vec![
            InjectAction::Wait(30),
            InjectAction::ReadClipboard,
            InjectAction::PressBackspace,
            InjectAction::Wait(5),
            InjectAction::PressBackspace,
            InjectAction::Finish,
        ]
    );
}

#[test]
fn failure_under_suppression_releases_the_monitor() {
    // With one backspace the paste chord starts at index 7.
    for fail_at in 5..=9 {
        let actions = run(1, "snippet", Some("before"), Some(fail_at));
        let n = actions.len();
        assert_eq!(actions[n - 1], InjectAction::Finish, "{}", fail_at);
        if actions.contains(&InjectAction::BeginSuppressedWrite) {
            assert_eq!(actions[n - 2], InjectAction::EndSuppressedWrite, "{}", fail_at);
        }
    }
    let actions = run(1, "snippet", Some("before"), Some(7));
    assert_eq!(
        actions[4..],
        [
            InjectAction::BeginSuppressedWrite,
            write("snippet"),
            InjectAction::Wait(50),
            InjectAction::PressModifier,
            InjectAction::EndSuppressedWrite,
            InjectAction::Finish,
        ]
    );
}

#[test]
fn suppression_spans_the_clipboard_writes() {
    let (mut injection, _) = Injection::begin(0, "snippet".to_string());
    let mut held_off = Vec::new();
    let mut actions = Vec::new();
    let mut event = InjectEvent::Done;
    while !injection.is_finished() {
        let action = injection.advance(event);
        event = if action == InjectAction::ReadClipboard {
            InjectEvent::ClipboardRead(Some("before".to_string()))
        } else {
            InjectEvent::Done
        };
        held_off.push(injection.is_suppressing());
        actions.push(action);
    }
    for (action, suppressing) in actions.iter().zip(held_off.iter()) {
        if matches!(action, InjectAction::WriteClipboard(_)) {
            assert!(suppressing);
        }
        if matches!(
            action,
            InjectAction::Finish | InjectAction::EndSuppressedWrite | InjectAction::ReadClipboard
        ) {
            assert!(!suppressing);
        }
    }
    assert_eq!(held_off.iter().filter(|s| **s).count(), 7);
}

#[test]
fn finished_injection_stays_finished() {
    let (mut injection, _) = Injection::begin(0, "s".to_string());
    while !injection.is_finished() {
        injection.advance(InjectEvent::Done);
    }
    assert_eq!(injection.advance(InjectEvent::Done), InjectAction::Finish);
    assert_eq!(injection.advance(InjectEvent::Failed), InjectAction::Finish);
    assert!(injection.is_finished());
}
