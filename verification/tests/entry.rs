use commandbar_core::clipboard_history::entry::{
    count_words, make_preview, ClipboardEntry, ContentType,
};
use std::collections::hash_map::DefaultHasher;
use std::hash::{Hash, Hasher};

fn cs(s: &str) -> Vec<char> {
    s.chars().collect()
}

fn std_hash(content: &str) -> u64 {
    let mut hasher = DefaultHasher::new();
    content.hash(&mut hasher);
    hasher.finish()
}

fn looks_like_an_id(id: &str) -> bool {
    let chars: Vec<char> = id.chars().collect();
    chars.len() == 36
        && chars.iter().enumerate().all(|(i, c)| {
            if i == 8 || i == 13 || i == 18 || i == 23 {
                *c == '-'
            } else {
                c.is_ascii_digit() || ('a'..='f').contains(c)
            }
        })
}

#[test]
fn assembled_entry_holds_what_was_given() {
    let e = ClipboardEntry::assemble(
        "id-1".to_string(),
        1_700_000_000_123,
        "hello  wide\tworld\n".to_string(),
        ContentType::Text,
        "editor".to_string(),
    );
    assert_eq!(e.id, "id-1");
    assert_eq!(e.timestamp, 1_700_000_000_123);
    assert_eq!(e.content, "hello  wide\tworld\n");
    assert_eq!(e.content_type, ContentType::Text);
    assert_eq!(e.source_app, "editor");
    assert_eq!(e.word_count, 3);
    assert_eq!(e.char_count, 18);
    assert!(!e.pinned);
    assert_eq!(e.preview, "hello  wide\tworld\n");
    assert_eq!(e.content_hash, std_hash("hello  wide\tworld\n"));
}

#[test]
fn counts_are_in_characters_not_bytes() {
    let e = ClipboardEntry::assemble(
        "i".to_string(),
        0,
        "héllo wörld ✓".to_string(),
        ContentType::Text,
        "a".to_string(),
    );
    assert_eq!(e.char_count, 13);
    assert_eq!(e.word_count, 3);
}

#[test]
fn word_count_agrees_with_std() {
    let samples = [
        "",
        " ",
        "one",
        " one ",
        "one two",
        "one\n\ntwo\tthree",
        "a\u{00A0}b\u{3000}c",
        "  lead and trail  ",
    ];
    for s in samples {
        assert_eq!(count_words(&cs(s)), s.split_whitespace().count(), "{:?}", s);
    }
}

#[test]
fn short_content_is_its_own_preview() {
    let exactly: String = "x".repeat(200);
    assert_eq!(make_preview(&cs(&exactly)), exactly);
    assert_eq!(make_preview(&cs("")), "");
    assert_eq!(make_preview(&cs("short")), "short");
}

#[test]
fn long_content_is_cut_and_marked() {
    let long: String = "a".repeat(199) + "bcd";
    let preview = make_preview(&cs(&long));
    assert_eq!(preview, "a".repeat(199) + "b...");
    assert_eq!(preview.chars().count(), 203);
}

#[test]
fn preview_is_cut_by_characters() {
    let wide: String = "é".repeat(150);
    assert_eq!(make_preview(&cs(&wide)), wide);
    let wider: String = "é".repeat(201);
    assert_eq!(make_preview(&cs(&wider)), "é".repeat(200) + "...");
}

#[test]
fn hash_is_that_of_the_standard_hasher() {
    for s in ["", "a", "hello world", "héllo ✓", "line\nline"] {
        assert_eq!(ClipboardEntry::hash_content(s), std_hash(s), "{:?}", s);
    }
    assert_ne!(
        ClipboardEntry::hash_content("a"),
        ClipboardEntry::hash_content("b")
    );
}

#[test]
fn new_entry_gets_an_identifier_and_the_time() {
    let e = ClipboardEntry::new(
        "some text".to_string(),
        ContentType::Text,
        "app".to_string(),
    );
    assert!(looks_like_an_id(&e.id), "{:?}", e.id);
    assert!(e.timestamp > 1_600_000_000_000);
    assert_eq!(e.content, "some text");
    assert_eq!(e.word_count, 2);
    assert_eq!(e.char_count, 9);
    assert_eq!(e.preview, "some text");
    assert!(!e.pinned);
    assert_eq!(e.content_hash, ClipboardEntry::hash_content("some text"));
}

#[test]
fn new_entries_get_different_identifiers() {
    let a = ClipboardEntry::new("x".to_string(), ContentType::Text, "app".to_string());
    let b = ClipboardEntry::new("x".to_string(), ContentType::Text, "app".to_string());
    assert_ne!(a.id, b.id);
}

#[test]
fn duplicate_is_equal_field_by_field() {
    let mut e = ClipboardEntry::assemble(
        "id".to_string(),
        5,
        "content".to_string(),
        ContentType::Code,
        "app".to_string(),
    );
    e.pinned = true;
    let d = e.duplicate();
    assert_eq!(d.id, e.id);
    assert_eq!(d.content, e.content);
    assert_eq!(d.content_type, e.content_type);
    assert_eq!(d.source_app, e.source_app);
    assert_eq!(d.word_count, e.word_count);
    assert_eq!(d.char_count, e.char_count);
    assert_eq!(d.timestamp, e.timestamp);
    assert_eq!(d.pinned, e.pinned);
    assert_eq!(d.preview, e.preview);
    assert_eq!(d.content_hash, e.content_hash);
}
