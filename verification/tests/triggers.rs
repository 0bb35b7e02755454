use commandbar_core::text_expansion::buffer::KeyBuffer;
use commandbar_core::text_expansion::listener::{
    on_key_press, Expansion, KeyInput, BUFFER_CAPACITY,
};
use commandbar_core::text_expansion::TriggerMap;

fn pairs(given: &[(&str, &str)]) -> Vec<(String, String)> {
    given
        .iter()
        .map(|(t, s)| (t.to_string(), s.to_string()))
        .collect()
}

fn index(given: &[(&str, &str)]) -> TriggerMap {
    let mut map = TriggerMap::new();
    map.sync(pairs(given));
    map
}

fn buffer_with(text: &str) -> KeyBuffer {
    let mut buffer = KeyBuffer::new(BUFFER_CAPACITY);
    for ch in text.chars() {
        buffer.push(ch);
    }
    buffer
}

fn text(s: &str) -> KeyInput {
    KeyInput::Text(s.to_string())
}

#[test]
fn new_index_is_empty() {
    let map = TriggerMap::new();
    assert_eq!(map.len(), 0);
    assert_eq!(map.lookup(&buffer_with("anything")), None);
}

#[test]
fn sync_replaces_the_whole_index() {
    let mut map = index(&[(";a", "alpha"), (";b", "beta")]);
    assert_eq!(map.len(), 2);
    map.sync(pairs(&[(";c", "gamma")]));
    assert_eq!(map.len(), 1);
    assert_eq!(map.lookup(&buffer_with("x;a")), None);
    assert_eq!(map.lookup(&buffer_with("x;c")), Some((2, "gamma".to_string())));
    map.sync(Vec::new());
    assert_eq!(map.len(), 0);
}

#[test]
fn sync_keeps_the_later_template_of_one_trigger() {
    let map = index(&[(";a", "first"), (";b", "beta"), (";a", "second")]);
    assert_eq!(map.len(), 2);
    assert_eq!(map.lookup(&buffer_with(";a")), Some((2, "second".to_string())));
    assert_eq!(map.lookup(&buffer_with(";b")), Some((2, "beta".to_string())));
}

#[test]
fn lookup_matches_the_tail_of_the_buffer() {
    let map = index(&[(";sig", "Kind regards")]);
    assert_eq!(
        map.lookup(&buffer_with("hello ;sig")),
        Some((4, "Kind regards".to_string()))
    );
    assert_eq!(map.lookup(&buffer_with(";sig ")), None);
    assert_eq!(map.lookup(&buffer_with("sig")), None);
    assert_eq!(map.lookup(&buffer_with("")), None);
}

#[test]
fn lookup_counts_the_trigger_in_characters() {
    let map = index(&[("é✓", "done")]);
    assert_eq!(map.lookup(&buffer_with("aé✓")), Some((2, "done".to_string())));
}

#[test]
fn listener_buffer_holds_64_characters() {
    assert_eq!(BUFFER_CAPACITY, 64);
}

#[test]
fn typed_trigger_is_expanded() {
    let map = index(&[(";sig", "Kind regards")]);
    let mut buffer = KeyBuffer::new(BUFFER_CAPACITY);
    assert_eq!(on_key_press(&mut buffer, &map, &text(";")), None);
    assert_eq!(on_key_press(&mut buffer, &map, &text("s")), None);
    assert_eq!(on_key_press(&mut buffer, &map, &text("i")), None);
    assert_eq!(buffer.len(), 3);
    assert_eq!(
        on_key_press(&mut buffer, &map, &text("g")),
        Some(Expansion { erase_count: 4, template: "Kind regards".to_string() })
    );
    assert_eq!(buffer.len(), 0);
}

#[test]
fn composed_input_goes_in_whole() {
    let map = index(&[("né", "born")]);
    let mut buffer = KeyBuffer::new(BUFFER_CAPACITY);
    assert_eq!(
        on_key_press(&mut buffer, &map, &text("xné")),
        Some(Expansion { erase_count: 2, template: "born".to_string() })
    );
    assert_eq!(buffer.len(), 0);
}

#[test]
fn key_without_characters_still_looks_up() {
    let map = index(&[("", "always")]);
    let mut buffer = buffer_with("abc");
    assert_eq!(
        on_key_press(&mut buffer, &map, &text("")),
        Some(Expansion { erase_count: 0, template: "always".to_string() })
    );
    let none = index(&[(";x", "y")]);
    let mut buffer = buffer_with("abc");
    assert_eq!(on_key_press(&mut buffer, &none, &text("")), None);
    assert_eq!(buffer.len(), 3);
}

#[test]
fn word_ending_keys_reset_the_buffer() {
    let map = index(&[(";sig", "Kind regards")]);
    for key in [KeyInput::Enter, KeyInput::Space, KeyInput::Tab] {
        let mut buffer = buffer_with("hello");
        assert_eq!(on_key_press(&mut buffer, &map, &key), None);
        assert_eq!(buffer.len(), 0, "{:?}", key);
    }
}

#[test]
fn word_ending_keys_look_up_before_they_reset() {
    let map = index(&[("brb", "be right back")]);
    for key in [KeyInput::Enter, KeyInput::Tab] {
        let mut buffer = buffer_with("brb");
        assert_eq!(
            on_key_press(&mut buffer, &map, &key),
            Some(Expansion { erase_count: 3, template: "be right back".to_string() })
        );
        assert_eq!(buffer.len(), 0);
    }
    // A space goes into the buffer first, so "brb" no longer ends it.
    let mut buffer = buffer_with("brb");
    assert_eq!(on_key_press(&mut buffer, &map, &KeyInput::Space), None);
    assert_eq!(buffer.len(), 0);
}

#[test]
fn space_can_complete_a_trigger() {
    let map = index(&[("omw ", "on my way")]);
    let mut buffer = buffer_with("omw");
    assert_eq!(
        on_key_press(&mut buffer, &map, &KeyInput::Space),
        Some(Expansion { erase_count: 4, template: "on my way".to_string() })
    );
    assert_eq!(buffer.len(), 0);
}

#[test]
fn backspace_takes_back_a_character() {
    let map = index(&[("ab", "x")]);
    let mut buffer = buffer_with("abc");
    assert_eq!(on_key_press(&mut buffer, &map, &KeyInput::Backspace), None);
    // "ab" now ends the buffer, but a backspace looks nothing up.
    assert_eq!(buffer.len(), 2);
    assert!(buffer.ends_with("ab"));
    let mut empty = KeyBuffer::new(BUFFER_CAPACITY);
    assert_eq!(on_key_press(&mut empty, &map, &KeyInput::Backspace), None);
    assert_eq!(empty.len(), 0);
}

#[test]
fn unmatched_text_accumulates_up_to_capacity() {
    let map = index(&[(";sig", "Kind regards")]);
    let mut buffer = KeyBuffer::new(BUFFER_CAPACITY);
    for _ in 0..100 {
        assert_eq!(on_key_press(&mut buffer, &map, &text("ab")), None);
    }
    assert_eq!(buffer.len(), 64);
    assert!(buffer.ends_with(&"ab".repeat(32)));
}
