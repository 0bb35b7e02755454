use commandbar_core::text_expansion::buffer::KeyBuffer;

fn typed(buffer: &mut KeyBuffer, text: &str) {
    for ch in text.chars() {
        buffer.push(ch);
    }
}

#[test]
fn buffer_keeps_only_the_most_recent_characters() {
    let mut buffer = KeyBuffer::new(4);
    typed(&mut buffer, "abcdef");
    assert_eq!(buffer.len(), 4);
    assert!(buffer.ends_with("cdef"));
    assert!(!buffer.ends_with("bcdef"));
    assert!(!buffer.ends_with("abcd"));
}

#[test]
fn buffer_below_capacity_keeps_everything() {
    let mut buffer = KeyBuffer::new(64);
    typed(&mut buffer, "hello");
    assert_eq!(buffer.len(), 5);
    assert!(buffer.ends_with("hello"));
    assert!(buffer.ends_with("llo"));
    assert!(buffer.ends_with(""));
}

#[test]
fn ends_with_needs_the_exact_tail() {
    let mut buffer = KeyBuffer::new(64);
    typed(&mut buffer, "see ;sig");
    assert!(buffer.ends_with(";sig"));
    assert!(!buffer.ends_with(";si"));
    assert!(!buffer.ends_with("sig;"));
    assert!(!buffer.ends_with("a longer trigger than the buffer"));
}

#[test]
fn ends_with_compares_characters_not_bytes() {
    let mut buffer = KeyBuffer::new(3);
    typed(&mut buffer, "aé✓z");
    assert_eq!(buffer.len(), 3);
    assert!(buffer.ends_with("é✓z"));
    assert!(!buffer.ends_with("aé✓z"));
}

#[test]
fn backspace_removes_the_last_character() {
    let mut buffer = KeyBuffer::new(8);
    typed(&mut buffer, "abc");
    buffer.backspace();
    assert_eq!(buffer.len(), 2);
    assert!(buffer.ends_with("ab"));
    buffer.backspace();
    buffer.backspace();
    buffer.backspace();
    assert_eq!(buffer.len(), 0);
}

#[test]
fn clear_empties_the_buffer() {
    let mut buffer = KeyBuffer::new(8);
    typed(&mut buffer, "abc");
    buffer.clear();
    assert_eq!(buffer.len(), 0);
    assert!(!buffer.ends_with("c"));
}

#[test]
fn buffer_of_no_capacity_stays_empty() {
    let mut buffer = KeyBuffer::new(0);
    typed(&mut buffer, "abc");
    assert_eq!(buffer.len(), 0);
}
