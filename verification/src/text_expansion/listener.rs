//! What the key listener does with one key press.

use vstd::prelude::*;
use crate::text::chars_of;
use crate::text_expansion::buffer::{pushed, pushed_all, KeyBuffer};
use crate::text_expansion::{first_match, Pair, TriggerMap};

verus! {

/// The capacity of the listener's key buffer.
pub const BUFFER_CAPACITY: usize = 64;

/// A key press, as far as the listener tells keys apart.
#[derive(Debug, Clone, PartialEq, Eq)]
pub enum KeyInput {
    Backspace,
    Enter,
    Space,
    Tab,
    /// Any other key, with the characters it produced.
    Text(String),
}

/// A detected trigger: how many typed characters are to be erased, and
/// the template to put in their place.
#[derive(Debug, Clone, PartialEq, Eq)]
pub struct Expansion {
    pub erase_count: usize,
    pub template: String,
}

/// A key press as plain values.
pub enum KeyView {
    Backspace,
    Enter,
    Space,
    Tab,
    Text(Seq<char>),
}

impl View for KeyInput {
    type V = KeyView;

    open spec fn view(&self) -> KeyView {
        match self {
            KeyInput::Backspace => KeyView::Backspace,
            KeyInput::Enter => KeyView::Enter,
            KeyInput::Space => KeyView::Space,
            KeyInput::Tab => KeyView::Tab,
            KeyInput::Text(produced) => KeyView::Text(produced@),
        }
    }
}

/// What the buffer holds once the key went in, before any lookup.
pub open spec fn typed_into(held: Seq<char>, capacity: nat, key: KeyView) -> Seq<char> {
    match key {
        KeyView::Backspace => held.take(
            if held.len() > 0 {
                held.len() - 1
            } else {
                0
            },
        ),
        KeyView::Enter => held,
        KeyView::Space => pushed(held, capacity, ' '),
        KeyView::Tab => held,
        KeyView::Text(produced) => pushed_all(held, capacity, produced),
    }
}

/// Whether the key ends a word, so that the buffer starts anew behind it.
pub open spec fn resets_buffer(key: KeyView) -> bool {
    key is Enter || key is Space || key is Tab
}

/// What the buffer holds when the key press is dealt with: nothing behind
/// a match or a key that ends a word, else what went in.
pub open spec fn held_after(pairs: Seq<Pair>, held: Seq<char>, capacity: nat, key: KeyView) -> Seq<char> {
    let typed = typed_into(held, capacity, key);
    if key is Backspace {
        typed
    } else if first_match(pairs, typed) < pairs.len() || resets_buffer(key) {
        Seq::empty()
    } else {
        typed
    }
}

/// The index of the trigger that the key press completes, if any. A
/// backspace completes none.
pub open spec fn completed(pairs: Seq<Pair>, held: Seq<char>, capacity: nat, key: KeyView) -> Option<int> {
    let at = first_match(pairs, typed_into(held, capacity, key));
    if key is Backspace || at >= pairs.len() {
        None
    } else {
        Some(at)
    }
}

/// Deals with one key press: the key goes into `buffer`, and where what
/// is held then ends in a trigger, the expansion to carry out comes back.
pub fn on_key_press(buffer: &mut KeyBuffer, triggers: &TriggerMap, key: &KeyInput) -> (expansion:
    Option<Expansion>)
    ensures
        final(buffer).capacity() == old(buffer).capacity(),
        final(buffer)@ == held_after(triggers@, old(buffer)@, old(buffer).capacity(), key@),
        match completed(triggers@, old(buffer)@, old(buffer).capacity(), key@) {
            Some(at) => expansion is Some && expansion->0.erase_count == triggers@[at].0.len()
                && expansion->0.template@ == triggers@[at].1,
            None => expansion is None,
        },
{
    match key {
        KeyInput::Backspace => {
            buffer.backspace();
            return None;
        },
        KeyInput::Space => {
            buffer.push(' ');
        },
        KeyInput::Enter => {},
        KeyInput::Tab => {},
        KeyInput::Text(produced) => {
            let chars = chars_of(produced.as_str());
            let mut i: usize = 0;
            while i < chars.len()
                invariant
                    i <= chars@.len(),
                    buffer.capacity() == old(buffer).capacity(),
                    buffer@ == pushed_all(old(buffer)@, old(buffer).capacity(), chars@.take(i as int)),
                decreases chars@.len() - i,
            {
                buffer.push(chars[i]);
                assert(chars@.take(i + 1).drop_last() =~= chars@.take(i as int));
                i += 1;
            }
            assert(chars@.take(chars@.len() as int) =~= chars@);
        },
    }
    let found = triggers.lookup(buffer);
    let resets = match key {
        KeyInput::Text(_) => false,
        _ => true,
    };
    match found {
        Some((erase_count, template)) => {
            buffer.clear();
            Some(Expansion { erase_count, template })
        },
        None => {
            if resets {
                buffer.clear();
            }
            None
        },
    }
}

} // verus!
