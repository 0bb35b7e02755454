//! Bounded record of the most recently typed characters.

use vstd::prelude::*;
use crate::text::chars_of;

verus! {

/// The last `n` items of `s`, or all of `s` where it has fewer.
pub open spec fn most_recent(s: Seq<char>, n: nat) -> Seq<char> {
    if s.len() <= n {
        s
    } else {
        s.skip(s.len() - n)
    }
}

/// What a buffer of capacity `capacity` holds after `ch` is typed into `held`:
/// the most recent `capacity` characters, the new one last.
pub open spec fn pushed(held: Seq<char>, capacity: nat, ch: char) -> Seq<char> {
    most_recent(held.push(ch), capacity)
}

/// What the buffer holds after every character of `typed` went in, in order.
pub open spec fn pushed_all(held: Seq<char>, capacity: nat, typed: Seq<char>) -> Seq<char>
    decreases typed.len(),
{
    if typed.len() == 0 {
        held
    } else {
        pushed(pushed_all(held, capacity, typed.drop_last()), capacity, typed.last())
    }
}

/// Whether `held` ends in exactly the characters of `trigger`.
pub open spec fn has_suffix(held: Seq<char>, trigger: Seq<char>) -> bool {
    trigger.len() <= held.len() && held.skip(held.len() - trigger.len()) == trigger
}

/// A fixed-capacity buffer that accumulates the most recent keystrokes.
pub struct KeyBuffer {
    buf: Vec<char>,
    capacity: usize,
}

impl KeyBuffer {
    /// The characters held, oldest first.
    pub closed spec fn view(&self) -> Seq<char> {
        self.buf@
    }

    /// The capacity the buffer was made with.
    pub closed spec fn capacity(&self) -> nat {
        self.capacity as nat
    }

    pub fn new(capacity: usize) -> (b: KeyBuffer)
        ensures
            b@ == Seq::<char>::empty(),
            b.capacity() == capacity,
    {
        KeyBuffer { buf: Vec::new(), capacity }
    }

    /// The number of characters held.
    pub fn len(&self) -> (n: usize)
        ensures
            n == self@.len(),
    {
        self.buf.len()
    }

    pub fn push(&mut self, ch: char)
        ensures
            final(self)@ == pushed(old(self)@, old(self).capacity(), ch),
            final(self).capacity() == old(self).capacity(),
            final(self)@.len() <= final(self).capacity(),
    {
        self.buf.push(ch);
        let ghost full = self.buf@;
        while self.buf.len() > self.capacity
            invariant
                self.capacity == old(self).capacity,
                full == old(self).buf@.push(ch),
                self.buf@.len() <= full.len(),
                self.buf@.len() == full.len() || self.buf@.len() >= self.capacity,
                self.buf@ == full.skip(full.len() - self.buf@.len()),
            decreases self.buf@.len(),
        {
            self.buf.remove(0);
            assert(self.buf@ =~= full.skip(full.len() - self.buf@.len()));
        }
    }

    pub fn ends_with(&self, trigger: &str) -> (b: bool)
        ensures
            b == has_suffix(self@, trigger@),
    {
        let trigger_chars = chars_of(trigger);
        if trigger_chars.len() > self.buf.len() {
            return false;
        }
        let start: usize = self.buf.len() - trigger_chars.len();
        let mut i: usize = 0;
        while i < trigger_chars.len()
            invariant
                trigger_chars@ == trigger@,
                start + trigger_chars.len() == self.buf.len(),
                i <= trigger_chars.len(),
                forall|k: int| 0 <= k < i ==> self.buf@[start + k] == trigger_chars@[k],
            decreases trigger_chars.len() - i,
        {
            if self.buf[start + i] != trigger_chars[i] {
                assert(self.buf@.skip(start as int)[i as int] != trigger_chars@[i as int]);
                return false;
            }
            i += 1;
        }
        assert(self.buf@.skip(start as int) =~= trigger_chars@);
        true
    }

    pub fn clear(&mut self)
        ensures
            final(self)@ == Seq::<char>::empty(),
            final(self).capacity() == old(self).capacity(),
    {
        self.buf.clear();
    }

    pub fn backspace(&mut self)
        ensures
            final(self)@ == old(self)@.take(
                if old(self)@.len() > 0 {
                    old(self)@.len() - 1
                } else {
                    0
                },
            ),
            final(self).capacity() == old(self).capacity(),
    {
        self.buf.pop();
    }
}

/// Typing a run of characters into a buffer leaves exactly the most recent
/// `capacity` characters of what was held followed by what was typed. It
/// holds of every buffer once a character went in, and of one that was within
/// its capacity before.
pub proof fn lemma_push_keeps_most_recent(held: Seq<char>, capacity: nat, typed: Seq<char>)
    requires
        held.len() <= capacity || typed.len() > 0,
    ensures
        pushed_all(held, capacity, typed) == most_recent(held + typed, capacity),
        pushed_all(held, capacity, typed).len() <= capacity,
    decreases typed.len(),
{
    if typed.len() == 0 {
        assert(held + typed =~= held);
    } else {
        let before = typed.drop_last();
        let prior = pushed_all(held, capacity, before);
        assert(held + typed =~= (held + before).push(typed.last()));
        if before.len() == 0 {
            assert(held + before =~= held);
            assert(prior == held);
        } else {
            lemma_push_keeps_most_recent(held, capacity, before);
        }
        assert(pushed(prior, capacity, typed.last()) =~= most_recent(held + typed, capacity));
    }
}

/// A buffer ends with a trigger exactly when the trigger is no longer than
/// what is held and each of its characters equals the one at the same
/// distance from the buffer's end.
pub proof fn lemma_suffix_is_tail_equality(held: Seq<char>, trigger: Seq<char>)
    ensures
        has_suffix(held, trigger) <==> (trigger.len() <= held.len() && forall|k: int|
            0 <= k < trigger.len() ==> held[held.len() - trigger.len() + k] == trigger[k]),
{
    if trigger.len() <= held.len() {
        let tail = held.skip(held.len() - trigger.len());
        if has_suffix(held, trigger) {
            assert forall|k: int| 0 <= k < trigger.len() implies held[held.len() - trigger.len()
                + k] == trigger[k] by {
                assert(tail[k] == trigger[k]);
            }
        }
        if forall|k: int|
            0 <= k < trigger.len() ==> held[held.len() - trigger.len() + k] == trigger[k] {
            assert(tail =~= trigger);
        }
    }
}

} // verus!
