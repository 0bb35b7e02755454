//! Capture, classification and bounded history of clipboard contents.

pub mod classifier;
pub mod entry;
pub mod monitor;
pub mod source_app;
pub mod storage;

use vstd::prelude::*;
use crate::clipboard_history::entry::ClipboardEntry;
use crate::text::same_text;

verus! {

/// The capture history: its entries, the newest first.
pub struct ClipboardHistoryState(pub Vec<ClipboardEntry>);

/// `entries` without those whose identifier is `id`, the others in their
/// order.
pub open spec fn without_id(entries: Seq<ClipboardEntry>, id: Seq<char>) -> Seq<ClipboardEntry>
    decreases entries.len(),
{
    if entries.len() == 0 {
        Seq::empty()
    } else if entries[0].id@ == id {
        without_id(entries.skip(1), id)
    } else {
        seq![entries[0]] + without_id(entries.skip(1), id)
    }
}

/// The index of the first entry whose identifier is `id`, or the length of
/// `entries` where none has it.
pub open spec fn first_with_id(entries: Seq<ClipboardEntry>, id: Seq<char>) -> int
    decreases entries.len(),
{
    if entries.len() == 0 {
        0
    } else if entries[0].id@ == id {
        0
    } else {
        1 + first_with_id(entries.skip(1), id)
    }
}

/// `entry` with its pin set where it was clear, and cleared where it was
/// set.
pub open spec fn with_pin_toggled(entry: ClipboardEntry) -> ClipboardEntry {
    ClipboardEntry { pinned: !entry.pinned, ..entry }
}

/// `entries` with the pin of the first entry under `id` toggled, or
/// `entries` itself where none has that identifier.
pub open spec fn pin_toggled(entries: Seq<ClipboardEntry>, id: Seq<char>) -> Seq<ClipboardEntry> {
    let at = first_with_id(entries, id);
    if at < entries.len() {
        entries.update(at, with_pin_toggled(entries[at]))
    } else {
        entries
    }
}

impl ClipboardHistoryState {
    /// The entries held, the newest first.
    pub open spec fn view(&self) -> Seq<ClipboardEntry> {
        self.0@
    }

    /// A history that holds `entries`.
    pub fn new(entries: Vec<ClipboardEntry>) -> (h: ClipboardHistoryState)
        ensures
            h@ == entries@,
    {
        ClipboardHistoryState(entries)
    }

    /// The number of entries held.
    pub fn len(&self) -> (n: usize)
        ensures
            n == self@.len(),
    {
        self.0.len()
    }

    /// A copy of every entry, in order.
    pub fn list(&self) -> (out: Vec<ClipboardEntry>)
        ensures
            out@.len() == self@.len(),
            forall|i: int| 0 <= i < self@.len() ==> (#[trigger] out@[i])@ == self@[i]@,
    {
        let mut out: Vec<ClipboardEntry> = Vec::new();
        let mut i: usize = 0;
        while i < self.0.len()
            invariant
                i <= self.0@.len(),
                out@.len() == i,
                forall|j: int| 0 <= j < i ==> (#[trigger] out@[j])@ == self.0@[j]@,
            decreases self.0@.len() - i,
        {
            out.push(self.0[i].duplicate());
            i += 1;
        }
        out
    }

    /// Puts `entry` at the front, as the newest.
    pub fn record(&mut self, entry: ClipboardEntry)
        ensures
            final(self)@ == seq![entry] + old(self)@,
    {
        self.0.insert(0, entry);
        assert(self.0@ =~= seq![entry] + old(self).0@);
    }

    /// Removes every entry whose identifier is `id`.
    pub fn delete(&mut self, id: &str)
        ensures
            final(self)@ == without_id(old(self)@, id@),
    {
        let mut i: usize = 0;
        assert(self.0@.take(0) + without_id(self.0@.skip(0), id@) =~= without_id(self.0@, id@)) by {
            assert(self.0@.skip(0) =~= self.0@);
        }
        while i < self.0.len()
            invariant
                i <= self.0@.len(),
                self.0@.take(i as int) + without_id(self.0@.skip(i as int), id@) == without_id(
                    old(self).0@,
                    id@,
                ),
            decreases self.0@.len() - i,
        {
            let ghost current = self.0@;
            let ghost rest = current.skip(i as int);
            if same_text(self.0[i].id.as_str(), id) {
                self.0.remove(i);
                proof {
                    assert(rest[0] == current[i as int]);
                    assert(self.0@.take(i as int) =~= current.take(i as int));
                    assert(self.0@.skip(i as int) =~= rest.skip(1));
                }
            } else {
                proof {
                    assert(rest[0] == current[i as int]);
                    assert(current.skip(i + 1) =~= rest.skip(1));
                    assert(current.take(i + 1) + without_id(current.skip(i + 1), id@)
                        =~= current.take(i as int) + without_id(rest, id@));
                }
                i += 1;
            }
        }
        proof {
            assert(self.0@.skip(self.0@.len() as int) =~= Seq::<ClipboardEntry>::empty());
            assert(self.0@.take(self.0@.len() as int) =~= self.0@);
            assert(self.0@ + Seq::<ClipboardEntry>::empty() =~= self.0@);
        }
    }

    /// Removes every entry.
    pub fn clear(&mut self)
        ensures
            final(self)@ == Seq::<ClipboardEntry>::empty(),
    {
        self.0.clear();
    }

    /// Toggles the pin of the first entry whose identifier is `id`, and
    /// tells whether there was one.
    pub fn toggle_pin(&mut self, id: &str) -> (found: bool)
        ensures
            final(self)@ == pin_toggled(old(self)@, id@),
            found == (first_with_id(old(self)@, id@) < old(self)@.len()),
    {
        let mut i: usize = 0;
        assert(self.0@.skip(0) =~= self.0@);
        while i < self.0.len()
            invariant
                i <= self.0@.len(),
                self.0@ == old(self).0@,
                first_with_id(self.0@, id@) == i + first_with_id(self.0@.skip(i as int), id@),
            decreases self.0@.len() - i,
        {
            let ghost rest = self.0@.skip(i as int);
            assert(rest[0] == self.0@[i as int]);
            if same_text(self.0[i].id.as_str(), id) {
                let mut entry = self.0.remove(i);
                entry.pinned = !entry.pinned;
                self.0.insert(i, entry);
                assert(self.0@ =~= pin_toggled(old(self).0@, id@));
                return true;
            }
            assert(self.0@.skip(i + 1) =~= rest.skip(1));
            i += 1;
        }
        assert(self.0@.skip(self.0@.len() as int).len() == 0);
        false
    }
}

} // verus!
