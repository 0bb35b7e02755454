//! What the clipboard monitor does with one change notification.

use vstd::prelude::*;
use vstd::string::StringSliceAdditionalSpecFns;
use vstd::utf8::encode_utf8;
use crate::clipboard_history::classifier::{classify, kind_of};
use crate::clipboard_history::entry::{
    content_hash, fresh_entry, is_hyphenated_id, ClipboardEntry, ContentType,
};
use crate::clipboard_history::ClipboardHistoryState;

verus! {

/// The shortest time, in milliseconds, between two captures.
pub const DEBOUNCE_MS: u64 = 100;

/// The most bytes a captured text may have.
pub const MAX_CONTENT_BYTES: usize = 1_000_000;

/// What became of a change notification.
#[derive(Debug, Clone, Copy, PartialEq, Eq, Structural)]
pub enum Verdict {
    /// A write of the injector's own was in progress.
    Suppressed,
    /// The last capture was less than the debounce time ago.
    Debounced,
    /// The clipboard held no text, or an empty one.
    Empty,
    /// The text was over the size limit.
    TooLarge,
    /// The text was that of the last capture.
    Duplicate,
    /// The content was an image.
    Image,
    /// The text is captured.
    Accepted,
}

/// What the monitor remembers of the last capture.
#[derive(Debug, Clone, Copy, PartialEq, Eq, Structural)]
pub struct MonitorState {
    /// The content hash of the last capture, if there was one.
    pub last_hash: Option<u64>,
    /// The monotonic time of the last capture in milliseconds, if there
    /// was one.
    pub last_accepted_ms: Option<u64>,
}

/// The time since the last capture, none where the clock went back.
pub open spec fn elapsed_ms(last_ms: u64, now_ms: u64) -> int {
    if now_ms >= last_ms {
        now_ms - last_ms
    } else {
        0
    }
}

/// Whether a notification at `now_ms` comes too soon after the last
/// capture.
pub open spec fn too_soon(state: MonitorState, now_ms: u64) -> bool {
    state.last_accepted_ms matches Some(last_ms) && elapsed_ms(last_ms, now_ms) < DEBOUNCE_MS
}

/// Whether the monitor reads the clipboard on a notification at `now_ms`.
pub open spec fn admitted(state: MonitorState, suppressed: bool, now_ms: u64) -> bool {
    !suppressed && !too_soon(state, now_ms)
}

/// What becomes of a notification at `now_ms`, the clipboard then holding
/// `text`: the first of the checks that it fails, in their order, or that
/// it is captured.
pub open spec fn verdict_of(
    state: MonitorState,
    suppressed: bool,
    now_ms: u64,
    text: Option<Seq<char>>,
) -> Verdict {
    if suppressed {
        Verdict::Suppressed
    } else if too_soon(state, now_ms) {
        Verdict::Debounced
    } else if text is None || text->0.len() == 0 {
        Verdict::Empty
    } else if encode_utf8(text->0).len() > MAX_CONTENT_BYTES {
        Verdict::TooLarge
    } else if state.last_hash == Some(content_hash(text->0)) {
        Verdict::Duplicate
    } else if kind_of(text->0) == ContentType::Image {
        Verdict::Image
    } else {
        Verdict::Accepted
    }
}

/// What the monitor remembers once `text` was captured at `now_ms`.
pub open spec fn after_capture(now_ms: u64, text: Seq<char>) -> MonitorState {
    MonitorState { last_hash: Some(content_hash(text)), last_accepted_ms: Some(now_ms) }
}

/// An optional text as plain values.
pub open spec fn text_view(text: Option<&str>) -> Option<Seq<char>> {
    match text {
        Some(t) => Some(t@),
        None => None,
    }
}

impl MonitorState {
    /// The state before any capture.
    pub fn new() -> (state: MonitorState)
        ensures
            state == (MonitorState { last_hash: None, last_accepted_ms: None }),
    {
        MonitorState { last_hash: None, last_accepted_ms: None }
    }

    /// Whether the clipboard is to be read on a notification at `now_ms`.
    pub fn admits(&self, suppressed: bool, now_ms: u64) -> (go: bool)
        ensures
            go == admitted(*self, suppressed, now_ms),
    {
        if suppressed {
            return false;
        }
        match self.last_accepted_ms {
            Some(last_ms) => {
                let elapsed: u64 = if now_ms >= last_ms {
                    now_ms - last_ms
                } else {
                    0
                };
                elapsed >= DEBOUNCE_MS
            },
            None => true,
        }
    }

    /// What becomes of a notification at `now_ms`, the clipboard then
    /// holding `text`. The state is left as it is.
    pub fn assess(&self, suppressed: bool, now_ms: u64, text: Option<&str>) -> (verdict: Verdict)
        ensures
            verdict == verdict_of(*self, suppressed, now_ms, text_view(text)),
    {
        if suppressed {
            return Verdict::Suppressed;
        }
        if !self.admits(suppressed, now_ms) {
            return Verdict::Debounced;
        }
        let content = match text {
            Some(t) => t,
            None => {
                return Verdict::Empty;
            },
        };
        if content.is_empty() {
            return Verdict::Empty;
        }
        if content.as_bytes().len() > MAX_CONTENT_BYTES {
            return Verdict::TooLarge;
        }
        let hash = ClipboardEntry::hash_content(content);
        match self.last_hash {
            Some(last) => {
                if last == hash {
                    return Verdict::Duplicate;
                }
            },
            None => {},
        }
        match classify(content) {
            ContentType::Image => Verdict::Image,
            _ => Verdict::Accepted,
        }
    }
}

/// Handles one change notification at `now_ms`, the clipboard then holding
/// `text` and `source_app` being in front. Where the text is captured, its
/// entry goes to the front of `history`, the state remembers it, and a copy
/// of the entry comes back; else nothing changes.
pub fn handle_clipboard_update(
    state: &mut MonitorState,
    history: &mut ClipboardHistoryState,
    suppressed: bool,
    now_ms: u64,
    text: Option<String>,
    source_app: String,
) -> (captured: Option<ClipboardEntry>)
    ensures
        ({
            let content = match text {
                Some(t) => Some(t@),
                None => None,
            };
            let verdict = verdict_of(*old(state), suppressed, now_ms, content);
            if verdict == Verdict::Accepted {
                &&& captured is Some
                &&& captured->0@ == fresh_entry(
                    captured->0.id@,
                    captured->0.timestamp as int,
                    content->0,
                    kind_of(content->0),
                    source_app@,
                )
                &&& 0 < encode_utf8(content->0).len() <= MAX_CONTENT_BYTES
                &&& is_hyphenated_id(captured->0.id@)
                &&& final(history)@.len() == old(history)@.len() + 1
                &&& final(history)@[0]@ == captured->0@
                &&& final(history)@.skip(1) == old(history)@
                &&& *final(state) == after_capture(now_ms, content->0)
            } else {
                &&& captured is None
                &&& final(history)@ == old(history)@
                &&& *final(state) == *old(state)
            }
        }),
{
    let verdict = match &text {
        Some(t) => state.assess(suppressed, now_ms, Some(t.as_str())),
        None => state.assess(suppressed, now_ms, None),
    };
    if verdict != Verdict::Accepted {
        return None;
    }
    let content = match text {
        Some(t) => t,
        None => {
            return None;
        },
    };
    let hash = ClipboardEntry::hash_content(content.as_str());
    let kind = classify(content.as_str());
    let entry = ClipboardEntry::new(content, kind, source_app);
    let copy = entry.duplicate();
    state.last_hash = Some(hash);
    state.last_accepted_ms = Some(now_ms);
    history.record(entry);
    assert(history@.skip(1) =~= old(history)@);
    Some(copy)
}

/// A text that was just captured is not captured again while it is the
/// last capture, whenever its next notification comes.
pub proof fn lemma_repeated_text_is_ignored(
    state: MonitorState,
    first_ms: u64,
    later_ms: u64,
    suppressed: bool,
    text: Seq<char>,
)
    requires
        verdict_of(state, false, first_ms, Some(text)) == Verdict::Accepted,
    ensures
        verdict_of(after_capture(first_ms, text), suppressed, later_ms, Some(text))
            != Verdict::Accepted,
{
}

/// Nothing is captured within the debounce time after a capture, whatever
/// the clipboard then holds.
pub proof fn lemma_change_within_debounce_is_ignored(
    state: MonitorState,
    first_ms: u64,
    later_ms: u64,
    suppressed: bool,
    first: Seq<char>,
    later: Option<Seq<char>>,
)
    requires
        verdict_of(state, false, first_ms, Some(first)) == Verdict::Accepted,
        later_ms < first_ms + DEBOUNCE_MS,
    ensures
        verdict_of(after_capture(first_ms, first), suppressed, later_ms, later)
            != Verdict::Accepted,
        !admitted(after_capture(first_ms, first), suppressed, later_ms),
{
}

} // verus!
