//! One recorded clipboard capture and the values derived from its content.

use std::collections::hash_map::DefaultHasher;
use std::hash::Hasher;
use vstd::prelude::*;
use vstd::std_specs::hash::DefaultHasherAdditionalSpecFns;
use vstd::string::StringSliceAdditionalSpecFns;
use vstd::utf8::encode_utf8;
use crate::text::{append_chars, chars_of, is_space, is_space_char, string_of};

verus! {

/// How many characters of the content a preview shows.
pub const PREVIEW_CHARS: usize = 200;

/// The kind of content detected in a capture.
#[derive(Debug, Clone, Copy, PartialEq, Eq, Structural)]
pub enum ContentType {
    Text,
    Link,
    Email,
    Phone,
    Code,
    Path,
    Number,
    Json,
    Color,
    Image,
}

/// A single entry of the capture history.
#[derive(Debug, Clone)]
pub struct ClipboardEntry {
    pub id: String,
    pub content: String,
    pub content_type: ContentType,
    pub source_app: String,
    pub word_count: usize,
    pub char_count: usize,
    pub timestamp: i64,
    pub pinned: bool,
    /// The first characters of the content, marked where it was cut.
    pub preview: String,
    /// Hash of the content, kept in memory only, by which a repeated
    /// capture is recognised.
    pub content_hash: u64,
}

/// What an entry is, as plain values.
pub struct EntryView {
    pub id: Seq<char>,
    pub content: Seq<char>,
    pub content_type: ContentType,
    pub source_app: Seq<char>,
    pub word_count: nat,
    pub char_count: nat,
    pub timestamp: int,
    pub pinned: bool,
    pub preview: Seq<char>,
    pub content_hash: u64,
}

impl View for ClipboardEntry {
    type V = EntryView;

    open spec fn view(&self) -> EntryView {
        EntryView {
            id: self.id@,
            content: self.content@,
            content_type: self.content_type,
            source_app: self.source_app@,
            word_count: self.word_count as nat,
            char_count: self.char_count as nat,
            timestamp: self.timestamp as int,
            pinned: self.pinned,
            preview: self.preview@,
            content_hash: self.content_hash,
        }
    }
}

/// Whether a word begins at index `i` of `s`: a character that is no white
/// space, at the front or behind white space.
pub open spec fn word_starts_at(s: Seq<char>, i: int) -> bool {
    0 <= i < s.len() && !is_space(s[i]) && (i == 0 || is_space(s[i - 1]))
}

/// The number of words in `s`, a word being a longest run of characters
/// that holds no white space.
pub open spec fn word_count(s: Seq<char>) -> nat
    decreases s.len(),
{
    if s.len() == 0 {
        0
    } else {
        word_count(s.drop_last()) + if word_starts_at(s, s.len() - 1) {
            1nat
        } else {
            0nat
        }
    }
}

/// The marker that ends a preview which was cut.
pub open spec fn ellipsis() -> Seq<char> {
    seq!['.', '.', '.']
}

/// The preview of `content`: all of it up to 200 characters, else its
/// first 200 characters and the ellipsis.
pub open spec fn preview_of(content: Seq<char>) -> Seq<char> {
    if content.len() > PREVIEW_CHARS {
        content.take(PREVIEW_CHARS as int) + ellipsis()
    } else {
        content
    }
}

/// The hash under which `content` is compared with the capture before it:
/// the standard hasher fed with the UTF-8 bytes and the byte `0xff`.
pub open spec fn content_hash(content: Seq<char>) -> u64 {
    DefaultHasher::spec_finish(seq![encode_utf8(content), seq![0xffu8]])
}

/// The entry made of `content` captured from `source_app` and classified
/// as `content_type`, under `id` and at `timestamp`.
pub open spec fn fresh_entry(
    id: Seq<char>,
    timestamp: int,
    content: Seq<char>,
    content_type: ContentType,
    source_app: Seq<char>,
) -> EntryView {
    EntryView {
        id,
        content,
        content_type,
        source_app,
        word_count: word_count(content),
        char_count: content.len(),
        timestamp,
        pinned: false,
        preview: preview_of(content),
        content_hash: content_hash(content),
    }
}

/// Whether `s` is written as a hyphenated identifier: 36 characters, hyphens
/// at the four fixed places and lower-case hexadecimal digits elsewhere.
pub open spec fn is_hyphenated_id(s: Seq<char>) -> bool {
    &&& s.len() == 36
    &&& forall|i: int|
        0 <= i < 36 ==> if i == 8 || i == 13 || i == 18 || i == 23 {
            s[i] == '-'
        } else {
            ('0' <= #[trigger] s[i] <= '9') || ('a' <= s[i] <= 'f')
        }
}

/// A new random identifier in its hyphenated lower-case form, from
/// `uuid::Uuid::new_v4` and its `Display`. Nothing is claimed of which
/// identifier comes back, only of how it is written.
#[verifier::external_body]
pub(crate) fn fresh_id() -> (id: String)
    ensures
        is_hyphenated_id(id@),
{
    uuid::Uuid::new_v4().to_string()
}

/// The local clock's time in milliseconds since the epoch, from
/// `chrono::Local::now` and `DateTime::timestamp_millis`. Nothing is
/// claimed of the value.
#[verifier::external_body]
fn now_millis() -> i64 {
    chrono::Local::now().timestamp_millis()
}

/// The number of words in `chars`.
pub fn count_words(chars: &[char]) -> (n: usize)
    ensures
        n == word_count(chars@),
{
    let mut n: usize = 0;
    let mut i: usize = 0;
    let mut after_space: bool = true;
    while i < chars.len()
        invariant
            i <= chars.len(),
            n <= i,
            n == word_count(chars@.take(i as int)),
            after_space == (i == 0 || is_space(chars@[i - 1])),
        decreases chars.len() - i,
    {
        let space = is_space_char(chars[i]);
        proof {
            let upto = chars@.take(i + 1);
            assert(upto.drop_last() =~= chars@.take(i as int));
            assert(word_starts_at(upto, i as int) == (!space && after_space));
        }
        if !space && after_space {
            n += 1;
        }
        after_space = space;
        i += 1;
    }
    assert(chars@.take(chars.len() as int) =~= chars@);
    n
}

/// The preview of `chars`.
pub fn make_preview(chars: &[char]) -> (p: String)
    ensures
        p@ == preview_of(chars@),
        p@.len() <= PREVIEW_CHARS + 3,
{
    if chars.len() > PREVIEW_CHARS {
        let mut cut: Vec<char> = Vec::new();
        append_chars(&mut cut, &chars[0..PREVIEW_CHARS]);
        cut.push('.');
        cut.push('.');
        cut.push('.');
        assert(cut@ =~= chars@.take(PREVIEW_CHARS as int) + ellipsis());
        string_of(cut.as_slice())
    } else {
        string_of(chars)
    }
}

impl ClipboardEntry {
    /// Records `content`, captured from `source_app` and classified as
    /// `content_type`, under a new identifier and the present time.
    pub fn new(content: String, content_type: ContentType, source_app: String) -> (e:
        ClipboardEntry)
        ensures
            e@ == fresh_entry(e.id@, e.timestamp as int, content@, content_type, source_app@),
            is_hyphenated_id(e.id@),
    {
        let id = fresh_id();
        let timestamp = now_millis();
        Self::assemble(id, timestamp, content, content_type, source_app)
    }

    /// The entry for `content` under the given identifier and time.
    pub fn assemble(
        id: String,
        timestamp: i64,
        content: String,
        content_type: ContentType,
        source_app: String,
    ) -> (e: ClipboardEntry)
        ensures
            e@ == fresh_entry(id@, timestamp as int, content@, content_type, source_app@),
            e@.preview.len() <= PREVIEW_CHARS + 3,
    {
        let chars = chars_of(content.as_str());
        let preview = make_preview(chars.as_slice());
        let word_count = count_words(chars.as_slice());
        let char_count = chars.len();
        let content_hash = Self::hash_content(content.as_str());
        ClipboardEntry {
            id,
            content,
            content_type,
            source_app,
            word_count,
            char_count,
            timestamp,
            pinned: false,
            preview,
            content_hash,
        }
    }

    /// The hash by which a capture is compared with the one before it.
    pub fn hash_content(content: &str) -> (h: u64)
        ensures
            h == content_hash(content@),
    {
        let mut hasher = DefaultHasher::new();
        hasher.write(content.as_bytes());
        let mut end_mark: Vec<u8> = Vec::new();
        end_mark.push(0xff);
        hasher.write(end_mark.as_slice());
        assert(hasher@ =~= seq![encode_utf8(content@), seq![0xffu8]]);
        hasher.finish()
    }

    /// A copy of this entry, equal to it field by field.
    pub fn duplicate(&self) -> (e: ClipboardEntry)
        ensures
            e@ == self@,
    {
        ClipboardEntry {
            id: self.id.clone(),
            content: self.content.clone(),
            content_type: self.content_type,
            source_app: self.source_app.clone(),
            word_count: self.word_count,
            char_count: self.char_count,
            timestamp: self.timestamp,
            pinned: self.pinned,
            preview: self.preview.clone(),
            content_hash: self.content_hash,
        }
    }
}

} // verus!
