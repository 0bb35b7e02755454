//! Placeholder resolution: the dynamic tokens of a snippet template are
//! replaced by what they stand for at the moment of the call.

use vstd::prelude::*;
use crate::clipboard_history::entry::{fresh_id, is_hyphenated_id};
use crate::text::{
    append_chars, chars_of, contains, first_occurrence, lemma_leftmost_occurrence, occurs,
    replace_all, replace_first, replaced_all, replaced_first, string_of,
};

verus! {

/// Stands for the local date.
pub const DATE_TOKEN: &'static str = "{date}";

/// Stands for the local time.
pub const TIME_TOKEN: &'static str = "{time}";

/// Stands for the local date and time.
pub const DATETIME_TOKEN: &'static str = "{datetime}";

/// Stands for the name of the weekday.
pub const DAY_TOKEN: &'static str = "{day}";

/// Stands for the text on the clipboard.
pub const CLIPBOARD_TOKEN: &'static str = "{clipboard}";

/// Stands for a new random identifier, another at each place.
pub const UUID_TOKEN: &'static str = "{uuid}";

/// Day of the month without padding, short month name, year.
pub const DATE_FORMAT: &'static str = "%-d %b %Y";

/// Hour on the 12-hour clock without padding, minute, AM or PM.
pub const TIME_FORMAT: &'static str = "%-I:%M %p";

/// Full name of the weekday.
pub const DAY_FORMAT: &'static str = "%A";

/// The local date, time and weekday of one moment, as they are written
/// into a snippet.
#[derive(Debug, Clone, PartialEq, Eq)]
pub struct ClockTexts {
    pub date: String,
    pub time: String,
    pub day: String,
}

/// Reads the local clock once with `chrono::Local::now` and writes that
/// moment in the three formats with `DateTime::format`. Nothing is claimed
/// of the texts. The formats are held to the three that are known to be
/// valid, since writing with an invalid one does not return.
#[verifier::external_body]
fn read_clock(date_format: &str, time_format: &str, day_format: &str) -> (clock: ClockTexts)
    requires
        date_format@ == DATE_FORMAT@,
        time_format@ == TIME_FORMAT@,
        day_format@ == DAY_FORMAT@,
{
    let now = chrono::Local::now();
    ClockTexts {
        date: now.format(date_format).to_string(),
        time: now.format(time_format).to_string(),
        day: now.format(day_format).to_string(),
    }
}

/// `body` with the four tokens of the clock replaced, in the order date,
/// time, date and time, weekday.
pub open spec fn with_clock(body: Seq<char>, date: Seq<char>, time: Seq<char>, day: Seq<char>) -> Seq<char> {
    let dated = replaced_all(body, DATE_TOKEN@, date);
    let timed = replaced_all(dated, TIME_TOKEN@, time);
    let both = replaced_all(timed, DATETIME_TOKEN@, date + seq![' '] + time);
    replaced_all(both, DAY_TOKEN@, day)
}

/// `text` with the leftmost identifier token replaced by the first of
/// `ids`, the leftmost that is then left by the second, and so on.
pub open spec fn with_ids(text: Seq<char>, ids: Seq<Seq<char>>) -> Seq<char>
    decreases ids.len(),
{
    if ids.len() == 0 {
        text
    } else {
        replaced_first(with_ids(text, ids.drop_last()), UUID_TOKEN@, ids.last())
    }
}

/// The template `body` resolved at a moment written as `date`, `time`
/// and `day`, with `clipboard` on the clipboard and `ids` as the
/// identifiers drawn: the clock's tokens first, then every clipboard
/// token, then one identifier token for each of `ids`.
pub open spec fn resolved(
    body: Seq<char>,
    date: Seq<char>,
    time: Seq<char>,
    day: Seq<char>,
    clipboard: Seq<char>,
    ids: Seq<Seq<char>>,
) -> Seq<char> {
    with_ids(replaced_all(with_clock(body, date, time, day), CLIPBOARD_TOKEN@, clipboard), ids)
}

/// Whether `out` is `body` resolved at some moment with `clipboard` on the
/// clipboard and identifiers in the hyphenated form, as many as it took to
/// leave no identifier token.
pub open spec fn is_resolution(body: Seq<char>, clipboard: Seq<char>, out: Seq<char>) -> bool {
    &&& !occurs(out, UUID_TOKEN@)
    &&& exists|date: Seq<char>, time: Seq<char>, day: Seq<char>, ids: Seq<Seq<char>>|
        #![trigger resolved(body, date, time, day, clipboard, ids)]
        out == resolved(body, date, time, day, clipboard, ids) && forall|k: int|
            0 <= k < ids.len() ==> is_hyphenated_id(#[trigger] ids[k])
}

/// How often `c` stands in `s`.
pub open spec fn count_of(s: Seq<char>, c: char) -> nat
    decreases s.len(),
{
    if s.len() == 0 {
        0
    } else {
        count_of(s.drop_last(), c) + if s.last() == c {
            1nat
        } else {
            0nat
        }
    }
}

/// A character stands in a text made of two as often as in both together.
pub proof fn lemma_count_of_concat(a: Seq<char>, b: Seq<char>, c: char)
    ensures
        count_of(a + b, c) == count_of(a, c) + count_of(b, c),
    decreases b.len(),
{
    if b.len() == 0 {
        assert(a + b =~= a);
    } else {
        lemma_count_of_concat(a, b.drop_last(), c);
        assert((a + b).drop_last() =~= a + b.drop_last());
    }
}

/// A character that is none of a text stands in it zero times.
pub proof fn lemma_count_of_absent(s: Seq<char>, c: char)
    requires
        forall|i: int| 0 <= i < s.len() ==> s[i] != c,
    ensures
        count_of(s, c) == 0,
    decreases s.len(),
{
    if s.len() > 0 {
        lemma_count_of_absent(s.drop_last(), c);
    }
}

/// A text that starts with a character holds it at least once.
pub proof fn lemma_count_of_first(s: Seq<char>, c: char)
    requires
        s.len() > 0,
        s[0] == c,
    ensures
        count_of(s, c) >= 1,
    decreases s.len(),
{
    if s.len() > 1 {
        lemma_count_of_first(s.drop_last(), c);
    }
}

/// The identifier token starts with an opening brace.
pub proof fn lemma_token_opens_with_brace()
    ensures
        UUID_TOKEN@.len() == 6,
        UUID_TOKEN@[0] == '{',
{
    reveal_strlit("{uuid}");
}

/// An identifier in the hyphenated form holds no opening brace.
pub proof fn lemma_id_has_no_brace(id: Seq<char>)
    requires
        is_hyphenated_id(id),
    ensures
        count_of(id, '{') == 0,
{
    assert forall|i: int| 0 <= i < id.len() implies id[i] != '{' by {
        if !(i == 8 || i == 13 || i == 18 || i == 23) {
            assert(('0' <= id[i] <= '9') || ('a' <= id[i] <= 'f'));
        }
    }
    lemma_count_of_absent(id, '{');
}

/// Replacing an identifier token by an identifier leaves fewer opening
/// braces than there were.
pub proof fn lemma_id_removes_brace(text: Seq<char>, id: Seq<char>)
    requires
        occurs(text, UUID_TOKEN@),
        is_hyphenated_id(id),
    ensures
        count_of(replaced_first(text, UUID_TOKEN@, id), '{') < count_of(text, '{'),
{
    let token = UUID_TOKEN@;
    lemma_token_opens_with_brace();
    lemma_leftmost_occurrence(text, token);
    let at = first_occurrence(text, token)->0;
    let head = text.take(at);
    let tail = text.skip(at + token.len());
    let middle = text.subrange(at, at + token.len());
    assert(text =~= head + middle + tail);
    assert(middle == token);
    lemma_count_of_first(middle, '{');
    lemma_id_has_no_brace(id);
    lemma_count_of_concat(head, middle, '{');
    lemma_count_of_concat(head + middle, tail, '{');
    lemma_count_of_concat(head, id, '{');
    lemma_count_of_concat(head + id, tail, '{');
    assert(replaced_first(text, token, id) == head + id + tail);
}

/// Whether the template speaks of the clipboard.
pub fn mentions_clipboard(body: &str) -> (b: bool)
    ensures
        b == occurs(body@, CLIPBOARD_TOKEN@),
{
    let chars = chars_of(body);
    let token = chars_of(CLIPBOARD_TOKEN);
    contains(chars.as_slice(), token.as_slice())
}

/// `body` with the clock's tokens and the clipboard's replaced.
fn fill_fixed(body: &str, clock: &ClockTexts, clipboard: &str) -> (out: Vec<char>)
    ensures
        out@ == replaced_all(
            with_clock(body@, clock.date@, clock.time@, clock.day@),
            CLIPBOARD_TOKEN@,
            clipboard@,
        ),
{
    let date = chars_of(clock.date.as_str());
    let time = chars_of(clock.time.as_str());
    let day = chars_of(clock.day.as_str());
    let mut both: Vec<char> = Vec::new();
    append_chars(&mut both, date.as_slice());
    both.push(' ');
    append_chars(&mut both, time.as_slice());
    assert(both@ =~= clock.date@ + seq![' '] + clock.time@);
    let text = chars_of(body);
    let text = replace_all(text.as_slice(), chars_of(DATE_TOKEN).as_slice(), date.as_slice());
    let text = replace_all(text.as_slice(), chars_of(TIME_TOKEN).as_slice(), time.as_slice());
    let text = replace_all(text.as_slice(), chars_of(DATETIME_TOKEN).as_slice(), both.as_slice());
    let text = replace_all(text.as_slice(), chars_of(DAY_TOKEN).as_slice(), day.as_slice());
    replace_all(
        text.as_slice(),
        chars_of(CLIPBOARD_TOKEN).as_slice(),
        chars_of(clipboard).as_slice(),
    )
}

/// Resolves `body` with everything it depends on given: the clock's
/// texts, the clipboard's text and the identifiers to use, in order.
pub fn resolve_with(body: &str, clock: &ClockTexts, clipboard: &str, ids: &Vec<String>) -> (out:
    String)
    ensures
        out@ == resolved(
            body@,
            clock.date@,
            clock.time@,
            clock.day@,
            clipboard@,
            ids@.map_values(|id: String| id@),
        ),
{
    let ghost drawn = ids@.map_values(|id: String| id@);
    let token = chars_of(UUID_TOKEN);
    let mut text = fill_fixed(body, clock, clipboard);
    let ghost start = text@;
    let mut i: usize = 0;
    while i < ids.len()
        invariant
            i <= ids@.len(),
            token@ == UUID_TOKEN@,
            drawn == ids@.map_values(|id: String| id@),
            text@ == with_ids(start, drawn.take(i as int)),
        decreases ids@.len() - i,
    {
        let id = chars_of(ids[i].as_str());
        text = replace_first(text.as_slice(), token.as_slice(), id.as_slice());
        proof {
            assert(drawn.take(i + 1).drop_last() =~= drawn.take(i as int));
            assert(drawn.take(i + 1).last() == ids@[i as int]@);
        }
        i += 1;
    }
    assert(drawn.take(ids@.len() as int) =~= drawn);
    string_of(text.as_slice())
}

/// Resolves the template `body` now. `clipboard` is what the clipboard
/// holds, none where it cannot be read; each identifier token gets an
/// identifier of its own.
pub fn resolve(body: &str, clipboard: Option<&str>) -> (out: String)
    ensures
        is_resolution(
            body@,
            match clipboard {
                Some(text) => text@,
                None => Seq::empty(),
            },
            out@,
        ),
{
    let clock = read_clock(DATE_FORMAT, TIME_FORMAT, DAY_FORMAT);
    let token = chars_of(UUID_TOKEN);
    let mut text = match clipboard {
        Some(held) => fill_fixed(body, &clock, held),
        None => {
            let nothing = String::new();
            fill_fixed(body, &clock, nothing.as_str())
        },
    };
    let ghost held: Seq<char> = match clipboard {
        Some(text) => text@,
        None => Seq::empty(),
    };
    let ghost start = text@;
    let ghost mut drawn: Seq<Seq<char>> = Seq::empty();
    loop
        invariant
            token@ == UUID_TOKEN@,
            text@ == with_ids(start, drawn),
            forall|k: int| 0 <= k < drawn.len() ==> is_hyphenated_id(#[trigger] drawn[k]),
        ensures
            !occurs(text@, UUID_TOKEN@),
        decreases count_of(text@, '{'),
    {
        if !contains(text.as_slice(), token.as_slice()) {
            break ;
        }
        let id = fresh_id();
        let id_chars = chars_of(id.as_str());
        proof {
            lemma_id_removes_brace(text@, id@);
            assert(drawn.push(id@).drop_last() =~= drawn);
            drawn = drawn.push(id@);
        }
        text = replace_first(text.as_slice(), token.as_slice(), id_chars.as_slice());
    }
    proof {
        assert(text@ == resolved(body@, clock.date@, clock.time@, clock.day@, held, drawn));
    }
    string_of(text.as_slice())
}

} // verus!
