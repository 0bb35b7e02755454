//! Content classification: the first rule that a text meets, in a fixed
//! order, names its kind.

use vstd::prelude::*;
use crate::clipboard_history::entry::ContentType;
use crate::text::{chars_of, contains, contains_char, is_space, is_space_char, occurs, string_of, trim, trimmed};

verus! {

/// A whole line that is `http://` or `https://`, in either case, and at
/// least one character that is no white space.
pub const LINK_PATTERN: &'static str = r"(?i)^https?://\S+$";

/// A whole line of the form `local@domain.tld`.
pub const EMAIL_PATTERN: &'static str = r"(?i)^[a-z0-9._%+\-]+@[a-z0-9.\-]+\.[a-z]{2,}$";

/// An optional `+` and 7 to 20 digits, spaces, hyphens, brackets and dots.
pub const PHONE_PATTERN: &'static str = r"^\+?[\d\s\-().]{7,20}$";

/// A drive letter with `:\`, a slash, two backslashes or `~/` at the front,
/// and no NUL anywhere.
pub const PATH_PATTERN: &'static str = r"(?i)^([a-z]:\\|/|\\\\|~/)[^\x00]*$";

/// `#` and 3, 6 or 8 hexadecimal digits.
pub const COLOR_PATTERN: &'static str = r"(?i)^#([0-9a-f]{3}|[0-9a-f]{6}|[0-9a-f]{8})$";

/// An optional `-`, digits that commas may group, and an optional `.` with
/// digits behind it.
pub const NUMBER_PATTERN: &'static str = r"^-?\d[\d,]*\.?\d*$";

/// What matching `text` against the regular expression `pattern` gives:
/// `None` where `pattern` is no valid expression, else whether some part of
/// `text` matches it.
pub uninterp spec fn regex_match(pattern: Seq<char>, text: Seq<char>) -> Option<bool>;

/// Whether `text` is one well-formed JSON value.
pub uninterp spec fn json_parses(text: Seq<char>) -> bool;

/// Compiles `pattern` with `regex::Regex::new` and searches `text` with
/// `Regex::is_match`. The result is a function of the two texts alone; what
/// it is for given texts is not stated here.
#[verifier::external_body]
fn match_pattern(pattern: &str, text: &str) -> (r: Option<bool>)
    ensures
        r == regex_match(pattern@, text@),
{
    match regex::Regex::new(pattern) {
        Ok(re) => Some(re.is_match(text)),
        Err(_) => None,
    }
}

/// Parses `text` with `serde_json::from_str` into a `serde_json::Value` and
/// tells whether that succeeded.
#[verifier::external_body]
fn parse_json(text: &str) -> (ok: bool)
    ensures
        ok == json_parses(text@),
{
    serde_json::from_str::<serde_json::Value>(text).is_ok()
}

/// What the pattern and format checks found in one text.
#[derive(Debug, Clone, Copy, PartialEq, Eq, Structural)]
pub struct Findings {
    pub link: bool,
    pub email: bool,
    pub phone: bool,
    pub color: bool,
    pub number: bool,
    pub path: bool,
    pub json: bool,
}

/// Whether `pattern` is a valid expression that `text` matches.
pub open spec fn hits(pattern: Seq<char>, text: Seq<char>) -> bool {
    regex_match(pattern, text) == Some(true)
}

/// The findings for `text`.
pub open spec fn findings_of(text: Seq<char>) -> Findings {
    Findings {
        link: hits(LINK_PATTERN@, text),
        email: hits(EMAIL_PATTERN@, text),
        phone: hits(PHONE_PATTERN@, text),
        color: hits(COLOR_PATTERN@, text),
        number: hits(NUMBER_PATTERN@, text),
        path: hits(PATH_PATTERN@, text),
        json: json_parses(text),
    }
}

/// The tokens whose presence suggests source code.
pub open spec fn code_indicators() -> Seq<Seq<char>> {
    seq![
        "fn "@,
        "pub "@,
        "let "@,
        "const "@,
        "var "@,
        "function "@,
        "class "@,
        "import "@,
        "export "@,
        "return "@,
        "if ("@,
        "for ("@,
        "while ("@,
        "def "@,
        "async "@,
        "await "@,
        "=>"@,
        "->"@,
        "::"@,
        "&&"@,
        "||"@,
        "println!"@,
        "console.log"@,
        "System.out"@,
        "fmt."@,
        "struct "@,
        "enum "@,
        "interface "@,
        "type "@,
        "impl "@,
        "#include"@,
        "#define"@,
        "using namespace"@,
    ]
}

/// How many of the first `n` indicators occur in `text`.
pub open spec fn indicators_present(text: Seq<char>, n: int) -> nat
    decreases n,
{
    if n <= 0 {
        0
    } else {
        indicators_present(text, n - 1) + if occurs(text, code_indicators()[n - 1]) {
            1nat
        } else {
            0nat
        }
    }
}

/// Whether only white space stands between index `from` of `s` and the end
/// of its line.
pub open spec fn blank_to_line_end(s: Seq<char>, from: int) -> bool
    decreases s.len() - from,
{
    from >= s.len() || s[from] == '\n' || (is_space(s[from]) && blank_to_line_end(s, from + 1))
}

/// Whether the `;` at index `i` of `s` is the last character of its line
/// that is no white space.
pub open spec fn closes_line(s: Seq<char>, i: int) -> bool {
    0 <= i < s.len() && s[i] == ';' && blank_to_line_end(s, i + 1)
}

/// How many lines of `s` from index `from` on end in `;`, white space at
/// the end of a line not counted.
pub open spec fn closed_lines(s: Seq<char>, from: int) -> nat
    decreases s.len() - from,
{
    if from >= s.len() {
        0
    } else {
        closed_lines(s, from + 1) + if closes_line(s, from) {
            1nat
        } else {
            0nat
        }
    }
}

/// Whether `text` reads as source code: it holds two of the indicators, or
/// both braces and two lines that end in `;`.
pub open spec fn looks_like_code_text(text: Seq<char>) -> bool {
    ||| indicators_present(text, code_indicators().len() as int) >= 2
    ||| (text.contains('{') && text.contains('}') && closed_lines(text, 0) >= 2)
}

/// Whether `text` opens and closes as a JSON object or array does.
pub open spec fn bracketed(text: Seq<char>) -> bool {
    text.len() > 0 && ((text[0] == '{' && text.last() == '}') || (text[0] == '[' && text.last()
        == ']'))
}

/// The kind of the trimmed text `text`, given what the checks `found` in
/// it: the checks for a single line in their order, then JSON, then code,
/// and `Text` where none applies.
pub open spec fn classified(text: Seq<char>, found: Findings) -> ContentType {
    let single_line = !text.contains('\n');
    if single_line && found.link {
        ContentType::Link
    } else if single_line && found.email {
        ContentType::Email
    } else if single_line && found.phone {
        ContentType::Phone
    } else if single_line && found.color {
        ContentType::Color
    } else if single_line && found.number {
        ContentType::Number
    } else if single_line && found.path {
        ContentType::Path
    } else if bracketed(text) && found.json {
        ContentType::Json
    } else if looks_like_code_text(text) {
        ContentType::Code
    } else {
        ContentType::Text
    }
}

/// The kind of `text`: that of its trimmed form under the findings for it.
pub open spec fn kind_of(text: Seq<char>) -> ContentType {
    classified(trimmed(text), findings_of(trimmed(text)))
}

/// The indicator at index `i`.
fn indicator(i: usize) -> (s: &'static str)
    requires
        i < code_indicators().len(),
    ensures
        s@ == code_indicators()[i as int],
{
    match i {
        0 => "fn ",
        1 => "pub ",
        2 => "let ",
        3 => "const ",
        4 => "var ",
        5 => "function ",
        6 => "class ",
        7 => "import ",
        8 => "export ",
        9 => "return ",
        10 => "if (",
        11 => "for (",
        12 => "while (",
        13 => "def ",
        14 => "async ",
        15 => "await ",
        16 => "=>",
        17 => "->",
        18 => "::",
        19 => "&&",
        20 => "||",
        21 => "println!",
        22 => "console.log",
        23 => "System.out",
        24 => "fmt.",
        25 => "struct ",
        26 => "enum ",
        27 => "interface ",
        28 => "type ",
        29 => "impl ",
        30 => "#include",
        31 => "#define",
        _ => "using namespace",
    }
}

/// How many lines of `text` end in `;`.
pub fn count_closed_lines(text: &[char]) -> (n: usize)
    ensures
        n == closed_lines(text@, 0),
{
    let mut n: usize = 0;
    let mut i: usize = text.len();
    let mut blank: bool = true;
    while i > 0
        invariant
            i <= text.len(),
            n <= text.len() - i,
            n == closed_lines(text@, i as int),
            blank == blank_to_line_end(text@, i as int),
        decreases i,
    {
        i -= 1;
        let c = text[i];
        if c == ';' && blank {
            n += 1;
        }
        blank = c == '\n' || (is_space_char(c) && blank);
    }
    n
}

/// Whether `text` reads as source code.
pub fn looks_like_code(text: &[char]) -> (b: bool)
    ensures
        b == looks_like_code_text(text@),
{
    let mut present: usize = 0;
    let mut i: usize = 0;
    while i < 33
        invariant
            i <= 33,
            code_indicators().len() == 33,
            present <= i,
            present == indicators_present(text@, i as int),
        decreases 33 - i,
    {
        let token = chars_of(indicator(i));
        if contains(text, token.as_slice()) {
            present += 1;
        }
        i += 1;
    }
    if present >= 2 {
        return true;
    }
    contains_char(text, '{') && contains_char(text, '}') && count_closed_lines(text) >= 2
}

/// The kind of the trimmed text `text` under the findings `found`.
pub fn classify_with(text: &[char], found: Findings) -> (kind: ContentType)
    ensures
        kind == classified(text@, found),
{
    let single_line = !contains_char(text, '\n');
    if single_line && found.link {
        return ContentType::Link;
    }
    if single_line && found.email {
        return ContentType::Email;
    }
    if single_line && found.phone {
        return ContentType::Phone;
    }
    if single_line && found.color {
        return ContentType::Color;
    }
    if single_line && found.number {
        return ContentType::Number;
    }
    if single_line && found.path {
        return ContentType::Path;
    }
    let n = text.len();
    let is_bracketed = n > 0 && ((text[0] == '{' && text[n - 1] == '}') || (text[0] == '['
        && text[n - 1] == ']'));
    if is_bracketed && found.json {
        return ContentType::Json;
    }
    if looks_like_code(text) {
        return ContentType::Code;
    }
    ContentType::Text
}

/// Whether `text` matches `pattern`.
fn matches(pattern: &str, text: &str) -> (b: bool)
    ensures
        b == hits(pattern@, text@),
{
    match match_pattern(pattern, text) {
        Some(found) => found,
        None => false,
    }
}

/// The findings for `text`.
pub fn inspect(text: &str) -> (found: Findings)
    ensures
        found == findings_of(text@),
{
    Findings {
        link: matches(LINK_PATTERN, text),
        email: matches(EMAIL_PATTERN, text),
        phone: matches(PHONE_PATTERN, text),
        color: matches(COLOR_PATTERN, text),
        number: matches(NUMBER_PATTERN, text),
        path: matches(PATH_PATTERN, text),
        json: parse_json(text),
    }
}

/// Classifies the content of a clipboard text.
pub fn classify(text: &str) -> (kind: ContentType)
    ensures
        kind == kind_of(text@),
        kind != ContentType::Image,
{
    let chars = chars_of(text);
    let core = trim(chars.as_slice());
    let core_text = string_of(core.as_slice());
    let found = inspect(core_text.as_str());
    classify_with(core.as_slice(), found)
}

} // verus!
