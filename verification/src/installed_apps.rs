//! What is made of the raw findings of the search for installed
//! applications: which count, how their paths are cleaned, and in which
//! order they are listed.

use vstd::prelude::*;
use vstd::seq_lib::{to_multiset_build, to_multiset_insert};
use crate::text::{
    append_chars, chars_of, contains, find, first_occurrence, occurs, replace_all, replaced_all,
    string_of, trim, trimmed,
};

verus! {

/// An application that can be launched.
#[derive(Debug, Clone)]
pub struct InstalledApp {
    pub id: String,
    pub name: String,
    pub launch_path: String,
    pub location: Option<String>,
    pub source: String,
}

/// `c` in lower case where it is an ASCII capital, else `c`.
pub open spec fn lower(c: char) -> char {
    if 'A' <= c <= 'Z' {
        ((c as u32) + 32) as char
    } else {
        c
    }
}

/// `s` with its ASCII capitals in lower case.
pub open spec fn lowered(s: Seq<char>) -> Seq<char> {
    Seq::new(s.len(), |i: int| lower(s[i]))
}

/// The words that mark an entry as no application of its own.
pub open spec fn noise_tokens() -> Seq<Seq<char>> {
    seq![
        "uninstall"@,
        "remove"@,
        "help"@,
        "readme"@,
        "documentation"@,
        "license"@,
        "updater"@,
        "update"@,
    ]
}

/// Whether `name`, capitals aside, holds one of the noise words.
pub open spec fn is_noise(name: Seq<char>) -> bool {
    exists|k: int| 0 <= k < noise_tokens().len() && occurs(lowered(name), #[trigger] noise_tokens()[k])
}

/// The file extensions of what can be launched.
pub open spec fn launchable_extensions() -> Seq<Seq<char>> {
    seq!["lnk"@, "url"@, "appref-ms"@, "exe"@]
}

/// Whether a file of this extension, capitals aside, can be launched.
pub open spec fn is_launchable(extension: Option<Seq<char>>) -> bool {
    extension matches Some(ext) && launchable_extensions().contains(lowered(ext))
}

/// How many double quotes stand at the front of `s`.
pub open spec fn leading_quotes(s: Seq<char>) -> nat
    decreases s.len(),
{
    if s.len() == 0 || s[0] != '"' {
        0
    } else {
        1 + leading_quotes(s.skip(1))
    }
}

/// How many double quotes stand at the back of `s`.
pub open spec fn trailing_quotes(s: Seq<char>) -> nat
    decreases s.len(),
{
    if s.len() == 0 || s.last() != '"' {
        0
    } else {
        1 + trailing_quotes(s.drop_last())
    }
}

/// `s` without the double quotes at its two ends.
pub open spec fn unquoted(s: Seq<char>) -> Seq<char> {
    if leading_quotes(s) == s.len() {
        Seq::empty()
    } else {
        s.subrange(leading_quotes(s) as int, s.len() - trailing_quotes(s))
    }
}

/// The part of `s` before its first comma, or all of it.
pub open spec fn before_comma(s: Seq<char>) -> Seq<char>
    decreases s.len(),
{
    if s.len() == 0 || s[0] == ',' {
        Seq::empty()
    } else {
        seq![s[0]] + before_comma(s.skip(1))
    }
}

/// A value as the registry gives it, without white space and quotes
/// around it; none where nothing is left.
pub open spec fn cleaned(value: Seq<char>) -> Option<Seq<char>> {
    let inner = trimmed(unquoted(trimmed(value)));
    if inner.len() == 0 {
        None
    } else {
        Some(inner)
    }
}

/// The endings at which a path is cut, in the order in which they are
/// looked for.
pub open spec fn path_endings() -> Seq<Seq<char>> {
    seq![".exe"@, ".lnk"@, ".url"@, ".appref-ms"@]
}

/// `path` cut behind the leftmost occurrence of the first ending, from
/// index `k` on, that occurs in it, capitals aside; `path` itself where
/// none does.
pub open spec fn cut_at_ending(path: Seq<char>, k: int) -> Seq<char>
    decreases path_endings().len() - k,
{
    if k < 0 || k >= path_endings().len() {
        path
    } else {
        match first_occurrence(lowered(path), path_endings()[k]) {
            Some(at) => path.take(at + path_endings()[k].len()),
            None => cut_at_ending(path, k + 1),
        }
    }
}

/// The path that a raw registry value names: the value before its first
/// comma, without white space and quotes around it, cut behind its
/// ending. None where nothing is left of the value.
pub open spec fn path_candidate(raw: Seq<char>) -> Option<Seq<char>> {
    let whole = trimmed(raw);
    let path = trimmed(unquoted(trimmed(before_comma(whole))));
    if whole.len() == 0 || path.len() == 0 {
        None
    } else {
        Some(cut_at_ending(path, 0))
    }
}

/// The identifier of the application launched by `launch_path`.
pub open spec fn app_id(launch_path: Seq<char>) -> Seq<char> {
    "app::"@ + lowered(launch_path)
}

/// `path` with ` / ` in place of each backslash.
pub open spec fn location_text(path: Seq<char>) -> Seq<char>
    decreases path.len(),
{
    if path.len() == 0 {
        Seq::empty()
    } else if path[0] == '\\' {
        seq![' ', '/', ' '] + location_text(path.skip(1))
    } else {
        seq![path[0]] + location_text(path.skip(1))
    }
}

/// `c` in lower case where it is an ASCII capital.
pub fn lower_char(c: char) -> (l: char)
    ensures
        l == lower(c),
{
    if 'A' <= c && c <= 'Z' {
        let code: u8 = c as u8;
        (code + 32) as char
    } else {
        c
    }
}

/// `s` with its ASCII capitals in lower case.
pub fn to_lower(s: &[char]) -> (out: Vec<char>)
    ensures
        out@ == lowered(s@),
{
    let mut out: Vec<char> = Vec::new();
    let mut i: usize = 0;
    while i < s.len()
        invariant
            i <= s.len(),
            out@ == lowered(s@.take(i as int)),
        decreases s.len() - i,
    {
        out.push(lower_char(s[i]));
        assert(out@ =~= lowered(s@.take(i + 1)));
        i += 1;
    }
    assert(s@.take(s.len() as int) =~= s@);
    out
}

/// The noise word at index `i`.
fn noise_token(i: usize) -> (s: &'static str)
    requires
        i < noise_tokens().len(),
    ensures
        s@ == noise_tokens()[i as int],
{
    match i {
        0 => "uninstall",
        1 => "remove",
        2 => "help",
        3 => "readme",
        4 => "documentation",
        5 => "license",
        6 => "updater",
        _ => "update",
    }
}

/// Whether an entry of this name is no application of its own: an
/// uninstaller, a manual, an updater.
pub fn is_noise_entry(name: &str) -> (b: bool)
    ensures
        b == is_noise(name@),
{
    let chars = chars_of(name);
    let low = to_lower(chars.as_slice());
    let mut i: usize = 0;
    while i < 8
        invariant
            i <= 8,
            noise_tokens().len() == 8,
            low@ == lowered(name@),
            forall|k: int| 0 <= k < i ==> !occurs(low@, #[trigger] noise_tokens()[k]),
        decreases 8 - i,
    {
        let token = chars_of(noise_token(i));
        if contains(low.as_slice(), token.as_slice()) {
            return true;
        }
        i += 1;
    }
    false
}

/// Whether two texts are equal.
fn same_chars(a: &[char], b: &[char]) -> (same: bool)
    ensures
        same == (a@ == b@),
{
    if a.len() != b.len() {
        return false;
    }
    let mut i: usize = 0;
    while i < a.len()
        invariant
            i <= a.len(),
            a.len() == b.len(),
            forall|j: int| 0 <= j < i ==> a@[j] == b@[j],
        decreases a.len() - i,
    {
        if a[i] != b[i] {
            return false;
        }
        i += 1;
    }
    assert(a@ =~= b@);
    true
}

/// Whether a file with this extension can be launched. `extension` is what
/// stands behind the last dot of the file's name, none where it has none.
pub fn is_launchable_shortcut(extension: Option<&str>) -> (b: bool)
    ensures
        b == is_launchable(
            match extension {
                Some(ext) => Some(ext@),
                None => None,
            },
        ),
{
    let ext = match extension {
        Some(ext) => ext,
        None => {
            return false;
        },
    };
    let low = to_lower(chars_of(ext).as_slice());
    let found = same_chars(low.as_slice(), chars_of("lnk").as_slice()) || same_chars(
        low.as_slice(),
        chars_of("url").as_slice(),
    ) || same_chars(low.as_slice(), chars_of("appref-ms").as_slice()) || same_chars(
        low.as_slice(),
        chars_of("exe").as_slice(),
    );
    proof {
        let known = launchable_extensions();
        assert(known[0] == "lnk"@ && known[1] == "url"@ && known[2] == "appref-ms"@ && known[3]
            == "exe"@);
        if known.contains(low@) {
            let k = choose|k: int| 0 <= k < known.len() && known[k] == low@;
            assert(k == 0 || k == 1 || k == 2 || k == 3);
        }
    }
    found
}

/// `n` quotes at the front, then another character or the end.
proof fn lemma_leading_quotes(s: Seq<char>, n: int)
    requires
        0 <= n <= s.len(),
        forall|j: int| 0 <= j < n ==> s[j] == '"',
        n == s.len() || s[n] != '"',
    ensures
        leading_quotes(s) == n,
    decreases n,
{
    if n > 0 {
        let rest = s.skip(1);
        assert forall|j: int| 0 <= j < n - 1 implies rest[j] == '"' by {
            assert(rest[j] == s[j + 1]);
        }
        lemma_leading_quotes(rest, n - 1);
    }
}

/// `n` quotes at the back, preceded by another character or by nothing.
proof fn lemma_trailing_quotes(s: Seq<char>, n: int)
    requires
        0 <= n <= s.len(),
        forall|j: int| s.len() - n <= j < s.len() ==> s[j] == '"',
        n == s.len() || s[s.len() - n - 1] != '"',
    ensures
        trailing_quotes(s) == n,
    decreases n,
{
    if n > 0 {
        let rest = s.drop_last();
        assert forall|j: int| rest.len() - (n - 1) <= j < rest.len() implies rest[j] == '"' by {
            assert(rest[j] == s[j]);
        }
        lemma_trailing_quotes(rest, n - 1);
    }
}

/// `s` without the double quotes at its two ends.
pub fn strip_quotes(s: &[char]) -> (out: Vec<char>)
    ensures
        out@ == unquoted(s@),
{
    let mut from: usize = 0;
    while from < s.len() && s[from] == '"'
        invariant
            from <= s.len(),
            forall|j: int| 0 <= j < from ==> s@[j] == '"',
        decreases s.len() - from,
    {
        from += 1;
    }
    proof {
        lemma_leading_quotes(s@, from as int);
    }
    let mut out: Vec<char> = Vec::new();
    if from == s.len() {
        return out;
    }
    let mut to: usize = s.len();
    while to > from && s[to - 1] == '"'
        invariant
            from < to <= s.len(),
            s@[from as int] != '"',
            forall|j: int| to <= j < s.len() ==> s@[j] == '"',
        decreases to,
    {
        to -= 1;
    }
    proof {
        lemma_trailing_quotes(s@, s.len() - to);
    }
    append_chars(&mut out, &s[from..to]);
    out
}

/// A text without the white space and the quotes around it.
fn strip_around(s: &[char]) -> (out: Vec<char>)
    ensures
        out@ == trimmed(unquoted(trimmed(s@))),
{
    let outer = trim(s);
    let bare = strip_quotes(outer.as_slice());
    trim(bare.as_slice())
}

/// A value as the registry gives it, cleaned; none where nothing is left.
pub fn clean_value(value: &str) -> (out: Option<String>)
    ensures
        match out {
            Some(text) => cleaned(value@) == Some(text@),
            None => cleaned(value@) is None,
        },
{
    let inner = strip_around(chars_of(value).as_slice());
    if inner.len() == 0 {
        None
    } else {
        Some(string_of(inner.as_slice()))
    }
}

/// The directory that an install location names: the value without the
/// white space around it and the quotes around that.
pub fn location_path(location: &str) -> (path: String)
    ensures
        path@ == unquoted(trimmed(location@)),
{
    let outer = trim(chars_of(location).as_slice());
    let bare = strip_quotes(outer.as_slice());
    string_of(bare.as_slice())
}

/// Whether a file with this extension is a program: `exe`, capitals aside.
pub fn is_program(extension: Option<&str>) -> (b: bool)
    ensures
        b == (extension matches Some(ext) && lowered(ext@) == "exe"@),
{
    match extension {
        Some(ext) => {
            let low = to_lower(chars_of(ext).as_slice());
            same_chars(low.as_slice(), chars_of("exe").as_slice())
        },
        None => false,
    }
}

/// The part of `s` before its first comma.
fn take_before_comma(s: &[char]) -> (out: Vec<char>)
    ensures
        out@ == before_comma(s@),
{
    let mut out: Vec<char> = Vec::new();
    let mut i: usize = 0;
    assert(s@.skip(0) =~= s@);
    while i < s.len() && s[i] != ','
        invariant
            i <= s.len(),
            out@ + before_comma(s@.skip(i as int)) == before_comma(s@),
        decreases s.len() - i,
    {
        proof {
            let rest = s@.skip(i as int);
            assert(rest[0] == s@[i as int]);
            assert(rest.skip(1) =~= s@.skip(i + 1));
            assert(out@.push(s@[i as int]) + before_comma(s@.skip(i + 1)) =~= out@
                + before_comma(rest));
        }
        out.push(s[i]);
        i += 1;
    }
    proof {
        let rest = s@.skip(i as int);
        if i < s.len() {
            assert(rest[0] == s@[i as int]);
        }
        assert(before_comma(rest) =~= Seq::<char>::empty());
        assert(out@ + Seq::<char>::empty() =~= out@);
    }
    out
}

/// The ending at index `i`.
fn path_ending(i: usize) -> (s: &'static str)
    requires
        i < path_endings().len(),
    ensures
        s@ == path_endings()[i as int],
{
    match i {
        0 => ".exe",
        1 => ".lnk",
        2 => ".url",
        _ => ".appref-ms",
    }
}

/// The path that a raw registry value names.
#[verifier::loop_isolation(false)]
pub fn extract_path_candidate(raw: &str) -> (out: Option<String>)
    ensures
        match out {
            Some(path) => path_candidate(raw@) == Some(path@),
            None => path_candidate(raw@) is None,
        },
{
    let whole = trim(chars_of(raw).as_slice());
    if whole.len() == 0 {
        return None;
    }
    let value = take_before_comma(whole.as_slice());
    let path = strip_around(value.as_slice());
    if path.len() == 0 {
        return None;
    }
    let low = to_lower(path.as_slice());
    let length: usize = low.len();
    let mut k: usize = 0;
    while k < 4
        invariant
            k <= 4,
            path_endings().len() == 4,
            low@ == lowered(path@),
            cut_at_ending(path@, k as int) == cut_at_ending(path@, 0),
        decreases 4 - k,
    {
        let ending = chars_of(path_ending(k));
        match find(low.as_slice(), ending.as_slice()) {
            Some(at) => {
                assert(at + ending@.len() <= length);
                let end: usize = at + ending.len();
                let mut cut: Vec<char> = Vec::new();
                append_chars(&mut cut, &path.as_slice()[0..end]);
                assert(cut@ =~= path@.take(end as int));
                return Some(string_of(cut.as_slice()));
            },
            None => {},
        }
        k += 1;
    }
    Some(string_of(path.as_slice()))
}

/// The identifier of the application launched by `launch_path`.
pub fn make_app_id(launch_path: &str) -> (id: String)
    ensures
        id@ == app_id(launch_path@),
{
    let mut id = chars_of("app::");
    let low = to_lower(chars_of(launch_path).as_slice());
    append_chars(&mut id, low.as_slice());
    string_of(id.as_slice())
}

/// `path` with ` / ` in place of each backslash.
pub fn describe_location(path: &str) -> (text: String)
    ensures
        text@ == location_text(path@),
{
    let chars = chars_of(path);
    let mut out: Vec<char> = Vec::new();
    let mut i: usize = 0;
    assert(chars@.skip(0) =~= chars@);
    while i < chars.len()
        invariant
            i <= chars@.len(),
            out@ + location_text(chars@.skip(i as int)) == location_text(chars@),
        decreases chars@.len() - i,
    {
        let ghost before = out@;
        let ghost rest = chars@.skip(i as int);
        if chars[i] == '\\' {
            out.push(' ');
            out.push('/');
            out.push(' ');
        } else {
            out.push(chars[i]);
        }
        proof {
            assert(rest[0] == chars@[i as int]);
            assert(rest.skip(1) =~= chars@.skip(i + 1));
            assert(out@ + location_text(chars@.skip(i + 1)) =~= before + location_text(rest));
        }
        i += 1;
    }
    proof {
        assert(location_text(chars@.skip(chars@.len() as int)) =~= Seq::<char>::empty());
        assert(out@ + Seq::<char>::empty() =~= out@);
    }
    string_of(out.as_slice())
}

impl InstalledApp {
    /// The application `name` launched by `launch_path`, found by `source`.
    pub fn new(name: String, launch_path: String, location: Option<String>, source: String) -> (app:
        InstalledApp)
        ensures
            app.id@ == app_id(launch_path@),
            app.name == name,
            app.launch_path == launch_path,
            app.location == location,
            app.source == source,
    {
        let id = make_app_id(launch_path.as_str());
        InstalledApp { id, name, launch_path, location, source }
    }
}

/// An application as plain values.
pub struct AppView {
    pub id: Seq<char>,
    pub name: Seq<char>,
    pub launch_path: Seq<char>,
    pub location: Option<Seq<char>>,
    pub source: Seq<char>,
}

impl View for InstalledApp {
    type V = AppView;

    open spec fn view(&self) -> AppView {
        AppView {
            id: self.id@,
            name: self.name@,
            launch_path: self.launch_path@,
            location: match self.location {
                Some(text) => Some(text@),
                None => None,
            },
            source: self.source@,
        }
    }
}

impl InstalledApp {
    /// A copy of this application, equal to it field by field.
    pub fn duplicate(&self) -> (app: InstalledApp)
        ensures
            app@ == self@,
    {
        InstalledApp {
            id: self.id.clone(),
            name: self.name.clone(),
            launch_path: self.launch_path.clone(),
            location: match &self.location {
                Some(text) => Some(text.clone()),
                None => None,
            },
            source: self.source.clone(),
        }
    }
}

/// Whether `a` comes at or before `b` in the order of the dictionary, by
/// the code of each character.
pub open spec fn text_le(a: Seq<char>, b: Seq<char>) -> bool
    decreases a.len(),
{
    if a.len() == 0 {
        true
    } else if b.len() == 0 {
        false
    } else if a[0] != b[0] {
        a[0] < b[0]
    } else {
        text_le(a.skip(1), b.skip(1))
    }
}

/// Whether `a` comes before `b`.
pub open spec fn text_lt(a: Seq<char>, b: Seq<char>) -> bool {
    text_le(a, b) && a != b
}

/// Of two texts one comes at or before the other.
pub proof fn lemma_text_le_total(a: Seq<char>, b: Seq<char>)
    ensures
        text_le(a, b) || text_le(b, a),
    decreases a.len(),
{
    if a.len() > 0 && b.len() > 0 && a[0] == b[0] {
        lemma_text_le_total(a.skip(1), b.skip(1));
    }
}

/// What comes at or before a text that comes at or before a third comes
/// at or before the third.
pub proof fn lemma_text_le_transitive(a: Seq<char>, b: Seq<char>, c: Seq<char>)
    requires
        text_le(a, b),
        text_le(b, c),
    ensures
        text_le(a, c),
    decreases a.len(),
{
    if a.len() > 0 && b.len() > 0 && c.len() > 0 && a[0] == b[0] && b[0] == c[0] {
        lemma_text_le_transitive(a.skip(1), b.skip(1), c.skip(1));
    }
}

/// Whether `a` comes at or before `b`.
pub fn text_at_most(a: &[char], b: &[char]) -> (le: bool)
    ensures
        le == text_le(a@, b@),
{
    let mut i: usize = 0;
    assert(a@.skip(0) =~= a@ && b@.skip(0) =~= b@);
    while i < a.len() && i < b.len()
        invariant
            i <= a.len(),
            i <= b.len(),
            text_le(a@, b@) == text_le(a@.skip(i as int), b@.skip(i as int)),
        decreases a.len() - i,
    {
        proof {
            let rest_a = a@.skip(i as int);
            let rest_b = b@.skip(i as int);
            assert(rest_a[0] == a@[i as int] && rest_b[0] == b@[i as int]);
            assert(rest_a.skip(1) =~= a@.skip(i + 1));
            assert(rest_b.skip(1) =~= b@.skip(i + 1));
        }
        if a[i] != b[i] {
            return a[i] < b[i];
        }
        i += 1;
    }
    i == a.len()
}

/// Whether the key at index `i` stands at an earlier index too.
pub open spec fn seen_before(keys: Seq<Seq<char>>, i: int) -> bool {
    exists|j: int| 0 <= j < i && #[trigger] keys[j] == keys[i]
}

/// The indices below `n` at which a key stands for the first time,
/// ascending.
pub open spec fn first_of_each(keys: Seq<Seq<char>>, n: int) -> Seq<int>
    decreases n,
{
    if n <= 0 {
        Seq::empty()
    } else if seen_before(keys, n - 1) {
        first_of_each(keys, n - 1)
    } else {
        first_of_each(keys, n - 1).push(n - 1)
    }
}

/// The launch path of each application, capitals aside.
pub open spec fn path_keys(apps: Seq<InstalledApp>) -> Seq<Seq<char>> {
    Seq::new(apps.len(), |i: int| lowered(apps[i].launch_path@))
}

/// The indices of the applications that stay when of those with one launch
/// path, capitals aside, only the first does.
pub open spec fn distinct_paths(apps: Seq<InstalledApp>) -> Seq<int> {
    first_of_each(path_keys(apps), apps.len() as int)
}

/// The name, capitals aside, of each application that `picked` lists.
pub open spec fn name_keys(apps: Seq<InstalledApp>, picked: Seq<int>) -> Seq<Seq<char>> {
    Seq::new(picked.len(), |k: int| lowered(apps[picked[k]].name@))
}

/// The indices of the applications that are listed: of those with one
/// launch path only the first, and of these, of those with one name only
/// the first. Capitals count for nothing.
pub open spec fn listed(apps: Seq<InstalledApp>) -> Seq<int> {
    let by_path = distinct_paths(apps);
    let kept = first_of_each(name_keys(apps, by_path), by_path.len() as int);
    Seq::new(kept.len(), |k: int| by_path[kept[k]])
}

/// Whether `order` lists the applications to list by index, sorted by
/// name, capitals aside.
pub open spec fn is_listing_order(apps: Seq<InstalledApp>, order: Seq<int>) -> bool {
    &&& order.to_multiset() == listed(apps).to_multiset()
    &&& forall|k: int| 0 <= k < order.len() ==> 0 <= #[trigger] order[k] < apps.len()
    &&& forall|a: int, b: int|
        0 <= a < b < order.len() ==> text_lt(
            lowered(apps[#[trigger] order[a]].name@),
            lowered(apps[#[trigger] order[b]].name@),
        )
}

/// Whether `out` is the list made of `apps`: no launch path and no name
/// twice, sorted by name.
pub open spec fn is_listing(apps: Seq<InstalledApp>, out: Seq<InstalledApp>) -> bool {
    exists|order: Seq<int>|
        #![trigger is_listing_order(apps, order)]
        is_listing_order(apps, order) && out.len() == order.len() && forall|k: int|
            0 <= k < order.len() ==> (#[trigger] out[k])@ == apps[order[k]]@
}

/// The first indices are in range and ascending, and their keys differ.
pub proof fn lemma_first_of_each(keys: Seq<Seq<char>>, n: int)
    requires
        0 <= n <= keys.len(),
    ensures
        ({
            let first = first_of_each(keys, n);
            &&& first.len() <= n
            &&& forall|k: int| 0 <= k < first.len() ==> 0 <= #[trigger] first[k] < n
            &&& forall|a: int, b: int|
                0 <= a < b < first.len() ==> (#[trigger] first[a]) < (#[trigger] first[b])
                    && keys[first[a]] != keys[first[b]]
        }),
    decreases n,
{
    if n > 0 {
        lemma_first_of_each(keys, n - 1);
        let before = first_of_each(keys, n - 1);
        let first = first_of_each(keys, n);
        assert forall|k: int| 0 <= k < first.len() implies 0 <= #[trigger] first[k] < n by {
            if k < before.len() {
                assert(first[k] == before[k]);
            }
        }
        assert forall|a: int, b: int| 0 <= a < b < first.len() implies (#[trigger] first[a]) < (
        #[trigger] first[b]) && keys[first[a]] != keys[first[b]] by {
            assert(first[a] == before[a]);
            if b < before.len() {
                assert(first[b] == before[b]);
            } else {
                assert(first[b] == n - 1);
                assert(!seen_before(keys, n - 1));
                assert(0 <= before[a] < n - 1);
            }
        }
    }
}

/// The indices at which a key stands for the first time.
fn firsts(keys: &Vec<Vec<char>>) -> (first: Vec<usize>)
    ensures
        first@.len() == first_of_each(keys@.map_values(|k: Vec<char>| k@), keys@.len() as int).len(),
        forall|k: int|
            0 <= k < first@.len() ==> (#[trigger] first@[k]) as int == first_of_each(
                keys@.map_values(|k: Vec<char>| k@),
                keys@.len() as int,
            )[k],
        forall|k: int| 0 <= k < first@.len() ==> (#[trigger] first@[k]) < keys@.len(),
{
    let ghost texts = keys@.map_values(|k: Vec<char>| k@);
    let mut first: Vec<usize> = Vec::new();
    let mut i: usize = 0;
    while i < keys.len()
        invariant
            i <= keys@.len(),
            texts == keys@.map_values(|k: Vec<char>| k@),
            first@.len() == first_of_each(texts, i as int).len(),
            forall|k: int|
                0 <= k < first@.len() ==> (#[trigger] first@[k]) as int == first_of_each(
                    texts,
                    i as int,
                )[k],
            forall|k: int| 0 <= k < first@.len() ==> (#[trigger] first@[k]) < i,
        decreases keys@.len() - i,
    {
        let mut seen = false;
        let mut j: usize = 0;
        while j < i && !seen
            invariant
                j <= i < keys@.len(),
                texts == keys@.map_values(|k: Vec<char>| k@),
                seen ==> seen_before(texts, i as int),
                !seen ==> forall|m: int| 0 <= m < j ==> texts[m] != texts[i as int],
            decreases i - j + if seen { 0int } else { 1int },
        {
            if same_chars(keys[j].as_slice(), keys[i].as_slice()) {
                assert(texts[j as int] == texts[i as int]);
                seen = true;
            } else {
                j += 1;
            }
        }
        if !seen {
            first.push(i);
        }
        i += 1;
    }
    first
}

/// The name of each application, or its launch path, capitals aside, for
/// the applications that `picked` lists.
fn keys_of(apps: &Vec<InstalledApp>, picked: &Vec<usize>, by_name: bool) -> (keys: Vec<Vec<char>>)
    requires
        forall|k: int| 0 <= k < picked@.len() ==> (#[trigger] picked@[k]) < apps@.len(),
    ensures
        keys@.len() == picked@.len(),
        forall|k: int|
            0 <= k < picked@.len() ==> (#[trigger] keys@[k])@ == lowered(
                if by_name {
                    apps@[picked@[k] as int].name@
                } else {
                    apps@[picked@[k] as int].launch_path@
                },
            ),
{
    let mut keys: Vec<Vec<char>> = Vec::new();
    let mut k: usize = 0;
    while k < picked.len()
        invariant
            k <= picked@.len(),
            keys@.len() == k,
            forall|m: int| 0 <= m < picked@.len() ==> (#[trigger] picked@[m]) < apps@.len(),
            forall|m: int|
                0 <= m < k ==> (#[trigger] keys@[m])@ == lowered(
                    if by_name {
                        apps@[picked@[m] as int].name@
                    } else {
                        apps@[picked@[m] as int].launch_path@
                    },
                ),
        decreases picked@.len() - k,
    {
        let app = &apps[picked[k]];
        let text = if by_name {
            chars_of(app.name.as_str())
        } else {
            chars_of(app.launch_path.as_str())
        };
        keys.push(to_lower(text.as_slice()));
        k += 1;
    }
    keys
}

/// The list made of what the search `found`: of the applications with one
/// launch path only the first stays, then of those with one name only the
/// first, capitals counting for nothing; what stays is sorted by name.
#[verifier::loop_isolation(false)]
pub fn list_installed_apps(found: &Vec<InstalledApp>) -> (out: Vec<InstalledApp>)
    ensures
        is_listing(found@, out@),
{
    let n = found.len();
    let mut all: Vec<usize> = Vec::new();
    let mut i: usize = 0;
    while i < n
        invariant
            i <= n,
            all@.len() == i,
            forall|k: int| 0 <= k < i ==> #[trigger] all@[k] == k,
        decreases n - i,
    {
        all.push(i);
        i += 1;
    }
    let paths = keys_of(found, &all, false);
    let ghost path_texts = paths@.map_values(|k: Vec<char>| k@);
    assert(path_texts =~= path_keys(found@));
    let by_path = firsts(&paths);
    let ghost picked = distinct_paths(found@);
    proof {
        lemma_first_of_each(path_texts, n as int);
    }
    let names = keys_of(found, &by_path, true);
    let ghost name_texts = names@.map_values(|k: Vec<char>| k@);
    assert(name_texts =~= name_keys(found@, picked));
    let kept = firsts(&names);
    let ghost kept_spec = first_of_each(name_texts, by_path@.len() as int);
    let ghost wanted = listed(found@);
    proof {
        lemma_first_of_each(name_texts, by_path@.len() as int);
        assert(wanted.len() == kept@.len());
        assert forall|k: int| 0 <= k < kept@.len() implies wanted[k] == by_path@[kept@[k] as int] by {
            assert(kept@[k] as int == kept_spec[k]);
            assert(by_path@[kept_spec[k]] as int == picked[kept_spec[k]]);
        }
    }

    // Insertion sort of the kept places by name.
    let mut sorted: Vec<usize> = Vec::new();
    let ghost mut order: Seq<int> = Seq::empty();
    let mut t: usize = 0;
    assert(wanted.take(0) =~= Seq::<int>::empty());
    while t < kept.len()
        invariant
            t <= kept@.len(),
            sorted@.len() == t,
            order.len() == t,
            forall|a: int|
                0 <= a < t ==> (#[trigger] sorted@[a]) < by_path@.len() && order[a]
                    == by_path@[sorted@[a] as int],
            forall|a: int|
                0 <= a < t ==> exists|m: int| 0 <= m < t && kept@[m] == #[trigger] sorted@[a],
            order.to_multiset() == wanted.take(t as int).to_multiset(),
            forall|a: int, b: int|
                0 <= a < b < t ==> text_lt(
                    name_texts[(#[trigger] sorted@[a]) as int],
                    name_texts[(#[trigger] sorted@[b]) as int],
                ),
        decreases kept@.len() - t,
    {
        let place = kept[t];
        let ghost before = sorted@;
        let ghost order_before = order;
        let mut p: usize = 0;
        while p < sorted.len() && text_at_most(names[sorted[p]].as_slice(), names[place].as_slice())
            invariant
                p <= sorted@.len(),
                sorted@ == before,
                forall|a: int|
                    0 <= a < p ==> text_le(
                        name_texts[(#[trigger] sorted@[a]) as int],
                        name_texts[place as int],
                    ),
            decreases sorted@.len() - p,
        {
            p += 1;
        }
        sorted.insert(p, place);
        proof {
            let x = by_path@[place as int] as int;
            order = order_before.insert(p as int, x);
            to_multiset_insert(order_before, p as int, x);
            to_multiset_build(wanted.take(t as int), x);
            assert(wanted.take(t + 1) =~= wanted.take(t as int).push(x));
            assert forall|a: int| 0 <= a < t + 1 implies (#[trigger] sorted@[a]) < by_path@.len()
                && order[a] == by_path@[sorted@[a] as int] by {
                if a < p {
                    assert(sorted@[a] == before[a]);
                } else if a > p {
                    assert(sorted@[a] == before[a - 1]);
                }
            }
            assert forall|a: int| 0 <= a < t + 1 implies exists|m: int|
                0 <= m < t + 1 && kept@[m] == #[trigger] sorted@[a] by {
                if a == p {
                    assert(kept@[t as int] == sorted@[a]);
                } else {
                    let old_a = if a < p {
                        a
                    } else {
                        a - 1
                    };
                    assert(sorted@[a] == before[old_a]);
                    let m = choose|m: int| 0 <= m < t && kept@[m] == before[old_a];
                    assert(kept@[m] == sorted@[a]);
                }
            }
            // The key of the new place differs from every key already in.
            assert forall|a: int| 0 <= a < t implies name_texts[(#[trigger] before[a]) as int]
                != name_texts[place as int] by {
                let m = choose|m: int| 0 <= m < t && kept@[m] == before[a];
                assert(kept@[m] as int == kept_spec[m]);
                assert(kept@[t as int] as int == kept_spec[t as int]);
            }
            assert forall|a: int, b: int| 0 <= a < b < t + 1 implies text_lt(
                name_texts[(#[trigger] sorted@[a]) as int],
                name_texts[(#[trigger] sorted@[b]) as int],
            ) by {
                let key = name_texts[place as int];
                if b < p {
                    assert(sorted@[a] == before[a] && sorted@[b] == before[b]);
                } else if b == p {
                    assert(sorted@[a] == before[a]);
                } else if a == p {
                    assert(sorted@[b] == before[b - 1]);
                    let next = name_texts[before[p as int] as int];
                    lemma_text_le_total(next, key);
                    if b - 1 > p {
                        lemma_text_le_transitive(key, next, name_texts[before[b - 1] as int]);
                    }
                } else if a < p {
                    assert(sorted@[a] == before[a] && sorted@[b] == before[b - 1]);
                } else {
                    assert(sorted@[a] == before[a - 1] && sorted@[b] == before[b - 1]);
                }
            }
        }
        t += 1;
    }
    assert(wanted.take(kept@.len() as int) =~= wanted);

    let mut out: Vec<InstalledApp> = Vec::new();
    let mut k: usize = 0;
    while k < sorted.len()
        invariant
            k <= sorted@.len(),
            out@.len() == k,
            forall|m: int| 0 <= m < k ==> (#[trigger] out@[m])@ == found@[order[m]]@,
        decreases sorted@.len() - k,
    {
        let at = by_path[sorted[k]];
        out.push(found[at].duplicate());
        k += 1;
    }
    proof {
        assert forall|k: int| 0 <= k < order.len() implies 0 <= #[trigger] order[k]
            < found@.len() by {
            assert(sorted@[k] < by_path@.len());
            assert(by_path@[sorted@[k] as int] < paths@.len());
        }
        assert forall|a: int, b: int| 0 <= a < b < order.len() implies text_lt(
            lowered(found@[#[trigger] order[a]].name@),
            lowered(found@[#[trigger] order[b]].name@),
        ) by {
            assert(text_lt(name_texts[sorted@[a] as int], name_texts[sorted@[b] as int]));
            assert(name_texts[sorted@[a] as int] == lowered(found@[order[a]].name@));
            assert(name_texts[sorted@[b] as int] == lowered(found@[order[b]].name@));
        }
        assert(order.to_multiset() == listed(found@).to_multiset());
        assert(is_listing_order(found@, order));
    }
    out
}

/// Whether no word of an uninstaller or updater stands in `stem`, capitals
/// aside.
pub open spec fn is_usable_stem(stem: Seq<char>) -> bool {
    !occurs(lowered(stem), "uninstall"@) && !occurs(lowered(stem), "update"@) && !occurs(
        lowered(stem),
        "updater"@,
    )
}

/// `s` in lower case and without its spaces.
pub open spec fn squeezed(s: Seq<char>) -> Seq<char> {
    replaced_all(lowered(s), seq![' '], Seq::empty())
}

/// Whether the file stem reads like the application's name: one holds the
/// other, capitals and spaces aside.
pub open spec fn is_alike(app_name: Seq<char>, stem: Seq<char>) -> bool {
    squeezed(stem) == squeezed(app_name) || occurs(squeezed(stem), squeezed(app_name)) || occurs(
        squeezed(app_name),
        squeezed(stem),
    )
}

/// Whether the program at index `i` can be launched at all.
pub open spec fn usable_at(stems: Seq<Seq<char>>, i: int) -> bool {
    0 <= i < stems.len() && is_usable_stem(stems[i])
}

/// Whether the program at index `i` can be launched and reads like the
/// application's name.
pub open spec fn fits_at(app_name: Seq<char>, stems: Seq<Seq<char>>, i: int) -> bool {
    usable_at(stems, i) && is_alike(app_name, stems[i])
}

/// Whether `choice` is the program to launch among those with the file
/// stems `stems`: the first usable one that reads like the name, else the
/// first usable one, else none.
pub open spec fn is_executable_choice(
    app_name: Seq<char>,
    stems: Seq<Seq<char>>,
    choice: Option<int>,
) -> bool {
    match choice {
        Some(at) => if exists|i: int| fits_at(app_name, stems, i) {
            fits_at(app_name, stems, at) && forall|i: int|
                0 <= i < at ==> !fits_at(app_name, stems, i)
        } else {
            usable_at(stems, at) && forall|i: int| 0 <= i < at ==> !usable_at(stems, i)
        },
        None => forall|i: int| !usable_at(stems, i),
    }
}

/// `low` without its spaces.
fn squeeze(low: &[char]) -> (out: Vec<char>)
    ensures
        out@ == replaced_all(low@, seq![' '], Seq::empty()),
{
    let mut space: Vec<char> = Vec::new();
    space.push(' ');
    let nothing: Vec<char> = Vec::new();
    assert(space@ =~= seq![' ']);
    replace_all(low, space.as_slice(), nothing.as_slice())
}

/// The program to launch for the application `app_name` among the
/// programs of its directory, given by their file stems in the order in
/// which the directory lists them.
pub fn pick_executable(app_name: &str, stems: &Vec<String>) -> (choice: Option<usize>)
    ensures
        is_executable_choice(
            app_name@,
            stems@.map_values(|s: String| s@),
            match choice {
                Some(at) => Some(at as int),
                None => None,
            },
        ),
{
    let ghost texts = stems@.map_values(|s: String| s@);
    let name = squeeze(to_lower(chars_of(app_name).as_slice()).as_slice());
    let uninstall = chars_of("uninstall");
    let update = chars_of("update");
    let updater = chars_of("updater");
    let mut fallback: Option<usize> = None;
    let mut i: usize = 0;
    while i < stems.len()
        invariant
            i <= stems@.len(),
            texts == stems@.map_values(|s: String| s@),
            name@ == squeezed(app_name@),
            uninstall@ == "uninstall"@,
            update@ == "update"@,
            updater@ == "updater"@,
            forall|j: int| 0 <= j < i ==> !fits_at(app_name@, texts, j),
            match fallback {
                Some(at) => at < i && usable_at(texts, at as int) && forall|j: int|
                    0 <= j < at ==> !usable_at(texts, j),
                None => forall|j: int| 0 <= j < i ==> !usable_at(texts, j),
            },
        decreases stems@.len() - i,
    {
        let low = to_lower(chars_of(stems[i].as_str()).as_slice());
        assert(low@ == lowered(texts[i as int]));
        let noise = contains(low.as_slice(), uninstall.as_slice()) || contains(
            low.as_slice(),
            update.as_slice(),
        ) || contains(low.as_slice(), updater.as_slice());
        if !noise {
            if fallback.is_none() {
                fallback = Some(i);
            }
            let stem = squeeze(low.as_slice());
            let alike = same_chars(stem.as_slice(), name.as_slice()) || contains(
                stem.as_slice(),
                name.as_slice(),
            ) || contains(name.as_slice(), stem.as_slice());
            if alike {
                assert(fits_at(app_name@, texts, i as int));
                return Some(i);
            }
        }
        i += 1;
    }
    assert(!(exists|k: int| fits_at(app_name@, texts, k)));
    fallback
}

} // verus!
