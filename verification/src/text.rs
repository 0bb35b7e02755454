//! Character-level helpers shared by the capture and expansion halves.
//!
//! Text is handled as sequences of Unicode scalar values: a `&str` is read
//! into a `Vec<char>` once, worked on by index, and written back at the end.

use vstd::prelude::*;
use vstd::string::StringSliceAdditionalSpecFns;
use vstd::utf8::{decode_utf8, encode_utf8, encode_utf8_decode_utf8};

verus! {

/// Whether `c` has the Unicode property White_Space.
pub open spec fn is_space(c: char) -> bool {
    let n = c as u32;
    ||| 0x09 <= n <= 0x0D
    ||| n == 0x20
    ||| n == 0x85
    ||| n == 0xA0
    ||| n == 0x1680
    ||| 0x2000 <= n <= 0x200A
    ||| n == 0x2028
    ||| n == 0x2029
    ||| n == 0x202F
    ||| n == 0x205F
    ||| n == 0x3000
}

/// How many characters at the front of `s` are white space.
pub open spec fn leading_spaces(s: Seq<char>) -> nat
    decreases s.len(),
{
    if s.len() == 0 || !is_space(s[0]) {
        0
    } else {
        1 + leading_spaces(s.skip(1))
    }
}

/// How many characters at the back of `s` are white space.
pub open spec fn trailing_spaces(s: Seq<char>) -> nat
    decreases s.len(),
{
    if s.len() == 0 || !is_space(s.last()) {
        0
    } else {
        1 + trailing_spaces(s.drop_last())
    }
}

/// `s` without the white space at its two ends.
pub open spec fn trimmed(s: Seq<char>) -> Seq<char> {
    if leading_spaces(s) == s.len() {
        Seq::empty()
    } else {
        s.subrange(leading_spaces(s) as int, s.len() - trailing_spaces(s))
    }
}

/// Whether `needle` stands in `hay` at index `at`.
pub open spec fn occurs_at(hay: Seq<char>, needle: Seq<char>, at: int) -> bool {
    0 <= at && at + needle.len() <= hay.len() && hay.subrange(at, at + needle.len()) == needle
}

/// Whether `needle` stands anywhere in `hay`.
pub open spec fn occurs(hay: Seq<char>, needle: Seq<char>) -> bool {
    exists|at: int| occurs_at(hay, needle, at)
}

/// `hay` with every occurrence of `needle` replaced by `with`, found from
/// left to right without overlap. An empty `needle` replaces nothing.
pub open spec fn replaced_all(hay: Seq<char>, needle: Seq<char>, with: Seq<char>) -> Seq<char>
    decreases hay.len(),
{
    if needle.len() == 0 || hay.len() < needle.len() {
        hay
    } else if occurs_at(hay, needle, 0) {
        with + replaced_all(hay.skip(needle.len() as int), needle, with)
    } else {
        seq![hay[0]] + replaced_all(hay.skip(1), needle, with)
    }
}

/// The index of the leftmost occurrence of `needle` in `hay`, if there is one.
pub open spec fn first_occurrence(hay: Seq<char>, needle: Seq<char>) -> Option<int> {
    if occurs(hay, needle) {
        Some(
            choose|at: int|
                occurs_at(hay, needle, at) && forall|j: int|
                    0 <= j < at ==> !occurs_at(hay, needle, j),
        )
    } else {
        None
    }
}

/// `hay` with its leftmost occurrence of `needle` replaced by `with`, or
/// `hay` itself where there is none.
pub open spec fn replaced_first(hay: Seq<char>, needle: Seq<char>, with: Seq<char>) -> Seq<char> {
    match first_occurrence(hay, needle) {
        Some(at) => hay.take(at) + with + hay.skip(at + needle.len()),
        None => hay,
    }
}

/// Appends one character to a string, through `String::push`.
#[verifier::external_body]
fn push_char(s: &mut String, c: char)
    ensures
        final(s)@ == old(s)@.push(c),
{
    s.push(c)
}

/// The characters of `s`, in order.
pub fn chars_of(s: &str) -> (out: Vec<char>)
    ensures
        out@ == s@,
{
    let mut out: Vec<char> = Vec::new();
    for c in it: s.chars()
        invariant
            out@ == it.seq().take(it.index() as int),
            it.seq() == s@,
    {
        out.push(c);
    }
    out
}

/// The string made of `chars`, in order.
pub fn string_of(chars: &[char]) -> (out: String)
    ensures
        out@ == chars@,
{
    let mut out = String::new();
    let mut i: usize = 0;
    while i < chars.len()
        invariant
            i <= chars.len(),
            out@ == chars@.take(i as int),
        decreases chars.len() - i,
    {
        push_char(&mut out, chars[i]);
        assert(chars@.take(i + 1) =~= chars@.take(i as int).push(chars@[i as int]));
        i += 1;
    }
    assert(chars@.take(chars.len() as int) =~= chars@);
    out
}

/// Whether `c` is Unicode white space.
pub fn is_space_char(c: char) -> (b: bool)
    ensures
        b == is_space(c),
{
    let n: u32 = c as u32;
    (0x09 <= n && n <= 0x0D) || n == 0x20 || n == 0x85 || n == 0xA0 || n == 0x1680 || (0x2000 <= n
        && n <= 0x200A) || n == 0x2028 || n == 0x2029 || n == 0x202F || n == 0x205F || n == 0x3000
}

/// Whether position `at` of `hay` starts a copy of `needle`.
pub fn matches_at(hay: &[char], needle: &[char], at: usize) -> (b: bool)
    ensures
        b == occurs_at(hay@, needle@, at as int),
{
    if needle.len() > hay.len() || at > hay.len() - needle.len() {
        return false;
    }
    let mut k: usize = 0;
    while k < needle.len()
        invariant
            at + needle.len() <= hay.len(),
            k <= needle.len(),
            forall|j: int| 0 <= j < k ==> hay@[at + j] == needle@[j],
        decreases needle.len() - k,
    {
        if hay[at + k] != needle[k] {
            assert(hay@.subrange(at as int, at + needle.len())[k as int] != needle@[k as int]);
            return false;
        }
        k += 1;
    }
    assert(hay@.subrange(at as int, at + needle.len()) =~= needle@);
    true
}

/// The index of the leftmost occurrence of `needle` in `hay`.
pub fn find(hay: &[char], needle: &[char]) -> (r: Option<usize>)
    ensures
        match r {
            Some(at) => occurs_at(hay@, needle@, at as int) && forall|j: int|
                0 <= j < at ==> !occurs_at(hay@, needle@, j),
            None => !occurs(hay@, needle@),
        },
        r is Some <==> occurs(hay@, needle@),
        r matches Some(at) ==> first_occurrence(hay@, needle@) == Some(at as int),
        r is None ==> first_occurrence(hay@, needle@) is None,
{
    if needle.len() > hay.len() {
        return None;
    }
    let last: usize = hay.len() - needle.len();
    let mut at: usize = 0;
    loop
        invariant
            last == hay.len() - needle.len(),
            at <= last,
            forall|j: int| 0 <= j < at ==> !occurs_at(hay@, needle@, j),
        decreases last - at,
    {
        if matches_at(hay, needle, at) {
            proof {
                lemma_first_occurrence_is(hay@, needle@, at as int);
            }
            return Some(at);
        }
        if at == last {
            return None;
        }
        at += 1;
    }
}

/// Whether `needle` stands anywhere in `hay`.
pub fn contains(hay: &[char], needle: &[char]) -> (b: bool)
    ensures
        b == occurs(hay@, needle@),
{
    find(hay, needle).is_some()
}

/// Whether the character `c` is one of `hay`.
pub fn contains_char(hay: &[char], c: char) -> (b: bool)
    ensures
        b == hay@.contains(c),
{
    let mut i: usize = 0;
    while i < hay.len()
        invariant
            i <= hay.len(),
            forall|j: int| 0 <= j < i ==> hay@[j] != c,
        decreases hay.len() - i,
    {
        if hay[i] == c {
            return true;
        }
        i += 1;
    }
    false
}

/// Whether two texts hold the same characters.
pub fn same_text(a: &str, b: &str) -> (same: bool)
    ensures
        same == (a@ == b@),
{
    let left = a.as_bytes();
    let right = b.as_bytes();
    proof {
        encode_utf8_decode_utf8(a@);
        encode_utf8_decode_utf8(b@);
    }
    if left.len() != right.len() {
        return false;
    }
    let mut i: usize = 0;
    while i < left.len()
        invariant
            i <= left.len(),
            left@.len() == right@.len(),
            left@ == encode_utf8(a@),
            right@ == encode_utf8(b@),
            decode_utf8(encode_utf8(a@)) == a@,
            decode_utf8(encode_utf8(b@)) == b@,
            forall|j: int| 0 <= j < i ==> left@[j] == right@[j],
        decreases left.len() - i,
    {
        if left[i] != right[i] {
            return false;
        }
        i += 1;
    }
    assert(left@ =~= right@);
    true
}

/// Appends the characters of `more` to `out`.
pub fn append_chars(out: &mut Vec<char>, more: &[char])
    ensures
        final(out)@ == old(out)@ + more@,
{
    let mut i: usize = 0;
    while i < more.len()
        invariant
            i <= more.len(),
            out@ == old(out)@ + more@.take(i as int),
        decreases more.len() - i,
    {
        out.push(more[i]);
        assert(more@.take(i + 1) =~= more@.take(i as int).push(more@[i as int]));
        assert(out@ =~= old(out)@ + more@.take(i + 1));
        i += 1;
    }
    assert(more@.take(more.len() as int) =~= more@);
}

/// `s` without the white space at its two ends.
pub fn trim(s: &[char]) -> (out: Vec<char>)
    ensures
        out@ == trimmed(s@),
{
    let mut from: usize = 0;
    while from < s.len() && is_space_char(s[from])
        invariant
            from <= s.len(),
            forall|j: int| 0 <= j < from ==> is_space(s@[j]),
        decreases s.len() - from,
    {
        from += 1;
    }
    proof {
        lemma_leading_spaces(s@, from as int);
    }
    let mut out: Vec<char> = Vec::new();
    if from == s.len() {
        return out;
    }
    let mut to: usize = s.len();
    while to > from && is_space_char(s[to - 1])
        invariant
            from < to <= s.len(),
            !is_space(s@[from as int]),
            forall|j: int| to <= j < s.len() ==> is_space(s@[j]),
        decreases to,
    {
        to -= 1;
    }
    proof {
        lemma_trailing_spaces(s@, s.len() - to);
    }
    append_chars(&mut out, &s[from..to]);
    out
}

/// Whether `text` holds nothing but white space.
pub fn is_blank(text: &str) -> (blank: bool)
    ensures
        blank == (trimmed(text@).len() == 0),
{
    let core = trim(chars_of(text).as_slice());
    core.len() == 0
}

/// `hay` with every occurrence of `needle` replaced by `with`.
pub fn replace_all(hay: &[char], needle: &[char], with: &[char]) -> (out: Vec<char>)
    ensures
        out@ == replaced_all(hay@, needle@, with@),
{
    let mut out: Vec<char> = Vec::new();
    if needle.len() == 0 {
        append_chars(&mut out, hay);
        return out;
    }
    let mut i: usize = 0;
    assert(hay@.skip(0) =~= hay@);
    assert(out@ + replaced_all(hay@, needle@, with@) =~= replaced_all(hay@, needle@, with@));
    while i < hay.len()
        invariant
            i <= hay.len(),
            needle.len() > 0,
            out@ + replaced_all(hay@.skip(i as int), needle@, with@) == replaced_all(
                hay@,
                needle@,
                with@,
            ),
        decreases hay.len() - i,
    {
        let ghost rest = hay@.skip(i as int);
        let ghost before = out@;
        if matches_at(hay, needle, i) {
            append_chars(&mut out, with);
            proof {
                assert(rest.subrange(0, needle@.len() as int) =~= hay@.subrange(
                    i as int,
                    i + needle@.len(),
                ));
                assert(rest.skip(needle@.len() as int) =~= hay@.skip(i + needle@.len()));
                assert(out@ + replaced_all(hay@.skip(i + needle@.len()), needle@, with@)
                    =~= before + replaced_all(rest, needle@, with@));
            }
            i += needle.len();
        } else {
            out.push(hay[i]);
            proof {
                let after = hay@.skip(i + 1);
                assert(rest.skip(1) =~= after);
                if rest.len() >= needle@.len() {
                    assert(rest.subrange(0, needle@.len() as int) =~= hay@.subrange(
                        i as int,
                        i + needle@.len(),
                    ));
                    assert(out@ + replaced_all(after, needle@, with@) =~= before + replaced_all(
                        rest,
                        needle@,
                        with@,
                    ));
                } else {
                    lemma_short_text_unchanged(rest, needle@, with@);
                    lemma_short_text_unchanged(after, needle@, with@);
                    assert(out@ + after =~= before + rest);
                }
            }
            i += 1;
        }
    }
    assert(hay@.skip(hay@.len() as int) =~= Seq::<char>::empty());
    assert(out@ + Seq::<char>::empty() =~= out@);
    out
}

/// `hay` with its leftmost occurrence of `needle` replaced by `with`.
pub fn replace_first(hay: &[char], needle: &[char], with: &[char]) -> (out: Vec<char>)
    ensures
        out@ == replaced_first(hay@, needle@, with@),
{
    let mut out: Vec<char> = Vec::new();
    match find(hay, needle) {
        Some(at) => {
            let end: usize = hay.len();
            let resume: usize = at + needle.len();
            append_chars(&mut out, &hay[0..at]);
            append_chars(&mut out, with);
            append_chars(&mut out, &hay[resume..end]);
            assert(hay@.subrange(0, at as int) =~= hay@.take(at as int));
            assert(hay@.subrange(at + needle@.len(), hay@.len() as int) =~= hay@.skip(
                at + needle@.len(),
            ));
        },
        None => {
            append_chars(&mut out, hay);
        },
    }
    out
}

/// Where a needle occurs at all, it has a leftmost occurrence.
pub proof fn lemma_leftmost_occurrence(hay: Seq<char>, needle: Seq<char>)
    requires
        occurs(hay, needle),
    ensures
        first_occurrence(hay, needle) is Some,
        occurs_at(hay, needle, first_occurrence(hay, needle)->0),
        forall|j: int|
            0 <= j < first_occurrence(hay, needle)->0 ==> !occurs_at(hay, needle, j),
{
    let some = choose|at: int| occurs_at(hay, needle, at);
    lemma_leftmost_up_to(hay, needle, some);
    let least = choose|m: int|
        0 <= m <= some && occurs_at(hay, needle, m) && forall|j: int|
            0 <= j < m ==> !occurs_at(hay, needle, j);
    lemma_first_occurrence_is(hay, needle, least);
}

/// At or before any occurrence stands one that none precedes.
pub proof fn lemma_leftmost_up_to(hay: Seq<char>, needle: Seq<char>, at: int)
    requires
        occurs_at(hay, needle, at),
    ensures
        exists|m: int|
            0 <= m <= at && occurs_at(hay, needle, m) && forall|j: int|
                0 <= j < m ==> !occurs_at(hay, needle, j),
    decreases at,
{
    if exists|j: int| 0 <= j < at && occurs_at(hay, needle, j) {
        let earlier = choose|j: int| 0 <= j < at && occurs_at(hay, needle, j);
        lemma_leftmost_up_to(hay, needle, earlier);
        let m = choose|m: int|
            0 <= m <= earlier && occurs_at(hay, needle, m) && forall|j: int|
                0 <= j < m ==> !occurs_at(hay, needle, j);
        assert(0 <= m <= at && occurs_at(hay, needle, m) && forall|j: int|
            0 <= j < m ==> !occurs_at(hay, needle, j));
    } else {
        assert(0 <= at <= at && occurs_at(hay, needle, at) && forall|j: int|
            0 <= j < at ==> !occurs_at(hay, needle, j));
    }
}

/// A text shorter than the needle holds no occurrence, so nothing in it is
/// replaced.
pub proof fn lemma_short_text_unchanged(hay: Seq<char>, needle: Seq<char>, with: Seq<char>)
    requires
        hay.len() < needle.len(),
    ensures
        replaced_all(hay, needle, with) == hay,
{
}

/// `n` white-space characters at the front, then another character or the
/// end: `n` is the count of leading spaces.
pub proof fn lemma_leading_spaces(s: Seq<char>, n: int)
    requires
        0 <= n <= s.len(),
        forall|j: int| 0 <= j < n ==> is_space(s[j]),
        n == s.len() || !is_space(s[n]),
    ensures
        leading_spaces(s) == n,
    decreases n,
{
    if n > 0 {
        let rest = s.skip(1);
        assert forall|j: int| 0 <= j < n - 1 implies is_space(rest[j]) by {
            assert(rest[j] == s[j + 1]);
        }
        lemma_leading_spaces(rest, n - 1);
    }
}

/// `n` white-space characters at the back, preceded by another character or
/// by nothing: `n` is the count of trailing spaces.
pub proof fn lemma_trailing_spaces(s: Seq<char>, n: int)
    requires
        0 <= n <= s.len(),
        forall|j: int| s.len() - n <= j < s.len() ==> is_space(s[j]),
        n == s.len() || !is_space(s[s.len() - n - 1]),
    ensures
        trailing_spaces(s) == n,
    decreases n,
{
    if n > 0 {
        let rest = s.drop_last();
        assert forall|j: int| rest.len() - (n - 1) <= j < rest.len() implies is_space(rest[j]) by {
            assert(rest[j] == s[j]);
        }
        lemma_trailing_spaces(rest, n - 1);
    }
}

/// The leftmost occurrence is the one that no occurrence precedes.
pub proof fn lemma_first_occurrence_is(hay: Seq<char>, needle: Seq<char>, at: int)
    requires
        occurs_at(hay, needle, at),
        forall|j: int| 0 <= j < at ==> !occurs_at(hay, needle, j),
    ensures
        first_occurrence(hay, needle) == Some(at),
{
    let found = first_occurrence(hay, needle)->0;
    assert(occurs_at(hay, needle, found) && forall|j: int|
        0 <= j < found ==> !occurs_at(hay, needle, j));
    if found < at {
        assert(!occurs_at(hay, needle, found));
    }
    if at < found {
        assert(!occurs_at(hay, needle, at));
    }
}

} // verus!
