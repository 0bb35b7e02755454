//! The display name of the application a capture came from.

use vstd::prelude::*;
use crate::text::{append_chars, chars_of, matches_at, string_of};

verus! {

/// The name given where the foreground application cannot be told.
pub const UNKNOWN_APP: &'static str = "Unknown";

/// The part of `path` behind its last backslash, or all of it where it
/// holds none.
pub open spec fn file_name(path: Seq<char>) -> Seq<char>
    decreases path.len(),
{
    if path.len() == 0 || path.last() == '\\' {
        Seq::empty()
    } else {
        file_name(path.drop_last()).push(path.last())
    }
}

/// `s` without a trailing `suffix`, as often as it ends in one.
pub open spec fn without_suffix(s: Seq<char>, suffix: Seq<char>) -> Seq<char>
    decreases s.len(),
{
    if suffix.len() > 0 && suffix.len() <= s.len() && s.skip(s.len() - suffix.len()) == suffix {
        without_suffix(s.take(s.len() - suffix.len()), suffix)
    } else {
        s
    }
}

/// The display name of the program at `path`: its file name without the
/// extension of an executable, in lower or in upper case.
pub open spec fn display_name(path: Seq<char>) -> Seq<char> {
    without_suffix(without_suffix(file_name(path), ".exe"@), ".EXE"@)
}

/// The name under which captures from the program at `image_path` are
/// filed, or the name for an unknown one where no path could be had.
pub open spec fn app_name(image_path: Option<Seq<char>>) -> Seq<char> {
    match image_path {
        Some(path) => display_name(path),
        None => UNKNOWN_APP@,
    }
}

/// Removes `suffix` from the end of `s` as often as it stands there.
fn strip_suffix(s: &mut Vec<char>, suffix: &[char])
    ensures
        final(s)@ == without_suffix(old(s)@, suffix@),
{
    if suffix.len() == 0 {
        return ;
    }
    while s.len() >= suffix.len() && matches_at(s.as_slice(), suffix, s.len() - suffix.len())
        invariant
            suffix@.len() > 0,
            without_suffix(s@, suffix@) == without_suffix(old(s)@, suffix@),
        decreases s@.len(),
    {
        let ghost before = s@;
        let keep: usize = s.len() - suffix.len();
        s.truncate(keep);
        proof {
            assert(before.skip(before.len() - suffix@.len()) =~= before.subrange(
                before.len() - suffix@.len(),
                before.len() as int,
            ));
            assert(s@ =~= before.take(before.len() - suffix@.len()));
        }
    }
    proof {
        if suffix@.len() <= s@.len() {
            assert(s@.skip(s@.len() - suffix@.len()) =~= s@.subrange(
                s@.len() - suffix@.len(),
                s@.len() as int,
            ));
        }
    }
}

/// The display name of the program at `path`.
pub fn display_name_of(path: &str) -> (name: String)
    ensures
        name@ == display_name(path@),
{
    let chars = chars_of(path);
    let mut from: usize = chars.len();
    proof {
        assert(chars@.take(from as int) =~= chars@);
        assert(file_name(chars@) + chars@.skip(from as int) =~= file_name(chars@));
    }
    while from > 0 && chars[from - 1] != '\\'
        invariant
            from <= chars@.len(),
            file_name(chars@) == file_name(chars@.take(from as int)) + chars@.skip(from as int),
        decreases from,
    {
        proof {
            let upto = chars@.take(from as int);
            assert(upto.drop_last() =~= chars@.take(from - 1));
            assert(file_name(upto.drop_last()).push(upto.last()) + chars@.skip(from as int)
                =~= file_name(upto.drop_last()) + chars@.skip(from - 1));
        }
        from -= 1;
    }
    let mut name: Vec<char> = Vec::new();
    append_chars(&mut name, &chars.as_slice()[from..chars.len()]);
    proof {
        assert(chars@.take(chars@.len() as int) =~= chars@);
        assert(file_name(chars@.take(from as int)) =~= Seq::<char>::empty());
        assert(name@ =~= file_name(chars@));
    }
    let lower = chars_of(".exe");
    let upper = chars_of(".EXE");
    strip_suffix(&mut name, lower.as_slice());
    strip_suffix(&mut name, upper.as_slice());
    string_of(name.as_slice())
}

/// The name under which a capture is filed, from the path of the
/// foreground program's image where it could be had.
pub fn get_foreground_app_name(image_path: Option<&str>) -> (name: String)
    ensures
        name@ == app_name(
            match image_path {
                Some(path) => Some(path@),
                None => None,
            },
        ),
{
    match image_path {
        Some(path) => display_name_of(path),
        None => string_of(chars_of(UNKNOWN_APP).as_slice()),
    }
}

} // verus!
